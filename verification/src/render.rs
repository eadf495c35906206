//! The text of the finished program: one line per instruction, and the
//! graph of the blocks in DOT.
use vstd::prelude::*;
use crate::block::{block_views, first_emitted, Block, BlockList, BlockView};
use crate::inst::{Inst, InstList};
use crate::itype::IType;
use crate::tokenizer::Tokenizer;

verus! {

/// The character of a decimal digit.
pub open spec fn digit_char(d: nat) -> char {
    ((48 + d) as u8) as char
}

/// A natural number in decimal, without leading zeros.
pub open spec fn decimal(n: nat) -> Seq<char>
    decreases n,
{
    if n < 10 {
        seq![digit_char(n)]
    } else {
        decimal(n / 10).push(digit_char(n % 10))
    }
}

/// An integer in decimal, with a minus sign when it is negative.
pub open spec fn signed_decimal(v: int) -> Seq<char> {
    if v < 0 {
        "-"@ + decimal((-v) as nat)
    } else {
        decimal(v as nat)
    }
}

/// The texts of `parts` with `sep` between them.
pub open spec fn join(parts: Seq<Seq<char>>, sep: Seq<char>) -> Seq<char>
    decreases parts.len(),
{
    if parts.len() == 0 {
        Seq::empty()
    } else if parts.len() == 1 {
        parts[0]
    } else {
        join(parts.drop_last(), sep) + sep + parts.last()
    }
}

/// The id of the first instruction that block `b` emits, in decimal: how a
/// jump names its target.
pub open spec fn target_text(b: usize, insts: Seq<Inst>, blocks: Seq<BlockView>) -> Seq<char> {
    decimal(first_emitted(blocks[b as int].insts, insts).unwrap() as nat)
}

/// A conditional branch: its name, its condition and its target.
pub open spec fn branch_text(
    name: Seq<char>,
    inst: usize,
    block: Option<usize>,
    insts: Seq<Inst>,
    blocks: Seq<BlockView>,
) -> Seq<char> {
    name + " ("@ + decimal(inst as nat) + ") ("@ + target_text(block.unwrap(), insts, blocks)
        + ")"@
}

/// An instruction with two operands: its name and the two ids.
pub open spec fn binary_text(name: Seq<char>, a: usize, b: usize) -> Seq<char> {
    name + " ("@ + decimal(a as nat) + ") ("@ + decimal(b as nat) + ")"@
}

/// An instruction with one operand: its name and the id.
pub open spec fn unary_text(name: Seq<char>, a: usize) -> Seq<char> {
    name + " ("@ + decimal(a as nat) + ")"@
}

/// The text of an instruction's kind. Operands are written by their ids,
/// a jump's target by the id of the first instruction that the target
/// block emits, a phi's variable by its name.
pub open spec fn itype_text(
    itype: IType,
    insts: Seq<Inst>,
    blocks: Seq<BlockView>,
    idents: Seq<Seq<char>>,
) -> Seq<char> {
    match itype {
        IType::Const(val) => "const #"@ + signed_decimal(val as int),
        IType::Add { inst1, inst2 } => binary_text("add"@, inst1.0, inst2.0),
        IType::Sub { inst1, inst2 } => binary_text("sub"@, inst1.0, inst2.0),
        IType::Mul { inst1, inst2 } => binary_text("mul"@, inst1.0, inst2.0),
        IType::Div { inst1, inst2 } => binary_text("div"@, inst1.0, inst2.0),
        IType::Cmp { inst1, inst2 } => binary_text("cmp"@, inst1.0, inst2.0),
        IType::Phi { inst1, inst2, var } => "("@ + idents[var as int] + ") "@ + binary_text(
            "phi"@,
            inst1.0,
            inst2.0,
        ),
        IType::End => "end"@,
        IType::Bra { block } => "bra ("@ + target_text(block, insts, blocks) + ")"@,
        IType::Bne { inst, block } => branch_text("bne"@, inst, block, insts, blocks),
        IType::Beq { inst, block } => branch_text("beq"@, inst, block, insts, blocks),
        IType::Ble { inst, block } => branch_text("ble"@, inst, block, insts, blocks),
        IType::Blt { inst, block } => branch_text("blt"@, inst, block, insts, blocks),
        IType::Bge { inst, block } => branch_text("bge"@, inst, block, insts, blocks),
        IType::Bgt { inst, block } => branch_text("bgt"@, inst, block, insts, blocks),
        IType::Jsr { block } => "jsr "@ + target_text(block, insts, blocks),
        IType::Ret { inst: Some(inst) } => unary_text("ret"@, inst.0),
        IType::Ret { inst: None } => "ret"@,
        IType::GetPar1 => "getpar1"@,
        IType::GetPar2 => "getpar2"@,
        IType::GetPar3 => "getpar3"@,
        IType::SetPar1 { inst } => unary_text("setpar1"@, inst.0),
        IType::SetPar2 { inst } => unary_text("setpar2"@, inst.0),
        IType::SetPar3 { inst } => unary_text("setpar3"@, inst.0),
        IType::Read => "read"@,
        IType::Write { inst } => unary_text("write"@, inst.0),
        IType::WriteNL => "writeNL"@,
        IType::Empty => "\\<empty\\>"@,
        IType::Assignment { .. } => Seq::empty(),
    }
}

/// The text of an instruction: its id, a colon and its kind.
pub open spec fn inst_text(
    inst: Inst,
    insts: Seq<Inst>,
    blocks: Seq<BlockView>,
    idents: Seq<Seq<char>>,
) -> Seq<char> {
    decimal(inst.id as nat) + ": "@ + itype_text(inst.itype, insts, blocks, idents)
}

/// Whether the text of an instruction of this kind can be written: the
/// kind is no assignment marker, a jump has a target that exists and emits
/// an instruction, and a phi's variable has a name.
pub open spec fn can_render(
    itype: IType,
    insts: Seq<Inst>,
    blocks: Seq<BlockView>,
    idents: Seq<Seq<char>>,
) -> bool {
    &&& !(itype is Assignment)
    &&& (itype.is_cond_branch() || itype is Bra || itype is Jsr ==> (itype.target() matches Some(b)
        && b < blocks.len() && block_lists_ok(blocks[b as int].insts, insts) && first_emitted(
        blocks[b as int].insts,
        insts,
    ) is Some))
    &&& (itype matches IType::Phi { var, .. } ==> var < idents.len())
}

/// Every instruction that the list names exists.
pub open spec fn block_lists_ok(list: Seq<usize>, insts: Seq<Inst>) -> bool {
    forall|k: int| 0 <= k < list.len() ==> #[trigger] list[k] < insts.len()
}

/// Whether the texts of the instructions of a list can be written: they
/// exist in the store `own`, and each one that is no assignment marker can
/// be rendered against the store `insts`, where jump targets are looked up.
pub open spec fn list_renderable(
    list: Seq<usize>,
    own: Seq<Inst>,
    insts: Seq<Inst>,
    blocks: Seq<BlockView>,
    idents: Seq<Seq<char>>,
) -> bool {
    &&& block_lists_ok(list, own)
    &&& forall|k: int|
        0 <= k < list.len() ==> (own[#[trigger] list[k] as int].itype is Assignment || can_render(
            own[list[k] as int].itype,
            insts,
            blocks,
            idents,
        ))
}

/// The texts of the instructions of a list, in order. Assignment markers
/// are left out, and so are placeholders unless `with_empty` is set. The
/// instructions are taken from the store `own`, jump targets are looked up
/// in the store `insts`.
pub open spec fn list_texts(
    list: Seq<usize>,
    with_empty: bool,
    own: Seq<Inst>,
    insts: Seq<Inst>,
    blocks: Seq<BlockView>,
    idents: Seq<Seq<char>>,
) -> Seq<Seq<char>>
    decreases list.len(),
{
    if list.len() == 0 {
        Seq::empty()
    } else {
        let rest = list_texts(list.drop_last(), with_empty, own, insts, blocks, idents);
        let inst = own[list.last() as int];
        if inst.itype is Assignment || (inst.itype is Empty && !with_empty) {
            rest
        } else {
            rest.push(inst_text(inst, insts, blocks, idents))
        }
    }
}

/// The label of a block in the graph: the texts of its instructions, with
/// placeholders, between bars. A list without any instruction is labelled
/// as empty.
pub open spec fn graph_label(
    list: Seq<usize>,
    own: Seq<Inst>,
    insts: Seq<Inst>,
    blocks: Seq<BlockView>,
    idents: Seq<Seq<char>>,
) -> Seq<char> {
    if list.len() == 0 {
        "\\<empty\\>"@
    } else {
        join(list_texts(list, true, own, insts, blocks, idents), " | "@)
    }
}

/// The lines of a block in the instruction listing: the texts of its
/// instructions, without placeholders, one per line. A list without any
/// instruction is written as empty.
pub open spec fn listing_lines(
    list: Seq<usize>,
    own: Seq<Inst>,
    insts: Seq<Inst>,
    blocks: Seq<BlockView>,
    idents: Seq<Seq<char>>,
) -> Seq<char> {
    if list.len() == 0 {
        "\\<empty\\>"@
    } else {
        join(list_texts(list, false, own, insts, blocks, idents), "\n"@)
    }
}

/// The edges that leave a block in the graph: to its successors, unless
/// the block ends in a return, and from its immediate dominator.
pub open spec fn edges_text(block: BlockView, insts: Seq<Inst>) -> Seq<char> {
    let id = decimal(block.id as nat);
    let succ = if insts[block.insts.last() as int].itype is Ret {
        Seq::<char>::empty()
    } else {
        match block.next {
            (Some(fall_through), Some(follow)) => "\tbb"@ + id + ":s -> bb"@ + decimal(
                fall_through as nat,
            ) + ":n [label=\"fall-through\"];\n\tbb"@ + id + ":s -> bb"@ + decimal(follow as nat)
                + ":n [label=\"branch\"];\n"@,
            (Some(fall_through), None) => "\tbb"@ + id + ":s -> bb"@ + decimal(
                fall_through as nat,
            ) + ":n ;\n"@,
            _ => Seq::<char>::empty(),
        }
    };
    let dom = match block.dom {
        Some(dom) => "\tbb"@ + decimal(dom as nat) + ":b -> bb"@ + id
            + ":b [color=blue, style=dotted, label=\"dom\"];\n"@,
        None => Seq::<char>::empty(),
    };
    succ + dom
}

/// The node of a block in the graph, followed by its edges.
pub open spec fn block_text(
    block: BlockView,
    insts: Seq<Inst>,
    blocks: Seq<BlockView>,
    idents: Seq<Seq<char>>,
) -> Seq<char> {
    let id = decimal(block.id as nat);
    "\tbb"@ + id + " [shape=record, label=\"<b>BB"@ + id + " | { "@ + graph_label(
        block.insts,
        insts,
        insts,
        blocks,
        idents,
    ) + " }\"];\n"@ + edges_text(block, insts) + "\n"@
}

/// Appends a decimal digit.
fn push_digit(out: &mut String, d: usize)
    requires
        d < 10,
    ensures
        final(out)@ == old(out)@.push(digit_char(d as nat)),
{
    let b: u8 = 48 + (d as u8);
    out.push(b as char);
}

/// Appends a number in decimal.
pub fn push_decimal(out: &mut String, n: usize)
    ensures
        final(out)@ == old(out)@ + decimal(n as nat),
    decreases n,
{
    if n < 10 {
        push_digit(out, n);
        assert(old(out)@.push(digit_char(n as nat)) =~= old(out)@ + decimal(n as nat));
    } else {
        push_decimal(out, n / 10);
        push_digit(out, n % 10);
        assert((old(out)@ + decimal((n / 10) as nat)).push(digit_char((n % 10) as nat)) =~= old(out)@ + decimal(n as nat));
    }
}

/// Appends an integer in decimal.
pub fn push_signed(out: &mut String, v: isize)
    ensures
        final(out)@ == old(out)@ + signed_decimal(v as int),
{
    if v < 0 {
        out.append("-");
        let magnitude: usize = ((-(v + 1)) as usize) + 1;
        push_decimal(out, magnitude);
        assert(old(out)@ + "-"@ + decimal(magnitude as nat) =~= old(out)@ + signed_decimal(
            v as int,
        ));
    } else {
        push_decimal(out, v as usize);
    }
}

/// Appends the id of the first instruction that a block emits.
fn push_target(out: &mut String, block: usize, inst_list: &InstList, block_list: &BlockList)
    requires
        block < block_list.blocks@.len(),
        block_lists_ok(block_list.blocks@[block as int]@.insts, inst_list.instructions@),
        first_emitted(block_list.blocks@[block as int]@.insts, inst_list.instructions@) is Some,
    ensures
        final(out)@ == old(out)@ + target_text(
            block,
            inst_list.instructions@,
            block_views(block_list.blocks@),
        ),
{
    let first = block_list.get(block).get_first_inst(inst_list).unwrap();
    push_decimal(out, first);
}

/// Appends an instruction with two operands.
fn push_binary(out: &mut String, name: &str, a: usize, b: usize)
    ensures
        final(out)@ == old(out)@ + binary_text(name@, a, b),
{
    out.append(name);
    out.append(" (");
    push_decimal(out, a);
    out.append(") (");
    push_decimal(out, b);
    out.append(")");
    assert(out@ =~= old(out)@ + binary_text(name@, a, b));
}

/// Appends an instruction with one operand.
fn push_unary(out: &mut String, name: &str, a: usize)
    ensures
        final(out)@ == old(out)@ + unary_text(name@, a),
{
    out.append(name);
    out.append(" (");
    push_decimal(out, a);
    out.append(")");
    assert(out@ =~= old(out)@ + unary_text(name@, a));
}

/// Appends a conditional branch.
fn push_branch(
    out: &mut String,
    name: &str,
    inst: usize,
    block: Option<usize>,
    inst_list: &InstList,
    block_list: &BlockList,
)
    requires
        block matches Some(b) && b < block_list.blocks@.len() && block_lists_ok(
            block_list.blocks@[b as int]@.insts,
            inst_list.instructions@,
        ) && first_emitted(block_list.blocks@[b as int]@.insts, inst_list.instructions@) is Some,
    ensures
        final(out)@ == old(out)@ + branch_text(
            name@,
            inst,
            block,
            inst_list.instructions@,
            block_views(block_list.blocks@),
        ),
{
    out.append(name);
    out.append(" (");
    push_decimal(out, inst);
    out.append(") (");
    push_target(out, block.unwrap(), inst_list, block_list);
    out.append(")");
    assert(out@ =~= old(out)@ + branch_text(
        name@,
        inst,
        block,
        inst_list.instructions@,
        block_views(block_list.blocks@),
    ));
}

impl Inst {
    /// The text of the instruction: its id, a colon and its kind.
    pub fn generate_graph(
        &self,
        inst_list: &InstList,
        block_list: &BlockList,
        tokenizer: &Tokenizer,
    ) -> (r: String)
        requires
            can_render(
                self.itype,
                inst_list.instructions@,
                block_views(block_list.blocks@),
                tokenizer@.idents,
            ),
        ensures
            r@ == inst_text(
                *self,
                inst_list.instructions@,
                block_views(block_list.blocks@),
                tokenizer@.idents,
            ),
    {
        let mut out = String::new();
        push_decimal(&mut out, self.id);
        out.append(": ");
        match self.itype {
            IType::Const(val) => {
                out.append("const #");
                push_signed(&mut out, val);
            },
            IType::Add { inst1, inst2 } => push_binary(&mut out, "add", inst1.0, inst2.0),
            IType::Sub { inst1, inst2 } => push_binary(&mut out, "sub", inst1.0, inst2.0),
            IType::Mul { inst1, inst2 } => push_binary(&mut out, "mul", inst1.0, inst2.0),
            IType::Div { inst1, inst2 } => push_binary(&mut out, "div", inst1.0, inst2.0),
            IType::Cmp { inst1, inst2 } => push_binary(&mut out, "cmp", inst1.0, inst2.0),
            IType::Phi { inst1, inst2, var } => {
                out.append("(");
                let name = tokenizer.get_var(var);
                out.append(name.as_str());
                out.append(") ");
                push_binary(&mut out, "phi", inst1.0, inst2.0);
            },
            IType::End => out.append("end"),
            IType::Bra { block } => {
                out.append("bra (");
                push_target(&mut out, block, inst_list, block_list);
                out.append(")");
            },
            IType::Bne { inst, block } => push_branch(
                &mut out,
                "bne",
                inst,
                block,
                inst_list,
                block_list,
            ),
            IType::Beq { inst, block } => push_branch(
                &mut out,
                "beq",
                inst,
                block,
                inst_list,
                block_list,
            ),
            IType::Ble { inst, block } => push_branch(
                &mut out,
                "ble",
                inst,
                block,
                inst_list,
                block_list,
            ),
            IType::Blt { inst, block } => push_branch(
                &mut out,
                "blt",
                inst,
                block,
                inst_list,
                block_list,
            ),
            IType::Bge { inst, block } => push_branch(
                &mut out,
                "bge",
                inst,
                block,
                inst_list,
                block_list,
            ),
            IType::Bgt { inst, block } => push_branch(
                &mut out,
                "bgt",
                inst,
                block,
                inst_list,
                block_list,
            ),
            IType::Jsr { block } => {
                out.append("jsr ");
                push_target(&mut out, block, inst_list, block_list);
            },
            IType::Ret { inst } => match inst {
                Some(inst) => push_unary(&mut out, "ret", inst.0),
                None => out.append("ret"),
            },
            IType::GetPar1 => out.append("getpar1"),
            IType::GetPar2 => out.append("getpar2"),
            IType::GetPar3 => out.append("getpar3"),
            IType::SetPar1 { inst } => push_unary(&mut out, "setpar1", inst.0),
            IType::SetPar2 { inst } => push_unary(&mut out, "setpar2", inst.0),
            IType::SetPar3 { inst } => push_unary(&mut out, "setpar3", inst.0),
            IType::Read => out.append("read"),
            IType::Write { inst } => push_unary(&mut out, "write", inst.0),
            IType::WriteNL => out.append("writeNL"),
            IType::Empty => out.append("\\<empty\\>"),
            IType::Assignment { .. } => {},
        }
        assert(out@ =~= inst_text(
            *self,
            inst_list.instructions@,
            block_views(block_list.blocks@),
            tokenizer@.idents,
        ));
        out
    }
}

impl InstList {
    /// The texts of the instructions that `insts` names, joined by `sep`.
    fn join_texts(
        &self,
        insts: &[usize],
        with_empty: bool,
        sep: &str,
        inst_list: &InstList,
        block_list: &BlockList,
        tokenizer: &Tokenizer,
    ) -> (r: String)
        requires
            list_renderable(
                insts@,
                self.instructions@,
                inst_list.instructions@,
                block_views(block_list.blocks@),
                tokenizer@.idents,
            ),
        ensures
            r@ == join(
                list_texts(
                    insts@,
                    with_empty,
                    self.instructions@,
                    inst_list.instructions@,
                    block_views(block_list.blocks@),
                    tokenizer@.idents,
                ),
                sep@,
            ),
    {
        let ghost own = self.instructions@;
        let ghost store = inst_list.instructions@;
        let ghost blocks = block_views(block_list.blocks@);
        let ghost idents = tokenizer@.idents;
        let mut out = String::new();
        let mut count: usize = 0;
        let n: usize = insts.len();
        let mut k: usize = 0;
        assert(insts@.take(0) =~= Seq::<usize>::empty());
        while k < n
            invariant
                k <= n,
                n == insts@.len(),
                count <= k,
                own == self.instructions@,
                store == inst_list.instructions@,
                blocks == block_views(block_list.blocks@),
                idents == tokenizer@.idents,
                list_renderable(insts@, own, store, blocks, idents),
                count == list_texts(insts@.take(k as int), with_empty, own, store, blocks, idents).len(),
                out@ == join(
                    list_texts(insts@.take(k as int), with_empty, own, store, blocks, idents),
                    sep@,
                ),
            decreases n - k,
        {
            let inst_id: usize = insts[k];
            proof {
                assert(insts@.take(k + 1).drop_last() =~= insts@.take(k as int));
                assert(insts@.take(k + 1).last() == inst_id);
                assert(insts@[k as int] == inst_id);
            }
            let inst = self.get(inst_id);
            let skip = match inst.itype() {
                IType::Assignment { .. } => true,
                IType::Empty => !with_empty,
                _ => false,
            };
            if !skip {
                let ghost parts = list_texts(
                    insts@.take(k as int),
                    with_empty,
                    own,
                    store,
                    blocks,
                    idents,
                );
                if count > 0 {
                    out.append(sep);
                }
                let text = inst.generate_graph(inst_list, block_list, tokenizer);
                out.append(text.as_str());
                count = count + 1;
                proof {
                    assert(parts.push(text@).drop_last() =~= parts);
                    assert(out@ =~= join(parts.push(text@), sep@));
                }
            }
            k = k + 1;
        }
        assert(insts@.take(n as int) =~= insts@);
        out
    }

    /// The label of a block in the graph: the texts of the instructions
    /// that `insts` names, placeholders included, between bars.
    pub fn generate_graph(
        &self,
        insts: &[usize],
        inst_list: &InstList,
        block_list: &BlockList,
        tokenizer: &Tokenizer,
    ) -> (r: String)
        requires
            list_renderable(
                insts@,
                self.instructions@,
                inst_list.instructions@,
                block_views(block_list.blocks@),
                tokenizer@.idents,
            ),
        ensures
            r@ == graph_label(
                insts@,
                self.instructions@,
                inst_list.instructions@,
                block_views(block_list.blocks@),
                tokenizer@.idents,
            ),
    {
        if insts.len() == 0 {
            let mut out = String::new();
            out.append("\\<empty\\>");
            assert(out@ =~= "\\<empty\\>"@);
            return out;
        }
        self.join_texts(insts, true, " | ", inst_list, block_list, tokenizer)
    }

    /// The lines of a block in the listing: the texts of the instructions
    /// that `insts` names, without placeholders, one per line.
    pub fn generate_instructions(
        &self,
        insts: &[usize],
        inst_list: &InstList,
        block_list: &BlockList,
        tokenizer: &Tokenizer,
    ) -> (r: String)
        requires
            list_renderable(
                insts@,
                self.instructions@,
                inst_list.instructions@,
                block_views(block_list.blocks@),
                tokenizer@.idents,
            ),
        ensures
            r@ == listing_lines(
                insts@,
                self.instructions@,
                inst_list.instructions@,
                block_views(block_list.blocks@),
                tokenizer@.idents,
            ),
    {
        if insts.len() == 0 {
            let mut out = String::new();
            out.append("\\<empty\\>");
            assert(out@ =~= "\\<empty\\>"@);
            return out;
        }
        self.join_texts(insts, false, "\n", inst_list, block_list, tokenizer)
    }
}

impl Block {
    /// The node of the block in the graph, followed by its edges: to its
    /// successors, unless the block ends in a return, and from its
    /// immediate dominator.
    pub fn generate_graph(
        &self,
        inst_list: &InstList,
        block_list: &BlockList,
        tokenizer: &Tokenizer,
    ) -> (r: String)
        requires
            self@.insts.len() > 0,
            list_renderable(
                self@.insts,
                inst_list.instructions@,
                inst_list.instructions@,
                block_views(block_list.blocks@),
                tokenizer@.idents,
            ),
        ensures
            r@ == block_text(
                self@,
                inst_list.instructions@,
                block_views(block_list.blocks@),
                tokenizer@.idents,
            ),
    {
        let inst_data = inst_list.generate_graph(
            self.insts.as_slice(),
            inst_list,
            block_list,
            tokenizer,
        );
        let mut next_data = String::new();
        let last = self.get_last_inst().unwrap();
        let is_return = match inst_list.get(last).itype() {
            IType::Ret { .. } => true,
            _ => false,
        };
        if !is_return {
            match self.next {
                (Some(fall_through), Some(follow)) => {
                    next_data.append("\tbb");
                    push_decimal(&mut next_data, self.id);
                    next_data.append(":s -> bb");
                    push_decimal(&mut next_data, fall_through);
                    next_data.append(":n [label=\"fall-through\"];\n\tbb");
                    push_decimal(&mut next_data, self.id);
                    next_data.append(":s -> bb");
                    push_decimal(&mut next_data, follow);
                    next_data.append(":n [label=\"branch\"];\n");
                },
                (Some(fall_through), None) => {
                    next_data.append("\tbb");
                    push_decimal(&mut next_data, self.id);
                    next_data.append(":s -> bb");
                    push_decimal(&mut next_data, fall_through);
                    next_data.append(":n ;\n");
                },
                _ => {},
            }
        }
        match self.dom {
            Some(dom) => {
                next_data.append("\tbb");
                push_decimal(&mut next_data, dom);
                next_data.append(":b -> bb");
                push_decimal(&mut next_data, self.id);
                next_data.append(":b [color=blue, style=dotted, label=\"dom\"];\n");
            },
            None => {},
        }
        assert(next_data@ =~= edges_text(self@, inst_list.instructions@));
        let mut out = String::new();
        out.append("\tbb");
        push_decimal(&mut out, self.id);
        out.append(" [shape=record, label=\"<b>BB");
        push_decimal(&mut out, self.id);
        out.append(" | { ");
        out.append(inst_data.as_str());
        out.append(" }\"];\n");
        out.append(next_data.as_str());
        out.append("\n");
        assert(out@ =~= block_text(
            self@,
            inst_list.instructions@,
            block_views(block_list.blocks@),
            tokenizer@.idents,
        ));
        out
    }
}

} // verus!
