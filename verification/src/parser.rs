//! The parser and builder: a recursive-descent parser that emits SSA
//! instructions into the control-flow graph while it reads the source.
use vstd::prelude::*;
use std::collections::BTreeMap;
use crate::block::{block_views, BlockList, BlockView, OpMap};
use crate::frame::{BlockFrame, BlockState, FrameState, FrameStatus};
use crate::inst::InstList;
use crate::itype::{IType, Operand, Slot};
use crate::state::{
    block_ok, fold, frame_arm, frame_ok, def_tag, get_par, is_arith_op, lemma_bind_ok,
    lemma_bind_placed, lemma_const_reaches, lemma_declare_ok, lemma_detach_ok, lemma_emit_ok,
    lemma_emit_placed, lemma_fill_emits, lemma_holds_settled, lemma_placed_block,
    lemma_placed_step, lemma_reaches_settled, lemma_renderable, lemma_replace_ok,
    lemma_seed_one_ok, lemma_seed_one_placed, lemma_set_phi_ok, lemma_with_block_ok,
    lemma_with_block_placed, lemma_with_const_ok, lemma_with_next_ok, renamed, set_par, ParserView,
};
use crate::tokenizer::{Tokenizer, TokenizerView};
use crate::tokenizer_data::Token;

mod calls;
mod exprs;
mod program;
mod simple;
mod stmts;

verus! {

/// The parser and builder.
#[derive(Debug, PartialEq)]
pub struct Parser {
    tokenizer: Tokenizer,
    const_map: BTreeMap<isize, usize>,
    // func ident -> block id
    func_map: BTreeMap<usize, usize>,
    block_state: BlockState,
    blocks: BlockList,
    insts: InstList,
    curr_init: usize,
    warnings: Vec<usize>,
    unsupported: bool,
}

impl View for Parser {
    type V = ParserView;

    closed spec fn view(&self) -> ParserView {
        ParserView {
            tokens: self.tokenizer@,
            consts: self.const_map@,
            funcs: self.func_map@,
            curr: self.block_state.curr,
            frames: self.block_state.frames(),
            blocks: block_views(self.blocks.blocks@),
            insts: self.insts.instructions@,
            curr_init: self.curr_init,
            warnings: self.warnings@,
            unsupported: self.unsupported,
        }
    }
}

impl Parser {
    /// What the view does not show: the stores' counters agree with their
    /// lengths.
    pub closed spec fn counters_ok(&self) -> bool {
        &&& self.insts.inst_count == self.insts.instructions@.len()
        &&& self.blocks.block_count == self.blocks.blocks@.len()
    }

    /// The parser's invariant.
    pub open spec fn wf(&self) -> bool {
        self@.wf() && self.counters_ok()
    }

    /// A parser on the source text `input`: block 0, the constant pool, and
    /// block 1, where `main` starts, exist and are empty, and the first
    /// token is read.
    pub fn new(input: &[u8]) -> (r: Parser)
        ensures
            r.wf(),
            r@.placed(),
            r@.insts.len() == 0,
            r@.blocks.len() == 2,
            r@.blocks[0] == (BlockView {
                id: 0,
                dom: None,
                insts: Seq::empty(),
                next: (None, None),
                var_map: Map::empty(),
                op_map: OpMap { add: None, sub: None, mul: None, div: None },
                phis: Map::empty(),
            }),
            r@.blocks[1] == (BlockView {
                id: 1,
                dom: Some(0),
                insts: Seq::empty(),
                next: (None, None),
                var_map: Map::empty(),
                op_map: OpMap { add: None, sub: None, mul: None, div: None },
                phis: Map::empty(),
            }),
            r@.curr == 1,
            r@.curr_init == 1,
            r@.frames.len() == 0,
            r@.warnings.len() == 0,
            !r@.unsupported,
            r@.consts == Map::<isize, usize>::empty(),
            r@.funcs == Map::<usize, usize>::empty(),
            r@.tokens == (TokenizerView {
                curr: None,
                rest: input@,
                idents: crate::tokenizer::predefined_idents(),
            }).step(),
    {
        let mut block_list = BlockList::new();
        let init_block = block_list.add();
        let start_block = block_list.add_from(init_block);
        let block_state = BlockState::new(start_block);
        let r = Parser {
            tokenizer: Tokenizer::new(input),
            const_map: BTreeMap::new(),
            func_map: BTreeMap::new(),
            block_state,
            blocks: block_list,
            insts: InstList::new(),
            curr_init: start_block,
            warnings: Vec::new(),
            unsupported: false,
        };
        proof {
            reveal(ParserView::placed);
        }
        r
    }

    /// The instruction store.
    pub fn insts(&self) -> (r: &InstList)
        ensures
            r.instructions@ == self@.insts,
            self.wf() ==> r.wf(),
    {
        &self.insts
    }

    /// The block store.
    pub fn blocks(&self) -> (r: &BlockList)
        ensures
            block_views(r.blocks@) == self@.blocks,
            self.wf() ==> r.wf(),
    {
        proof {
            if self.wf() {
                assert forall|i: int| 0 <= i < self.blocks.blocks@.len() implies {
                    &&& (#[trigger] self.blocks.blocks@[i]).id == i
                    &&& (self.blocks.blocks@[i].dom matches Some(d) ==> d < i)
                } by {
                    assert(self@.blocks[i].id == i);
                }
            }
        }
        &self.blocks
    }

    /// The scanner, with the intern table that names the variables.
    pub fn tokenizer(&self) -> (r: &Tokenizer)
        ensures
            r@ == self@.tokens,
    {
        &self.tokenizer
    }

    /// The variables that were read before they had a value, in the order
    /// of the reads.
    pub fn warnings(&self) -> (r: &Vec<usize>)
        ensures
            r@ == self@.warnings,
    {
        &self.warnings
    }

    /// Whether a call or a declaration with more than three parameters was
    /// met; the parse fails there.
    pub fn unsupported(&self) -> (r: bool)
        ensures
            r == self@.unsupported,
    {
        self.unsupported
    }

    /// The token ahead.
    pub(crate) fn peek(&mut self) -> (r: Option<Token>)
        ensures
            *final(self) == *old(self),
            r == old(self)@.tokens.curr,
    {
        self.tokenizer.peek()
    }

    /// The current block.
    pub(crate) fn curr(&self) -> (r: usize)
        ensures
            r == self@.curr,
    {
        self.block_state.curr()
    }

    /// Whether a frame is open.
    pub(crate) fn has_frame(&self) -> (r: bool)
        ensures
            r == (self@.frames.len() > 0),
    {
        !self.block_state.is_empty()
    }

    /// The entry block of a declared function.
    pub(crate) fn func_entry(&self, id: usize) -> (r: Option<usize>)
        requires
            self.wf(),
        ensures
            r == (if self@.funcs.contains_key(id) {
                Some(self@.funcs[id])
            } else {
                None
            }),
            r matches Some(block) ==> block < self@.blocks.len(),
    {
        match self.func_map.get(&id) {
            Some(block) => {
                assert(self@.funcs.contains_key(id) && self@.funcs[id] == *block);
                Some(*block)
            },
            None => None,
        }
    }

    // Helper
    /// Reads the token ahead if it is `token`.
    pub(crate) fn consume(&mut self, token: Token) -> (r: Option<()>)
        requires
            old(self).wf(),
        ensures
            old(self)@.links_same(final(self)@),
            old(self)@.placed() ==> final(self)@.placed(),
            final(self).wf(),
            old(self)@.tokens.curr == Some(token) ==> r is Some && final(self)@ == old(self)@.advance() && final(self)@.tokens.measure() < old(self)@.tokens.measure(),
            old(self)@.tokens.curr != Some(token) ==> r is None && final(self)@ == old(self)@,
    {
        match self.tokenizer.peek() {
            Some(t) => {
                if t == token {
                    self.tokenizer.next();
                    proof {
                        if old(self)@.placed() {
                            lemma_placed_step(old(self)@, self@);
                        }
                    }
                    Some(())
                } else {
                    None
                }
            },
            None => None,
        }
    }

    /// Reads the token ahead.
    pub(crate) fn advance(&mut self)
        requires
            old(self).wf(),
        ensures
            old(self)@.links_same(final(self)@),
            old(self)@.placed() ==> final(self)@.placed(),
            final(self).wf(),
            final(self)@ == old(self)@.advance(),
            final(self)@.tokens.measure() <= old(self)@.tokens.measure(),
            old(self)@.tokens.curr is Some ==> final(self)@.tokens.measure() < old(self)@.tokens.measure(),
    {
        self.tokenizer.next();
        proof {
            if old(self)@.placed() {
                lemma_placed_step(old(self)@, self@);
            }
        }
    }

    /// Emits an instruction into a block.
    pub(crate) fn add_inst(&mut self, block: usize, itype: IType) -> (inst: usize)
        requires
            old(self).wf(),
            block < old(self)@.blocks.len(),
            old(self)@.admits(itype),
            !(itype is Const),
        ensures
            old(self)@.links_same(final(self)@),
            final(self)@.reaches(inst, block as int),
            old(self)@.placed() && old(self)@.operands_reach(itype, block as int) ==> final(self)@.placed(),
            final(self)@.tokens == old(self)@.tokens,
            old(self)@.grows_to(final(self)@),
            old(self)@.same_cursor(final(self)@),
            final(self).wf(),
            final(self)@ == old(self)@.emit(block, itype),
            inst == old(self)@.insts.len(),
    {
        self.emit(block, itype)
    }

    /// Emits an instruction into a block; the constant pool is the
    /// caller's business.
    pub(crate) fn emit(&mut self, block: usize, itype: IType) -> (inst: usize)
        requires
            old(self)@.ir_ok(),
            old(self)@.cursor_ok(),
            old(self).counters_ok(),
            block < old(self)@.blocks.len(),
            old(self)@.admits(itype),
        ensures
            old(self)@.links_same(final(self)@),
            final(self)@.reaches(inst, block as int),
            old(self)@.placed() && old(self)@.operands_reach(itype, block as int) ==> final(self)@.placed(),
            old(self)@.grows_to(final(self)@),
            old(self)@.same_cursor(final(self)@),
            final(self)@.ir_ok(),
            final(self)@.cursor_ok(),
            final(self).counters_ok(),
            final(self)@ == old(self)@.emit(block, itype),
            inst == old(self)@.insts.len(),
            !(itype is Const) && old(self)@.consts_ok() ==> final(self)@.consts_ok(),
    {
        let dom = self.blocks.get(block).get_dom_inst(itype);
        proof {
            assert(self@.blocks[block as int] == self.blocks.blocks@[block as int]@);
            assert(block_ok(self@.blocks[block as int], self@.insts, self@.tokens.idents.len() as int));
        }
        let inst = self.insts.add(itype, dom, Some(block));
        self.blocks.get_mut(block).add_inst(inst, itype);
        proof {
            let before = old(self)@;
            let after = self@;
            assert(after.blocks =~= before.blocks.update(
                block as int,
                before.blocks[block as int].emit(inst, itype),
            ));
            assert(after == before.emit(block, itype));
            lemma_emit_ok(before, block, itype);
            if before.placed() && before.operands_reach(itype, block as int) {
                lemma_emit_placed(before, block, itype);
            }
        }
        inst
    }

    /// The instruction that holds the constant `val`; the first request for
    /// a value emits it into block 0.
    pub fn get_const(&mut self, val: isize) -> (inst: usize)
        requires
            old(self).wf(),
        ensures
            old(self)@.links_same(final(self)@),
            old(self)@.placed() ==> final(self)@.placed(),
            forall|b: int| 0 <= b < final(self)@.blocks.len() ==> #[trigger] final(self)@.reaches(inst, b),
            old(self)@.grows_to(final(self)@),
            old(self)@.same_cursor(final(self)@),
            final(self).wf(),
            final(self)@ == old(self)@.with_const(val),
            inst == old(self)@.const_id(val),
            inst < final(self)@.insts.len(),
            final(self)@.insts[inst as int].itype == IType::Const(val),
            final(self)@.insts[inst as int].block == Some(0usize),
            forall|i: int|
                0 <= i < final(self)@.insts.len() && final(self)@.insts[i].itype == IType::Const(
                    val,
                ) ==> i == inst,
    {
        let found: Option<usize> = match self.const_map.get(&val) {
            Some(inst) => Some(*inst),
            None => None,
        };
        match found {
            Some(inst) => {
                proof {
                    lemma_const_reaches(self@, val);
                }
                inst
            },
            None => {
                let inst = self.emit(0, IType::Const(val));
                self.const_map.insert(val, inst);
                proof {
                    let before = old(self)@;
                    assert(self@ == before.with_const(val));
                    lemma_with_const_ok(before, val);
                    lemma_const_reaches(self@, val);
                    if before.placed() {
                        lemma_placed_step(before.emit(0, IType::Const(val)), self@);
                    }
                }
                inst
            },
        }
    }

    /// The slot that holds an operand: a literal comes from the constant
    /// pool, a variable is looked up in the current block.
    pub(crate) fn op_to_inst(&mut self, operand: Operand) -> (r: Slot)
        requires
            old(self)@.knows(operand),
            old(self).wf(),
        ensures
            old(self)@.links_same(final(self)@),
            old(self)@.placed() && old(self)@.holds(operand) ==> final(self)@.placed() && final(self)@.reaches(
                r.0,
                final(self)@.curr as int,
            ),
            r.0 < final(self)@.insts.len(),
            old(self)@.grows_to(final(self)@),
            old(self)@.same_cursor(final(self)@),
            final(self).wf(),
            final(self)@ == old(self)@.with_operand(operand),
            r == old(self)@.operand_slot(operand),
            final(self)@.tokens == old(self)@.tokens,
            final(self)@.curr == old(self)@.curr,
            final(self)@.frames == old(self)@.frames,
            final(self)@.blocks.len() == old(self)@.blocks.len(),
    {
        match operand {
            Operand::Const(val) => (self.get_const(val), None),
            Operand::Inst(inst) => (inst, None),
            Operand::Var(id) => (self.var_to_val(self.block_state.curr(), id), Some(id)),
        }
    }

    /// Computes `x op y`: two literals fold when the value can be computed
    /// and fits; otherwise an instruction is emitted into the current block.
    pub(crate) fn compute(&mut self, op: Token, x: Operand, y: Operand) -> (r: Operand)
        requires
            old(self)@.knows(x),
            old(self)@.knows(y),
            old(self).wf(),
            is_arith_op(op),
        ensures
            old(self)@.links_same(final(self)@),
            old(self)@.placed() && old(self)@.holds(x) && old(self)@.holds(y) ==> final(self)@.placed()
                && final(self)@.holds(r),
            final(self)@.knows(r),
            old(self)@.grows_to(final(self)@),
            old(self)@.same_cursor(final(self)@),
            final(self).wf(),
            final(self)@ == old(self)@.with_computed(op, x, y),
            r == old(self)@.computed(op, x, y),
            final(self)@.tokens == old(self)@.tokens,
            final(self)@.curr == old(self)@.curr,
            final(self)@.frames == old(self)@.frames,
            final(self)@.blocks.len() == old(self)@.blocks.len(),
    {
        match (x, y) {
            (Operand::Const(val1), Operand::Const(val2)) => {
                match fold_values(op, val1, val2) {
                    Some(val) => {
                        return Operand::Const(val);
                    },
                    None => {},
                }
            },
            _ => {},
        }
        let inst1 = self.op_to_inst(x);
        let ghost s1 = self@;
        proof {
            if old(self)@.placed() && old(self)@.holds(y) {
                lemma_holds_settled(old(self)@, s1, y);
            }
        }
        let inst2 = self.op_to_inst(y);
        proof {
            if old(self)@.placed() && old(self)@.holds(x) && old(self)@.holds(y) {
                lemma_reaches_settled(s1, self@, inst1.0, self@.curr as int);
            }
        }
        let itype = match op {
            Token::Plus => IType::Add { inst1, inst2 },
            Token::Minus => IType::Sub { inst1, inst2 },
            Token::Times => IType::Mul { inst1, inst2 },
            _ => IType::Div { inst1, inst2 },
        };
        let inst = self.add_inst(self.block_state.curr(), itype);
        Operand::Inst(inst)
    }

    /// Emits the instruction that passes the argument number `argnum` of a
    /// call.
    pub(crate) fn load_arg(&mut self, inst: Slot, argnum: usize) -> (r: usize)
        requires
            inst.0 < old(self)@.insts.len(),
            old(self).wf(),
            argnum < 3,
        ensures
            old(self)@.links_same(final(self)@),
            final(self)@.reaches(r, final(self)@.curr as int),
            old(self)@.placed() && old(self)@.reaches(inst.0, old(self)@.curr as int) ==> final(self)@.placed(),
            final(self)@.tokens == old(self)@.tokens,
            old(self)@.grows_to(final(self)@),
            old(self)@.same_cursor(final(self)@),
            final(self).wf(),
            final(self)@ == old(self)@.emit(old(self)@.curr, set_par(inst, argnum)),
            r == old(self)@.insts.len(),
    {
        let itype = if argnum == 0 {
            IType::SetPar1 { inst }
        } else if argnum == 1 {
            IType::SetPar2 { inst }
        } else {
            IType::SetPar3 { inst }
        };
        let inst = self.add_inst(self.block_state.curr(), itype);
        inst
    }

    /// Emits the instruction that receives the parameter number `argnum`
    /// of a function.
    pub(crate) fn declare_arg(&mut self, argnum: usize) -> (r: usize)
        requires
            old(self).wf(),
            argnum < 3,
        ensures
            old(self)@.links_same(final(self)@),
            old(self)@.placed() ==> final(self)@.placed(),
            final(self)@.reaches(r, final(self)@.curr as int),
            final(self)@.tokens == old(self)@.tokens,
            old(self)@.grows_to(final(self)@),
            old(self)@.same_cursor(final(self)@),
            final(self).wf(),
            final(self)@ == old(self)@.emit(old(self)@.curr, get_par(argnum)),
            r == old(self)@.insts.len(),
    {
        let itype = if argnum == 0 {
            IType::GetPar1
        } else if argnum == 1 {
            IType::GetPar2
        } else {
            IType::GetPar3
        };
        let inst = self.add_inst(self.block_state.curr(), itype);
        inst
    }

    /// Propagates a new definition `inst_id` of `var` to the joins of the
    /// open frames, innermost first.
    pub(crate) fn add_phi(&mut self, var: usize, inst_id: usize)
        requires
            inst_id < old(self)@.insts.len(),
            old(self).wf(),
        ensures
            old(self)@.links_same(final(self)@),
            old(self)@.placed() ==> final(self)@.placed(),
            old(self)@.grows_to(final(self)@),
            old(self)@.same_cursor(final(self)@),
            final(self).wf(),
            final(self)@ == old(self)@.propagate(old(self)@.frames.len() as int, var, inst_id),
            final(self)@.tokens == old(self)@.tokens,
            final(self)@.curr == old(self)@.curr,
            final(self)@.frames == old(self)@.frames,
            final(self)@.blocks == old(self)@.blocks,
            final(self)@.insts.len() == old(self)@.insts.len(),
    {
        let mut depth: usize = self.block_state.depth();
        let mut value: usize = inst_id;
        while depth > 0
            invariant
                self.wf(),
                depth <= self@.frames.len(),
                self@.propagate(depth as int, var, value) == old(self)@.propagate(
                    old(self)@.frames.len() as int,
                    var,
                    inst_id,
                ),
                self@.tokens == old(self)@.tokens,
                self@.curr == old(self)@.curr,
                self@.frames == old(self)@.frames,
                self@.blocks == old(self)@.blocks,
                self@.insts.len() == old(self)@.insts.len(),
                old(self)@.grows_to(self@),
                old(self)@.same_cursor(self@),
                old(self)@.links_same(self@),
                value < self@.insts.len(),
                old(self)@.placed() ==> self@.placed(),
            decreases depth,
        {
            let frame: BlockFrame = self.block_state.stack[depth - 1];
            proof {
                assert(frame_ok(self@.frames[depth - 1], self@.blocks.len() as int));
            }
            let join_block: usize = match frame.join {
                Some(join) => join,
                None => {
                    return ;
                },
            };
            proof {
                assert(self@.blocks[join_block as int] == self.blocks.blocks@[join_block as int]@);
                assert(block_ok(self@.blocks[join_block as int], self@.insts, self@.tokens.idents.len() as int));
            }
            let phi_id: usize = match self.blocks.get(join_block).get_phi(var) {
                Some(phi) => phi,
                None => {
                    return ;
                },
            };
            let ghost before = self@;
            match frame.state {
                Some(FrameState::While) => {
                    self.insts.get_mut(phi_id).set_follow(value);
                },
                _ => {
                    if frame.is_fall_through() {
                        self.insts.get_mut(phi_id).set_fall_through(value);
                    } else {
                        self.insts.get_mut(phi_id).set_follow(value);
                    }
                },
            }
            proof {
                assert(self@ == before.set_phi(phi_id, value, frame_arm(frame)));
                lemma_set_phi_ok(before, phi_id, value, frame_arm(frame));
                if before.placed() {
                    lemma_placed_step(before, self@);
                }
            }
            value = phi_id;
            depth = depth - 1;
        }
    }

    /// The instruction that holds the value of `var` in `block`. A variable
    /// without a value there is reported and bound to the constant 0 in the
    /// current block.
    pub(crate) fn var_to_val(&mut self, block: usize, var: usize) -> (r: usize)
        requires
            var < old(self)@.tokens.idents.len(),
            old(self).wf(),
            block < old(self)@.blocks.len(),
        ensures
            old(self)@.links_same(final(self)@),
            old(self)@.placed() ==> final(self)@.placed() && final(self)@.reaches(r, block as int),
            r < final(self)@.insts.len(),
            old(self)@.grows_to(final(self)@),
            old(self)@.same_cursor(final(self)@),
            final(self).wf(),
            final(self)@ == old(self)@.with_value(block, var),
            r == old(self)@.value_id(block, var),
            final(self)@.tokens == old(self)@.tokens,
            final(self)@.curr == old(self)@.curr,
            final(self)@.curr_init == old(self)@.curr_init,
            final(self)@.frames == old(self)@.frames,
            final(self)@.blocks.len() == old(self)@.blocks.len(),
            old(self)@.insts.len() <= final(self)@.insts.len(),
    {
        proof {
            assert(self@.blocks[block as int] == self.blocks.blocks@[block as int]@);
        }
        match self.blocks.get(block).get_var_inst(var) {
            Some(inst) => {
                proof {
                    if self@.placed() {
                        lemma_placed_block(self@, block as int);
                    }
                }
                inst
            },
            None => {
                self.warnings.push(var);
                let ghost warned = self@;
                let inst = self.get_const(0);
                let ghost mid = self@;
                let curr: usize = self.block_state.curr();
                self.blocks.get_mut(curr).assign_var(var, inst, None);
                proof {
                    assert(self@.blocks =~= mid.blocks.update(
                        curr as int,
                        BlockView {
                            var_map: mid.blocks[curr as int].var_map.insert(var, Some((inst, None))),
                            ..mid.blocks[curr as int]
                        },
                    ));
                    assert(self@ == mid.bind(curr, var, inst, None));
                    lemma_bind_ok(mid, curr, var, inst, None);
                    if old(self)@.placed() {
                        lemma_placed_step(old(self)@, warned);
                        lemma_bind_placed(mid, curr, var, inst, None);
                        assert(mid.reaches(inst, block as int));
                        lemma_reaches_settled(mid, self@, inst, block as int);
                    }
                }
                inst
            },
        }
    }

    /// Binds `var` in the current block.
    pub(crate) fn assign_var(&mut self, var: usize, inst: usize, dep_var: Option<usize>)
        requires
            var < old(self)@.tokens.idents.len(),
            inst < old(self)@.insts.len(),
            old(self).wf(),
        ensures
            old(self)@.links_same(final(self)@),
            old(self)@.placed() && old(self)@.reaches(inst, old(self)@.curr as int) ==> final(self)@.placed(),
            final(self)@.tokens == old(self)@.tokens,
            old(self)@.grows_to(final(self)@),
            old(self)@.same_cursor(final(self)@),
            final(self).wf(),
            final(self)@ == old(self)@.bind(old(self)@.curr, var, inst, dep_var),
    {
        let ghost before = self@;
        let curr: usize = self.block_state.curr();
        self.blocks.get_mut(curr).assign_var(var, inst, dep_var);
        proof {
            assert(self@.blocks =~= before.blocks.update(
                curr as int,
                BlockView {
                    var_map: before.blocks[curr as int].var_map.insert(var, Some((inst, dep_var))),
                    ..before.blocks[curr as int]
                },
            ));
            lemma_bind_ok(before, curr, var, inst, dep_var);
            if before.placed() && before.reaches(inst, curr as int) {
                lemma_bind_placed(before, curr, var, inst, dep_var);
            }
        }
    }

    /// Gives `join_block` a phi for every variable that the current entry
    /// block knows, in the order of the variables' ids. Both operands of
    /// each phi hold the value that the variable has in `join_block`.
    pub(crate) fn init_phi(&mut self, join_block: usize)
        requires
            old(self).wf(),
            join_block < old(self)@.blocks.len(),
        ensures
            old(self)@.links_same(final(self)@),
            old(self)@.placed() ==> final(self)@.placed(),
            old(self)@.grows_to(final(self)@),
            old(self)@.same_cursor(final(self)@),
            final(self).wf(),
            final(self)@ == old(self)@.seed_join(join_block),
            final(self)@.tokens == old(self)@.tokens,
            final(self)@.curr == old(self)@.curr,
            final(self)@.curr_init == old(self)@.curr_init,
            final(self)@.frames == old(self)@.frames,
            final(self)@.blocks.len() == old(self)@.blocks.len(),
            old(self)@.insts.len() <= final(self)@.insts.len(),
    {
        proof {
            assert(self@.blocks[self.curr_init as int] == self.blocks.blocks@[self.curr_init as int]@);
        }
        let snapshot = self.blocks.get(self.curr_init).var_map.clone();
        let keys = crate::maps::sorted_keys(&snapshot);
        let n: usize = keys.len();
        let mut k: usize = 0;
        assert(keys@.take(0) =~= Seq::<usize>::empty());
        while k < n
            invariant
                self.wf(),
                k <= n,
                n == keys@.len(),
                join_block < self@.blocks.len(),
                snapshot@ == old(self)@.blocks[old(self)@.curr_init as int].var_map,
                crate::maps::is_key_list(keys@, snapshot@),
                forall|v: usize| #[trigger] snapshot@.contains_key(v) ==> v < self@.tokens.idents.len(),
                self@ == old(self)@.seed_all(join_block, keys@.take(k as int), snapshot@),
                self@.tokens == old(self)@.tokens,
                self@.curr == old(self)@.curr,
                self@.curr_init == old(self)@.curr_init,
                self@.frames == old(self)@.frames,
                self@.blocks.len() == old(self)@.blocks.len(),
                old(self)@.insts.len() <= self@.insts.len(),
                old(self)@.grows_to(self@),
                old(self)@.links_same(self@),
                old(self)@.placed() ==> self@.placed(),
            decreases n - k,
        {
            let var: usize = keys[k];
            let dep_var: Option<usize> = match snapshot.get(&var) {
                Some(def) => match def {
                    Some(slot) => slot.1,
                    None => None,
                },
                None => None,
            };
            proof {
                assert(keys@.to_set().contains(var));
                assert(dep_var == def_tag(snapshot@[var]));
                assert(keys@.take(k + 1).drop_last() =~= keys@.take(k as int));
                assert(keys@.take(k + 1).last() == var);
            }
            let ghost before = self@;
            let val = self.var_to_val(join_block, var);
            let ghost mid = self@;
            let phi = self.insts.add(
                IType::Phi { inst1: (val, dep_var), inst2: (val, dep_var), var },
                None,
                Some(join_block),
            );
            let assignment = self.insts.add(
                IType::Assignment { var, dep_var },
                None,
                Some(join_block),
            );
            self.blocks.get_mut(join_block).add_phi(var, phi, dep_var, assignment);
            proof {
                assert(self@.blocks =~= mid.blocks.update(
                    join_block as int,
                    mid.blocks[join_block as int].seed_phi(var, phi, dep_var, assignment),
                ));
                assert(self@ == before.seed_one(join_block, var, dep_var));
                lemma_seed_one_ok(before, join_block, var, dep_var);
                if before.placed() {
                    lemma_seed_one_placed(before, join_block, var, dep_var);
                }
            }
            k = k + 1;
        }
        assert(keys@.take(n as int) =~= keys@);
    }

    /// Creates a block dominated by `parent`.
    pub(crate) fn new_block(&mut self, parent: usize) -> (r: usize)
        requires
            old(self).wf(),
            parent < old(self)@.blocks.len(),
        ensures
            old(self)@.links_same(final(self)@),
            old(self)@.placed() ==> final(self)@.placed(),
            old(self)@.grows_to(final(self)@),
            final(self)@.blocks.len() == old(self)@.blocks.len() + 1,
            final(self)@.curr == old(self)@.curr,
            final(self)@.frames == old(self)@.frames,
            final(self)@.tokens == old(self)@.tokens,
            final(self).wf(),
            final(self)@ == old(self)@.with_block(parent),
            r == old(self)@.blocks.len(),
    {
        proof {
            self.lemma_store_wf();
        }
        let r = self.blocks.add_from(parent);
        proof {
            let before = old(self)@;
            assert(self.blocks.blocks@[r as int]@.id == r);
            assert(self@.blocks =~= before.with_block(parent).blocks) by {
                assert(before.blocks[parent as int] == old(self).blocks.blocks@[parent as int]@);
            }
            lemma_with_block_ok(before, parent);
            if before.placed() {
                lemma_with_block_placed(before, parent);
            }
        }
        r
    }

    /// Sets the fall-through successor of a block.
    pub(crate) fn link_fall_through(&mut self, block: usize, to: usize)
        requires
            old(self).wf(),
            block < old(self)@.blocks.len(),
        ensures
            final(self)@.blocks.len() == old(self)@.blocks.len(),
            forall|b: int|
                0 <= b < old(self)@.blocks.len() && b != block ==> (#[trigger] final(self)@.blocks[b]).next
                    == old(self)@.blocks[b].next,
            final(self)@.blocks[block as int].next.0 == Some(to),
            final(self)@.blocks[block as int].next.1 == old(self)@.blocks[block as int].next.1,
            final(self)@.curr == old(self)@.curr,
            final(self)@.frames == old(self)@.frames,
            final(self)@.insts == old(self)@.insts,
            old(self)@.placed() ==> final(self)@.placed(),
            final(self)@.tokens == old(self)@.tokens,
            old(self)@.grows_to(final(self)@),
            old(self)@.same_cursor(final(self)@),
            final(self).wf(),
            final(self)@ == old(self)@.with_next(
                block,
                (Some(to), old(self)@.blocks[block as int].next.1),
            ),
    {
        let ghost before = self@;
        self.blocks.get_mut(block).set_fall_through(to);
        proof {
            assert(self@.blocks =~= before.with_next(
                block,
                (Some(to), before.blocks[block as int].next.1),
            ).blocks);
            lemma_with_next_ok(before, block, (Some(to), before.blocks[block as int].next.1));
            if before.placed() {
                lemma_placed_step(before, self@);
            }
        }
    }

    /// Sets the follow successor of a block, the one that its branch
    /// takes.
    pub(crate) fn link_follow(&mut self, block: usize, to: usize)
        requires
            old(self).wf(),
            block < old(self)@.blocks.len(),
        ensures
            final(self)@.blocks.len() == old(self)@.blocks.len(),
            forall|b: int|
                0 <= b < old(self)@.blocks.len() && b != block ==> (#[trigger] final(self)@.blocks[b]).next
                    == old(self)@.blocks[b].next,
            final(self)@.blocks[block as int].next.1 == Some(to),
            final(self)@.blocks[block as int].next.0 == old(self)@.blocks[block as int].next.0,
            final(self)@.curr == old(self)@.curr,
            final(self)@.frames == old(self)@.frames,
            final(self)@.insts == old(self)@.insts,
            old(self)@.placed() ==> final(self)@.placed(),
            final(self)@.tokens == old(self)@.tokens,
            old(self)@.grows_to(final(self)@),
            old(self)@.same_cursor(final(self)@),
            final(self).wf(),
            final(self)@ == old(self)@.with_next(
                block,
                (old(self)@.blocks[block as int].next.0, Some(to)),
            ),
    {
        let ghost before = self@;
        self.blocks.get_mut(block).set_follow(to);
        proof {
            assert(self@.blocks =~= before.with_next(
                block,
                (before.blocks[block as int].next.0, Some(to)),
            ).blocks);
            lemma_with_next_ok(before, block, (before.blocks[block as int].next.0, Some(to)));
            if before.placed() {
                lemma_placed_step(before, self@);
            }
        }
    }

    /// Moves the cursor to `block`.
    pub(crate) fn set_curr(&mut self, block: usize)
        requires
            old(self).wf(),
            block < old(self)@.blocks.len(),
        ensures
            old(self)@.links_same(final(self)@),
            old(self)@.placed() ==> final(self)@.placed(),
            final(self)@.frames == old(self)@.frames,
            final(self)@.blocks.len() == old(self)@.blocks.len(),
            final(self)@.tokens == old(self)@.tokens,
            old(self)@.grows_to(final(self)@),
            final(self)@.curr == block,
            final(self).wf(),
            final(self)@ == (ParserView { curr: block, ..old(self)@ }),
    {
        self.block_state.curr = block;
        proof {
            if old(self)@.placed() {
                lemma_placed_step(old(self)@, self@);
            }
        }
    }

    /// Moves the cursor to `block` and makes it the current entry block.
    pub(crate) fn set_entry(&mut self, block: usize)
        requires
            old(self).wf(),
            block < old(self)@.blocks.len(),
        ensures
            old(self)@.links_same(final(self)@),
            old(self)@.placed() ==> final(self)@.placed(),
            old(self)@.grows_to(final(self)@),
            final(self).wf(),
            final(self)@ == (ParserView { curr: block, curr_init: block, ..old(self)@ }),
    {
        self.block_state.curr = block;
        self.curr_init = block;
        proof {
            if old(self)@.placed() {
                lemma_placed_step(old(self)@, self@);
            }
        }
    }

    /// Opens a frame.
    pub(crate) fn push_frame(&mut self, frame: BlockFrame)
        requires
            old(self).wf(),
            frame_ok(frame, old(self)@.blocks.len() as int),
        ensures
            old(self)@.links_same(final(self)@),
            old(self)@.placed() ==> final(self)@.placed(),
            old(self)@.grows_to(final(self)@),
            final(self)@.frames.len() == old(self)@.frames.len() + 1,
            final(self)@.curr == old(self)@.curr,
            final(self)@.blocks.len() == old(self)@.blocks.len(),
            final(self)@.tokens == old(self)@.tokens,
            final(self).wf(),
            final(self)@ == (ParserView { frames: old(self)@.frames.push(frame), ..old(self)@ }),
    {
        self.block_state.push(frame);
        proof {
            if old(self)@.placed() {
                lemma_placed_step(old(self)@, self@);
            }
        }
    }

    /// Closes the innermost frame, if one is open.
    pub(crate) fn pop_frame(&mut self)
        requires
            old(self).wf(),
        ensures
            old(self)@.links_same(final(self)@),
            old(self)@.placed() ==> final(self)@.placed(),
            final(self)@.tokens == old(self)@.tokens,
            final(self)@.blocks.len() == old(self)@.blocks.len(),
            final(self)@.insts.len() == old(self)@.insts.len(),
            final(self)@.warnings == old(self)@.warnings,
            final(self)@.unsupported == old(self)@.unsupported,
            final(self)@.frames.len() + 1 >= old(self)@.frames.len(),
            final(self).wf(),
            final(self)@ == (ParserView {
                frames: if old(self)@.frames.len() > 0 {
                    old(self)@.frames.drop_last()
                } else {
                    old(self)@.frames
                },
                ..old(self)@
            }),
    {
        self.block_state.pop();
        proof {
            if old(self)@.placed() {
                lemma_placed_step(old(self)@, self@);
            }
        }
    }

    /// Records the follow block of the innermost frame.
    pub(crate) fn frame_follow(&mut self, follow: usize)
        requires
            old(self).wf(),
            old(self)@.frames.len() > 0,
        ensures
            old(self)@.links_same(final(self)@),
            old(self)@.placed() ==> final(self)@.placed(),
            final(self)@.tokens == old(self)@.tokens,
            old(self)@.grows_to(final(self)@),
            final(self)@.curr == old(self)@.curr,
            final(self)@.blocks.len() == old(self)@.blocks.len(),
            final(self)@.frames.len() == old(self)@.frames.len(),
            final(self).wf(),
            final(self)@ == (ParserView {
                frames: old(self)@.frames.drop_last().push(
                    BlockFrame { follow: Some(follow), ..old(self)@.frames.last() },
                ),
                ..old(self)@
            }),
    {
        proof {
            assert(frame_ok(self@.frames[self@.frames.len() - 1], self@.blocks.len() as int));
        }
        self.block_state.front_mut().follow(follow);
        proof {
            if old(self)@.placed() {
                lemma_placed_step(old(self)@, self@);
            }
        }
    }

    /// Records the fall-through block of the innermost frame.
    pub(crate) fn frame_fall_through(&mut self, fall_through: usize)
        requires
            old(self).wf(),
            old(self)@.frames.len() > 0,
        ensures
            old(self)@.links_same(final(self)@),
            old(self)@.placed() ==> final(self)@.placed(),
            final(self)@.tokens == old(self)@.tokens,
            old(self)@.grows_to(final(self)@),
            final(self)@.curr == old(self)@.curr,
            final(self)@.blocks.len() == old(self)@.blocks.len(),
            final(self)@.frames.len() == old(self)@.frames.len(),
            final(self).wf(),
            final(self)@ == (ParserView {
                frames: old(self)@.frames.drop_last().push(
                    BlockFrame { fall_through: Some(fall_through), ..old(self)@.frames.last() },
                ),
                ..old(self)@
            }),
    {
        proof {
            assert(frame_ok(self@.frames[self@.frames.len() - 1], self@.blocks.len() as int));
        }
        self.block_state.front_mut().fall_through(fall_through);
        proof {
            if old(self)@.placed() {
                lemma_placed_step(old(self)@, self@);
            }
        }
    }

    /// Records the arm of the innermost frame that is being emitted.
    pub(crate) fn frame_status(&mut self, status: FrameStatus)
        requires
            old(self).wf(),
            old(self)@.frames.len() > 0,
        ensures
            old(self)@.links_same(final(self)@),
            old(self)@.placed() ==> final(self)@.placed(),
            final(self)@.tokens == old(self)@.tokens,
            old(self)@.grows_to(final(self)@),
            final(self)@.curr == old(self)@.curr,
            final(self)@.blocks.len() == old(self)@.blocks.len(),
            final(self)@.frames.len() == old(self)@.frames.len(),
            final(self).wf(),
            final(self)@ == (ParserView {
                frames: old(self)@.frames.drop_last().push(
                    BlockFrame { status: Some(status), ..old(self)@.frames.last() },
                ),
                ..old(self)@
            }),
    {
        proof {
            assert(frame_ok(self@.frames[self@.frames.len() - 1], self@.blocks.len() as int));
        }
        self.block_state.front_mut().status(status);
        proof {
            if old(self)@.placed() {
                lemma_placed_step(old(self)@, self@);
            }
        }
    }

    /// The stores are well formed by themselves.
    proof fn lemma_store_wf(&self)
        requires
            self.wf(),
        ensures
            self.insts.wf(),
            self.blocks.wf(),
    {
        assert forall|i: int| 0 <= i < self.blocks.blocks@.len() implies {
            &&& (#[trigger] self.blocks.blocks@[i]).id == i
            &&& (self.blocks.blocks@[i].dom matches Some(d) ==> d < i)
        } by {
            assert(self@.blocks[i].id == i);
        }
    }

    /// Records that a call or a declaration has more than three parameters.
    pub(crate) fn mark_unsupported(&mut self)
        requires
            old(self).wf(),
        ensures
            old(self)@.links_same(final(self)@),
            final(self).wf(),
            final(self)@ == (ParserView { unsupported: true, ..old(self)@ }),
            old(self)@.grows_to(final(self)@),
            old(self)@.same_cursor(final(self)@),
            old(self)@.placed() ==> final(self)@.placed(),
    {
        self.unsupported = true;
        proof {
            if old(self)@.placed() {
                lemma_placed_step(old(self)@, self@);
            }
        }
    }

    /// Makes `block` the entry block of the function `id`.
    pub(crate) fn register(&mut self, id: usize, block: usize)
        requires
            old(self).wf(),
            block < old(self)@.blocks.len(),
        ensures
            old(self)@.links_same(final(self)@),
            final(self).wf(),
            final(self)@ == (ParserView { funcs: old(self)@.funcs.insert(id, block), ..old(self)@ }),
            old(self)@.grows_to(final(self)@),
            old(self)@.same_cursor(final(self)@),
            old(self)@.placed() ==> final(self)@.placed(),
    {
        self.func_map.insert(id, block);
        proof {
            if old(self)@.placed() {
                lemma_placed_step(old(self)@, self@);
            }
        }
    }

    /// Declares `var`, without a value, in the current block.
    pub(crate) fn declare_var(&mut self, var: usize)
        requires
            var < old(self)@.tokens.idents.len(),
            old(self).wf(),
        ensures
            old(self)@.links_same(final(self)@),
            old(self)@.placed() ==> final(self)@.placed(),
            final(self)@.tokens == old(self)@.tokens,
            old(self)@.grows_to(final(self)@),
            old(self)@.same_cursor(final(self)@),
            final(self).wf(),
            final(self)@ == old(self)@.declare(var),
    {
        let ghost before = self@;
        let curr: usize = self.block_state.curr();
        self.blocks.get_mut(curr).declare_var(var);
        proof {
            assert(self@.blocks =~= before.declare(var).blocks);
            lemma_declare_ok(before, var);
            if before.placed() {
                lemma_placed_step(before, self@);
            }
        }
    }

    /// Whether the last instruction of the current block is a return.
    pub(crate) fn ends_in_return(&self) -> (r: bool)
        requires
            self.wf(),
        ensures
            r == (self@.blocks[self@.curr as int].insts.len() > 0 && self@.insts[self@.blocks[self@.curr as int].insts.last() as int].itype is Ret),
    {
        proof {
            assert(self@.blocks[self@.curr as int] == self.blocks.blocks@[self@.curr as int]@);
            assert(block_ok(self@.blocks[self@.curr as int], self@.insts, self@.tokens.idents.len() as int));
        }
        match self.blocks.get(self.block_state.curr()).get_last_inst() {
            Some(inst) => {
                match self.insts.get(inst).itype() {
                    IType::Ret { .. } => true,
                    _ => false,
                }
            },
            None => false,
        }
    }

    /// Runs the passes on the built program: common subexpressions,
    /// trivial phis, common subexpressions again, and the filling of empty
    /// blocks. Afterwards every block emits at least one instruction, and
    /// the program can be written out.
    pub fn optimize(&mut self)
        requires
            old(self).wf(),
        ensures
            final(self).wf(),
            final(self)@ == old(self)@.finish(),
            forall|b: int| 0 <= b < final(self)@.blocks.len() ==> final(self)@.emits(b),
            final(self)@.renderable(),
            final(self)@.tokens == old(self)@.tokens,
            final(self)@.warnings == old(self)@.warnings,
            final(self)@.unsupported == old(self)@.unsupported,
            old(self)@.insts.len() <= final(self)@.insts.len(),
            old(self)@.blocks.len() == final(self)@.blocks.len(),
    {
        self.common_subexpression_elimination();
        self.remove_phis();
        self.common_subexpression_elimination();
        self.fill_empty();
        proof {
            lemma_renderable(self@);
        }
    }

    /// One pass over the instructions, from the last one down: an
    /// instruction that still belongs to a block and equals an instruction
    /// on its chain of dominating links is replaced by it everywhere and
    /// detached from its block.
    pub fn common_subexpression_elimination(&mut self)
        requires
            old(self).wf(),
        ensures
            final(self).wf(),
            final(self)@ == old(self)@.cse_pass(old(self)@.insts.len() as int),
            final(self)@.insts.len() == old(self)@.insts.len(),
            final(self)@.blocks.len() == old(self)@.blocks.len(),
            final(self)@.tokens == old(self)@.tokens,
            final(self)@.warnings == old(self)@.warnings,
            final(self)@.unsupported == old(self)@.unsupported,
    {
        let mut inst_id: usize = self.insts.instructions.len();
        while inst_id > 0
            invariant
                self.wf(),
                inst_id <= self@.insts.len(),
                self@.cse_pass(inst_id as int) == old(self)@.cse_pass(old(self)@.insts.len() as int),
                self@.insts.len() == old(self)@.insts.len(),
                self@.blocks.len() == old(self)@.blocks.len(),
                self@.tokens == old(self)@.tokens,
                self@.warnings == old(self)@.warnings,
                self@.unsupported == old(self)@.unsupported,
            decreases inst_id,
        {
            inst_id = inst_id - 1;
            let ghost before = self@;
            proof {
                self.lemma_store_wf();
            }
            let itype = self.insts.get(inst_id).itype();
            if let Some(dom_inst) = self.insts.get(inst_id).dom() {
                if let Some(block) = self.insts.get(inst_id).block() {
                    if let Some(cse_inst) = self.insts.get_matching_inst(itype, dom_inst) {
                        self.replace_inst(inst_id, cse_inst);
                        self.insts.remove_block(inst_id);
                        proof {
                            assert(self@ == before.replace(inst_id as int, cse_inst).detach(
                                inst_id as int,
                            ));
                            lemma_detach_ok(before.replace(inst_id as int, cse_inst), inst_id as int);
                        }
                    }
                }
            }
            assert(self@ == before.cse_step(inst_id as int));
        }
    }

    /// Rewrites every operand `inst_id` to `to` and takes `inst_id` out of
    /// its block's list, when the block still lists it.
    pub(crate) fn replace_inst(&mut self, inst_id: usize, to: usize)
        requires
            to < old(self)@.insts.len(),
            old(self).wf(),
            inst_id < old(self)@.insts.len(),
        ensures
            forall|b: int|
                0 <= b < final(self)@.blocks.len() ==> !(#[trigger] final(self)@.blocks[b]).insts.contains(
                    inst_id,
                ),
            final(self).wf(),
            final(self)@ == old(self)@.replace(inst_id as int, to),
            final(self)@.insts.len() == old(self)@.insts.len(),
    {
        let ghost before = self@;
        let block = self.insts.get(inst_id).block();
        self.insts.rename_inst(inst_id, to);
        proof {
            assert(self@.insts =~= renamed(before.insts, inst_id, to));
        }
        match block {
            Some(block) => {
                proof {
                    assert(self@.blocks[block as int] == self.blocks.blocks@[block as int]@);
                }
                if self.blocks.get(block).lists(inst_id) {
                    self.blocks.get_mut(block).delete_inst(inst_id);
                } else {
                    proof {
                        crate::block::lemma_remove_first_absent(
                            before.blocks[block as int].insts,
                            inst_id,
                        );
                    }
                }
                proof {
                    assert(self@.blocks =~= before.replace(inst_id as int, to).blocks);
                }
            },
            None => {},
        }
        proof {
            lemma_replace_ok(before, inst_id as int, to);
        }
    }

    /// One pass over the instructions, from the last one down: a phi whose
    /// two operands are the same instruction is replaced by it everywhere
    /// and taken out of its block.
    pub fn remove_phis(&mut self)
        requires
            old(self).wf(),
        ensures
            final(self).wf(),
            final(self)@ == old(self)@.phi_pass(old(self)@.insts.len() as int),
            final(self)@.insts.len() == old(self)@.insts.len(),
            final(self)@.blocks.len() == old(self)@.blocks.len(),
            final(self)@.tokens == old(self)@.tokens,
            final(self)@.warnings == old(self)@.warnings,
            final(self)@.unsupported == old(self)@.unsupported,
    {
        let mut inst_id: usize = self.insts.instructions.len();
        while inst_id > 0
            invariant
                self.wf(),
                inst_id <= self@.insts.len(),
                self@.phi_pass(inst_id as int) == old(self)@.phi_pass(old(self)@.insts.len() as int),
                self@.insts.len() == old(self)@.insts.len(),
                self@.blocks.len() == old(self)@.blocks.len(),
                self@.tokens == old(self)@.tokens,
                self@.warnings == old(self)@.warnings,
                self@.unsupported == old(self)@.unsupported,
            decreases inst_id,
        {
            inst_id = inst_id - 1;
            let ghost before = self@;
            let itype = self.insts.get(inst_id).itype();
            if let IType::Phi { inst1, inst2, .. } = itype {
                if inst1.0 == inst2.0 {
                    self.replace_inst(inst_id, inst1.0);
                }
            }
            assert(self@ == before.phi_step(inst_id as int));
        }
    }

    /// Gives every block that emits no instruction a placeholder.
    pub fn fill_empty(&mut self)
        requires
            old(self).wf(),
        ensures
            final(self).wf(),
            final(self)@ == old(self)@.fill_pass(old(self)@.blocks.len() as int),
            old(self)@.insts.len() <= final(self)@.insts.len(),
            forall|b: int| 0 <= b < final(self)@.blocks.len() ==> final(self)@.emits(b),
            final(self)@.blocks.len() == old(self)@.blocks.len(),
            final(self)@.tokens == old(self)@.tokens,
            final(self)@.warnings == old(self)@.warnings,
            final(self)@.unsupported == old(self)@.unsupported,
    {
        let n: usize = self.blocks.blocks.len();
        let mut block_id: usize = 0;
        while block_id < n
            invariant
                self.wf(),
                block_id <= n,
                n == self@.blocks.len(),
                n == old(self)@.blocks.len(),
                self@ == old(self)@.fill_pass(block_id as int),
                old(self)@.insts.len() <= self@.insts.len(),
                forall|b: int| 0 <= b < block_id ==> self@.emits(b),
                self@.tokens == old(self)@.tokens,
                self@.warnings == old(self)@.warnings,
                self@.unsupported == old(self)@.unsupported,
            decreases n - block_id,
        {
            let ghost before = self@;
            proof {
                assert(self@.blocks[block_id as int] == self.blocks.blocks@[block_id as int]@);
                assert(block_ok(self@.blocks[block_id as int], self@.insts, self@.tokens.idents.len() as int));
            }
            if let None = self.blocks.get(block_id).get_first_inst(&self.insts) {
                self.add_inst(block_id, IType::Empty);
                proof {
                    lemma_fill_emits(before, block_id as int);
                }
            }
            block_id = block_id + 1;
        }
    }

    /// The graph of the program in DOT.
    pub fn generate_graph(&self) -> (r: String)
        requires
            self.wf(),
            self@.renderable(),
        ensures
            r@ == self@.graph_text(),
    {
        let mut data = String::new();
        data.append("digraph G {\n");
        let ghost head = data@;
        let n: usize = self.blocks.blocks.len();
        let mut k: usize = 0;
        while k < n
            invariant
                k <= n,
                n == self@.blocks.len(),
                self.wf(),
                self@.renderable(),
                data@ == head + self@.blocks_text(k as int),
            decreases n - k,
        {
            proof {
                assert(self@.blocks[k as int] == self.blocks.blocks@[k as int]@);
                assert(self@.blocks[k as int].insts.len() > 0);
            }
            let block = self.blocks.get(k);
            let text = block.generate_graph(&self.insts, &self.blocks, &self.tokenizer);
            data.append(text.as_str());
            data.append("\n");
            k = k + 1;
            assert(data@ =~= head + self@.blocks_text(k as int));
        }
        data.append("\tbb0:s -> bb1:n\n");
        let ghost body = data@;
        let keys = crate::maps::sorted_keys(&self.func_map);
        let m: usize = keys.len();
        let mut j: usize = 0;
        assert(keys@.take(0) =~= Seq::<usize>::empty());
        while j < m
            invariant
                j <= m,
                m == keys@.len(),
                crate::maps::is_key_list(keys@, self@.funcs),
                data@ == body + self@.entries_text(keys@.take(j as int)),
            decreases m - j,
        {
            let key: usize = keys[j];
            proof {
                assert(keys@.to_set().contains(key));
                assert(keys@.take(j + 1).drop_last() =~= keys@.take(j as int));
                assert(keys@.take(j + 1).last() == key);
            }
            let block: usize = match self.func_map.get(&key) {
                Some(block) => *block,
                None => 0,
            };
            data.append("\tbb0:s -> bb");
            crate::render::push_decimal(&mut data, block);
            data.append(":n\n");
            j = j + 1;
            assert(data@ =~= body + self@.entries_text(keys@.take(j as int)));
        }
        assert(keys@.take(m as int) =~= keys@);
        data.append("}");
        assert(data@ =~= self@.graph_text());
        data
    }

    /// The listing of the program: one instruction per line, block after
    /// block in the order of the blocks' ids, with a blank line between
    /// two blocks.
    pub fn generate_instructions(&self) -> (r: String)
        requires
            self.wf(),
            self@.renderable(),
        ensures
            r@ == self@.listing_text(),
    {
        let mut data = String::new();
        let n: usize = self.blocks.blocks.len();
        let mut k: usize = 0;
        while k < n
            invariant
                k <= n,
                n == self@.blocks.len(),
                self.wf(),
                self@.renderable(),
                self@.listings(k as int).len() == k,
                data@ == crate::render::join(self@.listings(k as int), "\n\n"@),
            decreases n - k,
        {
            proof {
                assert(self@.blocks[k as int] == self.blocks.blocks@[k as int]@);
                assert(self@.blocks[k as int].insts.len() > 0);
            }
            let block = self.blocks.get(k);
            let text = self.insts.generate_instructions(
                block.insts.as_slice(),
                &self.insts,
                &self.blocks,
                &self.tokenizer,
            );
            if k > 0 {
                data.append("\n\n");
            }
            data.append(text.as_str());
            proof {
                let parts = self@.listings(k as int);
                assert(parts.push(text@).drop_last() =~= parts);
                assert(data@ =~= crate::render::join(parts.push(text@), "\n\n"@));
            }
            k = k + 1;
        }
        data
    }
}

/// Folds `a op b` with checked arithmetic.
fn fold_values(op: Token, a: isize, b: isize) -> (r: Option<isize>)
    ensures
        r == fold(op, a, b),
{
    match op {
        Token::Plus => a.checked_add(b),
        Token::Minus => a.checked_sub(b),
        Token::Times => a.checked_mul(b),
        Token::Divide => a.checked_div(b),
        _ => None,
    }
}

} // verus!
