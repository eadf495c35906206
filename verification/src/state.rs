//! The builder's state as mathematical values: its invariants, the steps
//! that the builder takes, and why each step keeps the invariants.
use vstd::prelude::*;
use crate::block::{dominates, BlockView, OpMap};
use crate::frame::{BlockFrame, FrameState, FrameStatus};
use crate::inst::Inst;
use crate::itype::{IType, Operand, Slot};
use crate::tokenizer::TokenizerView;
use crate::tokenizer_data::{RelOp, Token};

verus! {


/// What a block asks of the instruction store and of the intern table,
/// which holds `names` names: the instructions it lists exist, belong to
/// it and are listed once; its variables have names and their definitions
/// exist; its phis are phi instructions; and the latest instruction of
/// each operation class exists.
pub open spec fn block_ok(block: BlockView, insts: Seq<Inst>, names: int) -> bool {
    &&& forall|k: int|
        0 <= k < block.insts.len() ==> #[trigger] block.insts[k] < insts.len()
            && insts[block.insts[k] as int].block == Some(block.id)
    &&& block.insts.no_duplicates()
    &&& forall|v: usize| #[trigger]
        block.var_map.contains_key(v) ==> v < names && (block.var_map[v] matches Some(slot)
            ==> slot.0 < insts.len())
    &&& forall|v: usize| #[trigger]
        block.phis.contains_key(v) ==> block.phis[v] < insts.len()
            && insts[block.phis[v] as int].itype is Phi
    &&& (block.op_map.add matches Some(i) ==> i < insts.len())
    &&& (block.op_map.sub matches Some(i) ==> i < insts.len())
    &&& (block.op_map.mul matches Some(i) ==> i < insts.len())
    &&& (block.op_map.div matches Some(i) ==> i < insts.len())
}

/// A frame that the builder can work with: it knows its kind, its arm and
/// its join block.
pub open spec fn frame_ok(frame: BlockFrame, n_blocks: int) -> bool {
    &&& frame.state is Some
    &&& frame.status is Some
    &&& (frame.join matches Some(j) && j < n_blocks)
}

/// The folded value of `a op b`, when `op` is an arithmetic operator and
/// the value can be computed and fits the literal type. Division rounds
/// toward zero.
pub open spec fn fold(op: Token, a: isize, b: isize) -> Option<isize> {
    let v: Option<int> = match op {
        Token::Plus => Some(a + b),
        Token::Minus => Some(a - b),
        Token::Times => Some(a * b),
        Token::Divide => if b == 0 {
            None
        } else {
            Some(trunc_div(a as int, b as int))
        },
        _ => None,
    };
    match v {
        Some(x) => if isize::MIN <= x <= isize::MAX {
            Some(x as isize)
        } else {
            None
        },
        None => None,
    }
}

/// The quotient of `a` by `b` rounded toward zero, for `b != 0`.
pub open spec fn trunc_div(a: int, b: int) -> int {
    if a >= 0 {
        if b > 0 {
            a / b
        } else {
            -(a / (-b))
        }
    } else {
        if b > 0 {
            -((-a) / b)
        } else {
            (-a) / (-b)
        }
    }
}

/// The arithmetic instruction of an operator token on two operands.
pub open spec fn arith(op: Token, inst1: Slot, inst2: Slot) -> IType {
    match op {
        Token::Plus => IType::Add { inst1, inst2 },
        Token::Minus => IType::Sub { inst1, inst2 },
        Token::Times => IType::Mul { inst1, inst2 },
        _ => IType::Div { inst1, inst2 },
    }
}

/// Whether the token is one of `+ - * /`.
pub open spec fn is_arith_op(op: Token) -> bool {
    op == Token::Plus || op == Token::Minus || op == Token::Times || op == Token::Divide
}

/// The builder's state as mathematical values.
pub ghost struct ParserView {
    /// The scanner.
    pub tokens: TokenizerView,
    /// The constant pool: for each literal value the instruction that
    /// holds it.
    pub consts: Map<isize, usize>,
    /// The entry block of each declared function, by the function's
    /// identifier.
    pub funcs: Map<usize, usize>,
    /// The block that instructions are emitted to.
    pub curr: usize,
    /// The open frames, outermost first.
    pub frames: Seq<BlockFrame>,
    pub blocks: Seq<BlockView>,
    pub insts: Seq<Inst>,
    /// The entry block of the function that is being parsed.
    pub curr_init: usize,
    /// The variables that were read before they had a value, in the order
    /// of the reads.
    pub warnings: Seq<usize>,
    /// Whether a call or a declaration with more than three parameters was
    /// met.
    pub unsupported: bool,
}

impl ParserView {
    /// The invariant of the instruction and block stores.
    ///
    /// Ids are positions. Every dominating link of an instruction, and
    /// every immediate dominator of a block, points strictly backward, so
    /// the blocks form a tree under block 0. Only arithmetic instructions
    /// have a dominating link, and only they are ever detached from their
    /// block. Owning blocks, jump targets and operands exist, every emitted
    /// conditional branch has its target, the variable of every phi has a
    /// name, and every block is consistent with the instruction store.
    pub open spec fn ir_ok(self) -> bool {
        &&& forall|i: int|
            0 <= i < self.insts.len() ==> {
                &&& (#[trigger] self.insts[i]).id == i
                &&& (self.insts[i].dom matches Some(d) ==> d < i)
                &&& (self.insts[i].dom is Some ==> self.insts[i].itype.op_class() is Some)
                &&& (self.insts[i].block is None ==> self.insts[i].itype.op_class() is Some)
                &&& (self.insts[i].block matches Some(b) ==> b < self.blocks.len())
                &&& (self.insts[i].itype.target() matches Some(b) ==> b < self.blocks.len())
                &&& (self.insts[i].itype.is_cond_branch() ==> self.insts[i].itype.target() is Some)
                &&& self.insts[i].itype.operands_below(self.insts.len() as int)
                &&& (self.insts[i].itype matches IType::Phi { var, .. } ==> var
                    < self.tokens.idents.len())
            }
        &&& forall|b: int|
            0 <= b < self.blocks.len() ==> {
                &&& (#[trigger] self.blocks[b]).id == b
                &&& (b == 0 ==> self.blocks[b].dom is None)
                &&& (b > 0 ==> (self.blocks[b].dom matches Some(d) && d < b))
                &&& block_ok(self.blocks[b], self.insts, self.tokens.idents.len() as int)
            }
    }

    /// The invariant of the cursor: the two reserved blocks exist, the
    /// current block and the current entry block exist, every open frame is
    /// usable, every declared function has an entry block, and every
    /// reported variable has a name.
    pub open spec fn cursor_ok(self) -> bool {
        &&& self.blocks.len() >= 2
        &&& self.curr < self.blocks.len()
        &&& self.curr_init < self.blocks.len()
        &&& forall|k: int|
            0 <= k < self.frames.len() ==> frame_ok(
                #[trigger] self.frames[k],
                self.blocks.len() as int,
            )
        &&& forall|f: usize| #[trigger]
            self.funcs.contains_key(f) ==> self.funcs[f] < self.blocks.len()
        &&& forall|k: int|
            0 <= k < self.warnings.len() ==> #[trigger] self.warnings[k] < self.tokens.idents.len()
        &&& self.tokens.wf()
    }

    /// The invariant of the constant pool: the pool maps each value to a
    /// constant instruction of that value in block 0, and every constant
    /// instruction is the pool's entry for its value. So no value has two
    /// constant instructions.
    pub open spec fn consts_ok(self) -> bool {
        &&& forall|v: isize| #[trigger]
            self.consts.contains_key(v) ==> {
                &&& self.consts[v] < self.insts.len()
                &&& self.insts[self.consts[v] as int].itype == IType::Const(v)
                &&& self.insts[self.consts[v] as int].block == Some(0usize)
            }
        &&& forall|i: int|
            0 <= i < self.insts.len() ==> ((#[trigger] self.insts[i]).itype matches IType::Const(v)
                ==> self.consts.contains_key(v) && self.consts[v] == i)
    }

    /// The builder's invariant.
    pub open spec fn wf(self) -> bool {
        &&& self.ir_ok()
        &&& self.cursor_ok()
        &&& self.consts_ok()
    }

    /// The state once the scanner moved one token on.
    pub open spec fn advance(self) -> ParserView {
        ParserView { tokens: self.tokens.step(), ..self }
    }

    /// The state once an instruction of kind `itype` was emitted into
    /// `block`: the instruction gets the next id, links to the latest
    /// instruction of its operation class that the block knows, and stands
    /// last in the block.
    pub open spec fn emit(self, block: usize, itype: IType) -> ParserView {
        let id = self.insts.len() as usize;
        ParserView {
            insts: self.insts.push(
                Inst {
                    id,
                    itype,
                    dom: self.blocks[block as int].op_map.lookup(itype),
                    block: Some(block),
                },
            ),
            blocks: self.blocks.update(block as int, self.blocks[block as int].emit(id, itype)),
            ..self
        }
    }

    /// The state once the constant `val` was asked for: a value that the
    /// pool does not hold gets a constant instruction in block 0.
    pub open spec fn with_const(self, val: isize) -> ParserView {
        if self.consts.contains_key(val) {
            self
        } else {
            ParserView {
                consts: self.consts.insert(val, self.insts.len() as usize),
                ..self.emit(0, IType::Const(val))
            }
        }
    }

    /// The id of the constant `val` once it was asked for.
    pub open spec fn const_id(self, val: isize) -> usize {
        if self.consts.contains_key(val) {
            self.consts[val]
        } else {
            self.insts.len() as usize
        }
    }

    /// The state once `var` was bound in `block`.
    pub open spec fn bind(self, block: usize, var: usize, inst: usize, dep_var: Option<usize>)
        -> ParserView {
        ParserView {
            blocks: self.blocks.update(
                block as int,
                BlockView {
                    var_map: self.blocks[block as int].var_map.insert(var, Some((inst, dep_var))),
                    ..self.blocks[block as int]
                },
            ),
            ..self
        }
    }

    /// The state once the value of `var` was looked up in `block`: a
    /// variable without a value there is reported, and bound to the
    /// constant 0 in the current block.
    pub open spec fn with_value(self, block: usize, var: usize) -> ParserView {
        match self.blocks[block as int].var_inst(var) {
            Some(_) => self,
            None => {
                let warned = ParserView { warnings: self.warnings.push(var), ..self };
                warned.with_const(0).bind(self.curr, var, warned.const_id(0), None)
            },
        }
    }

    /// The instruction that holds the value of `var` once it was looked up
    /// in `block`.
    pub open spec fn value_id(self, block: usize, var: usize) -> usize {
        match self.blocks[block as int].var_inst(var) {
            Some(inst) => inst,
            None => self.const_id(0),
        }
    }

    /// The state once `operand` was materialised in the current block.
    pub open spec fn with_operand(self, operand: Operand) -> ParserView {
        match operand {
            Operand::Const(val) => self.with_const(val),
            Operand::Inst(_) => self,
            Operand::Var(id) => self.with_value(self.curr, id),
        }
    }

    /// The slot that holds `operand` once it was materialised.
    pub open spec fn operand_slot(self, operand: Operand) -> Slot {
        match operand {
            Operand::Const(val) => (self.const_id(val), None),
            Operand::Inst(inst) => (inst, None),
            Operand::Var(id) => (self.value_id(self.curr, id), Some(id)),
        }
    }

    /// The state once `x op y` was computed: nothing changes when both are
    /// literals and the value folds; otherwise both operands are
    /// materialised, `x` first, and the instruction is emitted into the
    /// current block.
    pub open spec fn with_computed(self, op: Token, x: Operand, y: Operand) -> ParserView {
        match (x, y) {
            (Operand::Const(a), Operand::Const(b)) if fold(op, a, b) is Some => self,
            _ => {
                let s1 = self.with_operand(x);
                let s2 = s1.with_operand(y);
                s2.emit(s2.curr, arith(op, self.operand_slot(x), s1.operand_slot(y)))
            },
        }
    }

    /// The operand that stands for `x op y` once it was computed.
    pub open spec fn computed(self, op: Token, x: Operand, y: Operand) -> Operand {
        match (x, y) {
            (Operand::Const(a), Operand::Const(b)) if fold(op, a, b) is Some => Operand::Const(
                fold(op, a, b).unwrap(),
            ),
            _ => Operand::Inst(self.with_operand(x).with_operand(y).insts.len() as usize),
        }
    }
}

impl ParserView {
    /// The state once the operand of `phi` for the arm `arm` was set to
    /// `inst`.
    pub open spec fn set_phi(self, phi: usize, inst: usize, arm: FrameStatus) -> ParserView {
        ParserView {
            insts: self.insts.update(
                phi as int,
                self.insts[phi as int].with_itype(
                    self.insts[phi as int].itype.spec_update_phi(inst, arm),
                ),
            ),
            ..self
        }
    }

    /// The state once a new definition `inst` of `var` was propagated to
    /// the joins of the innermost `depth` open frames.
    ///
    /// The join of the innermost frame has the operand of its phi for `var`
    /// set to `inst`: the second operand in a loop or in the follow arm of
    /// an `if`, the first in the fall-through arm. The next frame outward
    /// then gets the id of that phi, and so on. A join without a phi for
    /// `var` ends the propagation.
    pub open spec fn propagate(self, depth: int, var: usize, inst: usize) -> ParserView
        decreases depth,
    {
        if depth <= 0 || depth > self.frames.len() {
            self
        } else {
            let frame = self.frames[depth - 1];
            match frame.join {
                Some(join) => match self.blocks[join as int].phi(var) {
                    Some(phi) => self.set_phi(phi, inst, frame_arm(frame)).propagate(
                        depth - 1,
                        var,
                        phi,
                    ),
                    None => self,
                },
                None => self,
            }
        }
    }

    /// The state once `join` got a phi for `var`: the value of `var` in
    /// `join` is looked up, a phi with both operands set to it and its
    /// assignment marker are created, and they are put in front of the
    /// block, which from now on defines `var` by the phi.
    pub open spec fn seed_one(self, join: usize, var: usize, dep_var: Option<usize>) -> ParserView {
        let s1 = self.with_value(join, var);
        let val = self.value_id(join, var);
        let phi = s1.insts.len() as usize;
        let marker = (s1.insts.len() + 1) as usize;
        ParserView {
            insts: s1.insts.push(
                Inst {
                    id: phi,
                    itype: IType::Phi { inst1: (val, dep_var), inst2: (val, dep_var), var },
                    dom: None,
                    block: Some(join),
                },
            ).push(
                Inst {
                    id: marker,
                    itype: IType::Assignment { var, dep_var },
                    dom: None,
                    block: Some(join),
                },
            ),
            blocks: s1.blocks.update(
                join as int,
                s1.blocks[join as int].seed_phi(var, phi, dep_var, marker),
            ),
            ..s1
        }
    }

    /// The state once `join` got a phi for every variable that the current
    /// entry block knows, in the order of the variables' ids.
    pub open spec fn seed_join(self, join: usize) -> ParserView {
        let snapshot = self.blocks[self.curr_init as int].var_map;
        self.seed_all(join, crate::maps::key_list(snapshot), snapshot)
    }

    /// The state once `join` got a phi for each variable of `keys`, in
    /// order, with the variable tags that `snapshot` holds.
    pub open spec fn seed_all(
        self,
        join: usize,
        keys: Seq<usize>,
        snapshot: Map<usize, Option<Slot>>,
    ) -> ParserView
        decreases keys.len(),
    {
        if keys.len() == 0 {
            self
        } else {
            self.seed_all(join, keys.drop_last(), snapshot).seed_one(
                join,
                keys.last(),
                def_tag(snapshot[keys.last()]),
            )
        }
    }
}

/// The arm of its join that a definition made inside `frame` reaches: the
/// back edge of a loop is the second, the arms of an `if` are told apart by
/// the frame's status.
pub open spec fn frame_arm(frame: BlockFrame) -> FrameStatus {
    match frame.state {
        Some(FrameState::While) => FrameStatus::Follow,
        _ => if frame.status == Some(FrameStatus::FallThrough) {
            FrameStatus::FallThrough
        } else {
            FrameStatus::Follow
        },
    }
}

/// The variable that a definition was read from.
pub open spec fn def_tag(def: Option<Slot>) -> Option<usize> {
    match def {
        Some((_, dep_var)) => dep_var,
        None => None,
    }
}

impl ParserView {
    /// What every step of the parser keeps: the scanner only moves
    /// forward, frames that were open stay open, and blocks, instructions
    /// and warnings are only added.
    pub open spec fn grows_to(self, later: ParserView) -> bool {
        &&& later.tokens.measure() <= self.tokens.measure()
        &&& self.frames.len() <= later.frames.len()
        &&& self.blocks.len() <= later.blocks.len()
        &&& self.insts.len() <= later.insts.len()
        &&& self.warnings.len() <= later.warnings.len()
        &&& self.tokens.idents.len() <= later.tokens.idents.len()
        &&& (self.unsupported ==> later.unsupported)
        &&& self.settled_in(later)
    }

    /// What construction never changes: the block that owns an instruction
    /// and the immediate dominator of a block.
    pub open spec fn settled_in(self, later: ParserView) -> bool {
        &&& self.insts.len() <= later.insts.len()
        &&& self.blocks.len() <= later.blocks.len()
        &&& forall|i: int|
            0 <= i < self.insts.len() ==> (#[trigger] later.insts[i]).block == self.insts[i].block
        &&& forall|b: int|
            0 <= b < self.blocks.len() ==> (#[trigger] later.blocks[b]).dom == self.blocks[b].dom
    }

    /// Whether the instruction `o` is defined in a block that is `b` or
    /// dominates it.
    pub open spec fn reaches(self, o: usize, b: int) -> bool {
        o < self.insts.len() && match self.insts[o as int].block {
            Some(owner) => dominates(self.blocks, owner as int, b),
            None => false,
        }
    }

    /// Whether every operand of an instruction of kind `itype`, in a slot
    /// or as a branch condition, is defined in a block that is `b` or
    /// dominates it. Nothing is asked of a phi: its operands come along the
    /// edges into its block.
    pub open spec fn operands_reach(self, itype: IType, b: int) -> bool {
        match itype {
            IType::Add { inst1, inst2 } | IType::Sub { inst1, inst2 } | IType::Mul { inst1, inst2 }
            | IType::Div { inst1, inst2 } | IType::Cmp { inst1, inst2 } => self.reaches(inst1.0, b)
                && self.reaches(inst2.0, b),
            IType::Ret { inst: Some(inst) } | IType::SetPar1 { inst } | IType::SetPar2 { inst }
            | IType::SetPar3 { inst } | IType::Write { inst } => self.reaches(inst.0, b),
            IType::Bne { inst, .. } | IType::Beq { inst, .. } | IType::Ble { inst, .. }
            | IType::Blt { inst, .. } | IType::Bge { inst, .. } | IType::Bgt { inst, .. } => self.reaches(
                inst,
                b,
            ),
            _ => true,
        }
    }

    /// What the instruction `i` owes to the dominator tree: it belongs to a
    /// block, its operands are defined in blocks that dominate that block
    /// or are that block, and so is the instruction of its dominating link.
    pub open spec fn inst_placed(self, i: int) -> bool {
        match self.insts[i].block {
            Some(b) => self.operands_reach(self.insts[i].itype, b as int) && (
            self.insts[i].dom matches Some(d) ==> self.reaches(d, b as int)),
            None => false,
        }
    }

    /// What the block `b` owes to the dominator tree: the definitions of
    /// its variables, and the latest instruction of each operation class
    /// that it knows, are in blocks that dominate it or in the block
    /// itself.
    pub open spec fn block_placed(self, b: int) -> bool {
        &&& forall|v: usize| #[trigger]
            self.blocks[b].var_map.contains_key(v) ==> (self.blocks[b].var_map[v] matches Some(
                slot,
            ) ==> self.reaches(slot.0, b))
        &&& (self.blocks[b].op_map.add matches Some(i) ==> self.reaches(i, b))
        &&& (self.blocks[b].op_map.sub matches Some(i) ==> self.reaches(i, b))
        &&& (self.blocks[b].op_map.mul matches Some(i) ==> self.reaches(i, b))
        &&& (self.blocks[b].op_map.div matches Some(i) ==> self.reaches(i, b))
    }

    /// The invariant of construction: values are defined before they are
    /// used, along the dominator tree. It holds until the passes after the
    /// parse start to replace instructions.
    #[verifier::opaque]
    pub open spec fn placed(self) -> bool {
        &&& forall|i: int| 0 <= i < self.insts.len() ==> #[trigger] self.inst_placed(i)
        &&& forall|b: int| 0 <= b < self.blocks.len() ==> #[trigger] self.block_placed(b)
    }

    /// Whether every slot of `slots` holds an instruction that is at hand
    /// in the current block.
    pub open spec fn all_reach(self, slots: Seq<Slot>) -> bool {
        forall|k: int| 0 <= k < slots.len() ==> self.reaches((#[trigger] slots[k]).0, self.curr as int)
    }

    /// Whether the value of an operand is at hand in the current block: an
    /// instruction operand is defined in a block that dominates the
    /// current block or in the block itself.
    pub open spec fn holds(self, operand: Operand) -> bool {
        match operand {
            Operand::Inst(inst) => self.reaches(inst, self.curr as int),
            _ => true,
        }
    }

    /// Whether an instruction of kind `itype` can be emitted: its operands
    /// exist, a jump's target exists, a conditional branch has its target,
    /// and a phi's variable has a name.
    pub open spec fn admits(self, itype: IType) -> bool {
        &&& itype.operands_below(self.insts.len() as int)
        &&& (itype.target() matches Some(b) ==> b < self.blocks.len())
        &&& (itype.is_cond_branch() ==> itype.target() is Some)
        &&& (itype matches IType::Phi { var, .. } ==> var < self.tokens.idents.len())
    }

    /// Whether an operand can be materialised: its instruction exists, or
    /// its variable has a name.
    pub open spec fn knows(self, operand: Operand) -> bool {
        match operand {
            Operand::Const(_) => true,
            Operand::Inst(inst) => inst < self.insts.len(),
            Operand::Var(var) => var < self.tokens.idents.len(),
        }
    }

    /// What only the linking of blocks changes: the successors of the
    /// blocks that exist.
    pub open spec fn links_same(self, later: ParserView) -> bool {
        &&& self.blocks.len() <= later.blocks.len()
        &&& forall|b: int|
            0 <= b < self.blocks.len() ==> (#[trigger] later.blocks[b]).next == self.blocks[b].next
    }

    /// What a statement keeps of the links: it sets the successors of its
    /// own blocks only, which are the block it starts in and the blocks
    /// that it creates, and it ends in one of them.
    pub open spec fn links_kept(self, later: ParserView) -> bool {
        &&& self.blocks.len() <= later.blocks.len()
        &&& (later.curr == self.curr || later.curr >= self.blocks.len())
        &&& forall|b: int|
            0 <= b < self.blocks.len() && b != self.curr ==> (#[trigger] later.blocks[b]).next
                == self.blocks[b].next
    }

    /// What parsing an expression keeps: the current block, the open
    /// frames and the number of blocks.
    pub open spec fn same_cursor(self, later: ParserView) -> bool {
        &&& later.curr == self.curr
        &&& later.curr_init == self.curr_init
        &&& later.frames == self.frames
        &&& later.blocks.len() == self.blocks.len()
    }

    /// The state once a block dominated by `parent` was created: the new
    /// block starts from a copy of the parent's variable definitions and
    /// operation classes.
    pub open spec fn with_block(self, parent: usize) -> ParserView {
        ParserView {
            blocks: self.blocks.push(
                BlockView {
                    id: self.blocks.len() as usize,
                    dom: Some(parent),
                    insts: Seq::empty(),
                    next: (None, None),
                    var_map: self.blocks[parent as int].var_map,
                    op_map: self.blocks[parent as int].op_map,
                    phis: Map::empty(),
                },
            ),
            ..self
        }
    }

    /// The state once the successors of `block` were set to `next`.
    pub open spec fn with_next(self, block: usize, next: (Option<usize>, Option<usize>))
        -> ParserView {
        ParserView {
            blocks: self.blocks.update(
                block as int,
                BlockView { next, ..self.blocks[block as int] },
            ),
            ..self
        }
    }

    /// The state once `var` was declared, without a value, in the current
    /// block.
    pub open spec fn declare(self, var: usize) -> ParserView {
        ParserView {
            blocks: self.blocks.update(
                self.curr as int,
                BlockView {
                    var_map: self.blocks[self.curr as int].var_map.insert(var, None),
                    ..self.blocks[self.curr as int]
                },
            ),
            ..self
        }
    }
}

/// Whether a factor can start with this token.
pub open spec fn starts_factor(token: Option<Token>) -> bool {
    match token {
        Some(Token::Ident(_)) | Some(Token::Number(_)) | Some(Token::OpenParen) | Some(
            Token::Call,
        ) => true,
        _ => false,
    }
}

/// Whether a statement can start with this token.
pub open spec fn starts_statement(token: Option<Token>) -> bool {
    match token {
        Some(Token::Let) | Some(Token::Call) | Some(Token::If) | Some(Token::While) | Some(
            Token::Return,
        ) => true,
        _ => false,
    }
}

/// The branch that skips the fall-through arm when the relation `op` does
/// not hold of the comparison `test`; its target is not set yet.
pub open spec fn reversed_branch(op: RelOp, test: usize) -> IType {
    match op {
        RelOp::Equal => IType::Bne { inst: test, block: None },
        RelOp::NotEqual => IType::Beq { inst: test, block: None },
        RelOp::LessThan => IType::Bge { inst: test, block: None },
        RelOp::LessThanOrEqual => IType::Bgt { inst: test, block: None },
        RelOp::GreaterThan => IType::Ble { inst: test, block: None },
        RelOp::GreaterThanOrEqual => IType::Blt { inst: test, block: None },
    }
}

/// The instructions once every operand `from` was rewritten to `to`.
pub open spec fn renamed(insts: Seq<Inst>, from: usize, to: usize) -> Seq<Inst> {
    insts.map_values(|x: Inst| x.with_itype(x.itype.spec_update_inst(from, to)))
}

impl ParserView {
    /// The instruction that a common-subexpression pass merges `i` into:
    /// the first instruction on the chain of dominating links of `i` that
    /// equals it, when `i` still belongs to a block.
    pub open spec fn cse_target(self, i: int) -> Option<usize> {
        if 0 <= i < self.insts.len() {
            match (self.insts[i].dom, self.insts[i].block) {
                (Some(d), Some(_)) => crate::inst::chain_match(
                    self.insts,
                    self.insts[i].itype,
                    Some(d),
                ),
                _ => None,
            }
        } else {
            None
        }
    }

    /// The state once instruction `i` was replaced by `to`: every operand
    /// `i` is rewritten to `to`, and `i` leaves its block's list.
    pub open spec fn replace(self, i: int, to: usize) -> ParserView {
        ParserView {
            insts: renamed(self.insts, i as usize, to),
            blocks: match self.insts[i].block {
                Some(b) => self.blocks.update(
                    b as int,
                    BlockView {
                        insts: crate::block::remove_first(self.blocks[b as int].insts, i as usize),
                        ..self.blocks[b as int]
                    },
                ),
                None => self.blocks,
            },
            ..self
        }
    }

    /// The state once instruction `i` was detached from its block.
    pub open spec fn detach(self, i: int) -> ParserView {
        ParserView { insts: self.insts.update(i, Inst { block: None, ..self.insts[i] }), ..self }
    }

    /// One step of a common-subexpression pass, on instruction `i`: an
    /// instruction that equals one on its chain of dominating links is
    /// replaced by it and detached.
    pub open spec fn cse_step(self, i: int) -> ParserView {
        match self.cse_target(i) {
            Some(to) => self.replace(i, to).detach(i),
            None => self,
        }
    }

    /// A common-subexpression pass over the instructions below `k`, from
    /// the last one down.
    pub open spec fn cse_pass(self, k: int) -> ParserView
        decreases k,
    {
        if k <= 0 {
            self
        } else {
            self.cse_step(k - 1).cse_pass(k - 1)
        }
    }

    /// The operand that both sides of the phi `i` hold, when `i` is a phi
    /// whose two operands are the same instruction.
    pub open spec fn trivial_phi(self, i: int) -> Option<usize> {
        if 0 <= i < self.insts.len() {
            match self.insts[i].itype {
                IType::Phi { inst1, inst2, .. } => if inst1.0 == inst2.0 {
                    Some(inst1.0)
                } else {
                    None
                },
                _ => None,
            }
        } else {
            None
        }
    }

    /// One step of the removal of trivial phis, on instruction `i`: a phi
    /// whose operands are the same instruction is replaced by it.
    pub open spec fn phi_step(self, i: int) -> ParserView {
        match self.trivial_phi(i) {
            Some(to) => self.replace(i, to),
            None => self,
        }
    }

    /// The removal of trivial phis over the instructions below `k`, from
    /// the last one down.
    pub open spec fn phi_pass(self, k: int) -> ParserView
        decreases k,
    {
        if k <= 0 {
            self
        } else {
            self.phi_step(k - 1).phi_pass(k - 1)
        }
    }

    /// Whether block `b` emits an instruction: whether it lists one that is
    /// not an assignment marker.
    pub open spec fn emits(self, b: int) -> bool {
        crate::block::first_emitted(self.blocks[b].insts, self.insts) is Some
    }

    /// One step of the filling of empty blocks, on block `b`: a block that
    /// emits nothing gets a placeholder.
    pub open spec fn fill_step(self, b: int) -> ParserView {
        if self.emits(b) {
            self
        } else {
            self.emit(b as usize, IType::Empty)
        }
    }

    /// The filling of the empty blocks below `k`, from the first one up.
    pub open spec fn fill_pass(self, k: int) -> ParserView
        decreases k,
    {
        if k <= 0 {
            self
        } else {
            self.fill_pass(k - 1).fill_step(k - 1)
        }
    }

    /// What the passes after the parse make of the finished program: a
    /// common-subexpression pass, the removal of trivial phis, a second
    /// common-subexpression pass and the filling of empty blocks.
    pub open spec fn finish(self) -> ParserView {
        let n = self.insts.len() as int;
        let s = self.cse_pass(n).phi_pass(n).cse_pass(n);
        s.fill_pass(s.blocks.len() as int)
    }
}

impl ParserView {
    /// Whether the program can be written out: every block lists at least
    /// one instruction, and every instruction that a block lists can be
    /// rendered.
    pub open spec fn renderable(self) -> bool {
        forall|b: int|
            0 <= b < self.blocks.len() ==> (#[trigger] self.blocks[b]).insts.len() > 0
                && crate::render::list_renderable(
                self.blocks[b].insts,
                self.insts,
                self.insts,
                self.blocks,
                self.tokens.idents,
            )
    }

    /// The nodes and edges of the first `k` blocks, each followed by an
    /// empty line.
    pub open spec fn blocks_text(self, k: int) -> Seq<char>
        decreases k,
    {
        if k <= 0 {
            Seq::empty()
        } else {
            self.blocks_text(k - 1) + crate::render::block_text(
                self.blocks[k - 1],
                self.insts,
                self.blocks,
                self.tokens.idents,
            ) + "\n"@
        }
    }

    /// The edges from block 0 to the entry blocks of the functions that
    /// `keys` names.
    pub open spec fn entries_text(self, keys: Seq<usize>) -> Seq<char>
        decreases keys.len(),
    {
        if keys.len() == 0 {
            Seq::empty()
        } else {
            self.entries_text(keys.drop_last()) + "\tbb0:s -> bb"@ + crate::render::decimal(
                self.funcs[keys.last()] as nat,
            ) + ":n\n"@
        }
    }

    /// The graph of the program in DOT: a node for each block, with its
    /// edges, then an edge from block 0 to block 1 and to the entry of each
    /// function, in the order of the functions' identifiers.
    pub open spec fn graph_text(self) -> Seq<char> {
        "digraph G {\n"@ + self.blocks_text(self.blocks.len() as int) + "\tbb0:s -> bb1:n\n"@
            + self.entries_text(crate::maps::key_list(self.funcs)) + "}"@
    }

    /// The listings of the first `k` blocks.
    pub open spec fn listings(self, k: int) -> Seq<Seq<char>>
        decreases k,
    {
        if k <= 0 {
            Seq::empty()
        } else {
            self.listings(k - 1).push(
                crate::render::listing_lines(
                    self.blocks[k - 1].insts,
                    self.insts,
                    self.insts,
                    self.blocks,
                    self.tokens.idents,
                ),
            )
        }
    }

    /// The listing of the program: the listings of the blocks, in the
    /// order of their ids, with a blank line between two blocks.
    pub open spec fn listing_text(self) -> Seq<char> {
        crate::render::join(self.listings(self.blocks.len() as int), "\n\n"@)
    }
}

/// Emitting an instruction with an existing target into an existing block
/// keeps the invariants of the stores and of the cursor, and, unless the
/// instruction is a constant, that of the constant pool.
pub proof fn lemma_emit_ok(s: ParserView, block: usize, itype: IType)
    requires
        s.ir_ok(),
        s.cursor_ok(),
        s.insts.len() <= usize::MAX,
        block < s.blocks.len(),
        s.admits(itype),
    ensures
        s.emit(block, itype).ir_ok(),
        s.emit(block, itype).cursor_ok(),
        !(itype is Const) && s.consts_ok() ==> s.emit(block, itype).consts_ok(),
{
    let t = s.emit(block, itype);
    let id = s.insts.len() as usize;
    assert(block_ok(s.blocks[block as int], s.insts, s.tokens.idents.len() as int));
    assert forall|b: int| 0 <= b < t.blocks.len() implies block_ok(
        #[trigger] t.blocks[b],
        t.insts, t.tokens.idents.len() as int,
    ) by {
        assert(block_ok(s.blocks[b], s.insts, s.tokens.idents.len() as int));
        if b == block {
            assert forall|k: int| 0 <= k < t.blocks[b].insts.len() implies #[trigger] t.blocks[b].insts[k]
                < t.insts.len() by {
                if k < s.blocks[b].insts.len() {
                    assert(s.blocks[b].insts[k] < s.insts.len());
                }
            }
        }
    }
}

/// Asking for a constant keeps the builder's invariant.
pub proof fn lemma_with_const_ok(s: ParserView, val: isize)
    requires
        s.wf(),
        s.consts.contains_key(val) || s.insts.len() <= usize::MAX,
    ensures
        s.with_const(val).wf(),
        s.const_id(val) < s.with_const(val).insts.len(),
        s.with_const(val).insts[s.const_id(val) as int].itype == IType::Const(val),
        s.with_const(val).insts[s.const_id(val) as int].block == Some(0usize),
        s.with_const(val).consts.contains_key(val),
        s.with_const(val).consts[val] == s.const_id(val),
{
    if !s.consts.contains_key(val) {
        lemma_emit_ok(s, 0, IType::Const(val));
        let t = s.with_const(val);
        assert forall|i: int| 0 <= i < t.insts.len() implies ((#[trigger] t.insts[i]).itype matches IType::Const(
            v,
        ) ==> t.consts.contains_key(v) && t.consts[v] == i) by {
            if i < s.insts.len() {
                assert(t.insts[i] == s.insts[i]);
            }
        }
    }
}

/// The instruction that passes the argument number `argnum` of a call.
pub open spec fn set_par(inst: Slot, argnum: usize) -> IType {
    if argnum == 0 {
        IType::SetPar1 { inst }
    } else if argnum == 1 {
        IType::SetPar2 { inst }
    } else {
        IType::SetPar3 { inst }
    }
}

/// The instruction that receives the parameter number `argnum`.
pub open spec fn get_par(argnum: usize) -> IType {
    if argnum == 0 {
        IType::GetPar1
    } else if argnum == 1 {
        IType::GetPar2
    } else {
        IType::GetPar3
    }
}

/// Binding a variable in an existing block keeps the builder's invariant.
pub proof fn lemma_bind_ok(s: ParserView, block: usize, var: usize, inst: usize, dep_var: Option<usize>)
    requires
        var < s.tokens.idents.len(),
        inst < s.insts.len(),
        s.wf(),
        block < s.blocks.len(),
    ensures
        s.bind(block, var, inst, dep_var).wf(),
{
    let t = s.bind(block, var, inst, dep_var);
    assert forall|b: int| 0 <= b < t.blocks.len() implies block_ok(
        #[trigger] t.blocks[b],
        t.insts, t.tokens.idents.len() as int,
    ) by {
        assert(block_ok(s.blocks[b], s.insts, s.tokens.idents.len() as int));
    }
}

/// Setting an operand of a phi keeps the builder's invariant.
pub proof fn lemma_set_phi_ok(s: ParserView, phi: usize, inst: usize, arm: FrameStatus)
    requires
        inst < s.insts.len(),
        s.wf(),
        phi < s.insts.len(),
        s.insts[phi as int].itype is Phi,
    ensures
        s.set_phi(phi, inst, arm).wf(),
{
    let t = s.set_phi(phi, inst, arm);
    assert forall|b: int| 0 <= b < t.blocks.len() implies block_ok(
        #[trigger] t.blocks[b],
        t.insts, t.tokens.idents.len() as int,
    ) by {
        assert(block_ok(s.blocks[b], s.insts, s.tokens.idents.len() as int));
    }
    assert forall|i: int| 0 <= i < t.insts.len() implies ((#[trigger] t.insts[i]).itype matches IType::Const(
        v,
    ) ==> t.consts.contains_key(v) && t.consts[v] == i) by {
        if i != phi {
            assert(t.insts[i] == s.insts[i]);
        }
    }
}

/// Looking up the value of a variable keeps the builder's invariant, and
/// the value is an instruction of the store.
pub proof fn lemma_with_value_ok(s: ParserView, block: usize, var: usize)
    requires
        var < s.tokens.idents.len(),
        s.wf(),
        block < s.blocks.len(),
        s.insts.len() <= usize::MAX,
    ensures
        s.with_value(block, var).tokens == s.tokens,
        s.value_id(block, var) < s.with_value(block, var).insts.len(),
        s.with_value(block, var).wf(),
        s.with_value(block, var).blocks.len() == s.blocks.len(),
        s.insts.len() <= s.with_value(block, var).insts.len() <= s.insts.len() + 1,
{
    if s.blocks[block as int].var_inst(var) is None {
        let warned = ParserView { warnings: s.warnings.push(var), ..s };
        lemma_with_const_ok(warned, 0);
        lemma_bind_ok(warned.with_const(0), s.curr, var, warned.const_id(0), None);
    }
}

/// Seeding a phi keeps the builder's invariant.
pub proof fn lemma_seed_one_ok(s: ParserView, join: usize, var: usize, dep_var: Option<usize>)
    requires
        var < s.tokens.idents.len(),
        s.wf(),
        join < s.blocks.len(),
        s.insts.len() <= usize::MAX,
        s.with_value(join, var).insts.len() + 2 <= usize::MAX,
    ensures
        s.seed_one(join, var, dep_var).wf(),
{
    lemma_with_value_ok(s, join, var);
    let s1 = s.with_value(join, var);
    let t = s.seed_one(join, var, dep_var);
    let phi = s1.insts.len() as usize;
    assert forall|b: int| 0 <= b < t.blocks.len() implies block_ok(
        #[trigger] t.blocks[b],
        t.insts, t.tokens.idents.len() as int,
    ) by {
        assert(block_ok(s1.blocks[b], s1.insts, s1.tokens.idents.len() as int));
        if b == join {
            assert forall|k: int| 0 <= k < t.blocks[b].insts.len() implies #[trigger] t.blocks[b].insts[k]
                < t.insts.len() by {
                if k >= 2 {
                    assert(t.blocks[b].insts[k] == s1.blocks[b].insts[k - 2]);
                }
            }
            assert forall|v: usize| #[trigger] t.blocks[b].phis.contains_key(v) implies t.blocks[b].phis[v]
                < t.insts.len() && t.insts[t.blocks[b].phis[v] as int].itype is Phi by {
                if v != var {
                    assert(s1.blocks[b].phis.contains_key(v));
                }
            }
        } else {
            assert forall|v: usize| #[trigger] t.blocks[b].phis.contains_key(v) implies t.blocks[b].phis[v]
                < t.insts.len() && t.insts[t.blocks[b].phis[v] as int].itype is Phi by {
                assert(s1.blocks[b].phis.contains_key(v));
            }
        }
    }
    assert forall|i: int| 0 <= i < t.insts.len() implies ((#[trigger] t.insts[i]).itype matches IType::Const(
        v,
    ) ==> t.consts.contains_key(v) && t.consts[v] == i) by {
        if i < s1.insts.len() {
            assert(t.insts[i] == s1.insts[i]);
        }
    }
    assert forall|v: isize| #[trigger] t.consts.contains_key(v) implies {
        &&& t.consts[v] < t.insts.len()
        &&& t.insts[t.consts[v] as int].itype == IType::Const(v)
        &&& t.insts[t.consts[v] as int].block == Some(0usize)
    } by {
        assert(s1.consts.contains_key(v));
        assert(t.insts[t.consts[v] as int] == s1.insts[s1.consts[v] as int]);
    }
}

/// Creating a block under an existing one keeps the builder's invariant.
pub proof fn lemma_with_block_ok(s: ParserView, parent: usize)
    requires
        s.wf(),
        parent < s.blocks.len(),
        s.blocks.len() <= usize::MAX,
    ensures
        s.with_block(parent).wf(),
{
    let t = s.with_block(parent);
    assert(block_ok(s.blocks[parent as int], s.insts, s.tokens.idents.len() as int));
    assert forall|b: int| 0 <= b < t.blocks.len() implies block_ok(
        #[trigger] t.blocks[b],
        t.insts, t.tokens.idents.len() as int,
    ) by {
        if b < s.blocks.len() {
            assert(block_ok(s.blocks[b], s.insts, s.tokens.idents.len() as int));
        }
    }
    assert forall|k: int| 0 <= k < t.frames.len() implies frame_ok(
        #[trigger] t.frames[k],
        t.blocks.len() as int,
    ) by {
        assert(frame_ok(s.frames[k], s.blocks.len() as int));
    }
}

/// Setting the successors of a block keeps the builder's invariant.
pub proof fn lemma_with_next_ok(s: ParserView, block: usize, next: (Option<usize>, Option<usize>))
    requires
        s.wf(),
        block < s.blocks.len(),
    ensures
        s.with_next(block, next).wf(),
{
    let t = s.with_next(block, next);
    assert forall|b: int| 0 <= b < t.blocks.len() implies block_ok(
        #[trigger] t.blocks[b],
        t.insts, t.tokens.idents.len() as int,
    ) by {
        assert(block_ok(s.blocks[b], s.insts, s.tokens.idents.len() as int));
    }
}

/// Declaring a variable keeps the builder's invariant.
pub proof fn lemma_declare_ok(s: ParserView, var: usize)
    requires
        var < s.tokens.idents.len(),
        s.wf(),
    ensures
        s.declare(var).wf(),
{
    let t = s.declare(var);
    assert forall|b: int| 0 <= b < t.blocks.len() implies block_ok(
        #[trigger] t.blocks[b],
        t.insts, t.tokens.idents.len() as int,
    ) by {
        assert(block_ok(s.blocks[b], s.insts, s.tokens.idents.len() as int));
    }
}

/// What is left of a list after a removal was in the list before, and a
/// list without duplicates no longer holds what was removed.
pub proof fn lemma_remove_first_sub(s: Seq<usize>, x: usize)
    ensures
        forall|k: int|
            0 <= k < crate::block::remove_first(s, x).len() ==> s.contains(
                #[trigger] crate::block::remove_first(s, x)[k],
            ),
        s.no_duplicates() ==> crate::block::remove_first(s, x).no_duplicates()
            && !crate::block::remove_first(s, x).contains(x),
    decreases s.len(),
{
    let r = crate::block::remove_first(s, x);
    if s.len() > 0 {
        let t = s.drop_first();
        lemma_remove_first_sub(t, x);
        let rt = crate::block::remove_first(t, x);
        if s[0] != x {
            assert forall|k: int| 0 <= k < r.len() implies s.contains(#[trigger] r[k]) by {
                if k == 0 {
                    assert(r[0] == s[0]);
                } else {
                    assert(r[k] == rt[k - 1]);
                    assert(t.contains(rt[k - 1]));
                    let j = choose|j: int| 0 <= j < t.len() && t[j] == rt[k - 1];
                    assert(s[j + 1] == r[k]);
                }
            }
            if s.no_duplicates() {
                assert(t.no_duplicates());
                assert forall|i: int, j: int| 0 <= i < r.len() && 0 <= j < r.len() && i != j implies r[i]
                    != r[j] by {
                    if i == 0 {
                        assert(r[j] == rt[j - 1]);
                        assert(t.contains(rt[j - 1]));
                        let m = choose|m: int| 0 <= m < t.len() && t[m] == rt[j - 1];
                        assert(s[m + 1] == r[j]);
                    } else if j == 0 {
                        assert(r[i] == rt[i - 1]);
                        assert(t.contains(rt[i - 1]));
                        let m = choose|m: int| 0 <= m < t.len() && t[m] == rt[i - 1];
                        assert(s[m + 1] == r[i]);
                    } else {
                        assert(r[i] == rt[i - 1]);
                        assert(r[j] == rt[j - 1]);
                    }
                }
                if r.contains(x) {
                    let k = choose|k: int| 0 <= k < r.len() && r[k] == x;
                    assert(r[k] == rt[k - 1]);
                    assert(rt.contains(x));
                }
            }
        } else {
            assert forall|k: int| 0 <= k < r.len() implies s.contains(#[trigger] r[k]) by {
                assert(s[k + 1] == r[k]);
            }
            if s.no_duplicates() {
                assert(t.no_duplicates());
                if r.contains(x) {
                    let k = choose|k: int| 0 <= k < r.len() && r[k] == x;
                    assert(s[k + 1] == x);
                }
            }
        }
    }
}

/// Replacing an instruction keeps the builder's invariant.
pub proof fn lemma_replace_ok(s: ParserView, i: int, to: usize)
    requires
        to < s.insts.len(),
        s.wf(),
        0 <= i < s.insts.len(),
    ensures
        forall|b: int|
            0 <= b < s.replace(i, to).blocks.len() ==> !(#[trigger] s.replace(i, to).blocks[b]).insts.contains(
                i as usize,
            ),
        s.replace(i, to).wf(),
{
    let t = s.replace(i, to);
    assert forall|b: int| 0 <= b < t.blocks.len() implies !(#[trigger] t.blocks[b]).insts.contains(
        i as usize,
    ) by {
        assert(block_ok(s.blocks[b], s.insts, s.tokens.idents.len() as int));
        assert(s.blocks[b].id == b);
        if s.insts[i].block == Some(b as usize) {
            lemma_remove_first_sub(s.blocks[b].insts, i as usize);
        } else if t.blocks[b].insts.contains(i as usize) {
            let k = choose|k: int| 0 <= k < t.blocks[b].insts.len() && t.blocks[b].insts[k] == i;
            assert(s.blocks[b].insts[k] == i);
        }
    }
    assert forall|j: int| 0 <= j < t.insts.len() implies {
        &&& (#[trigger] t.insts[j]).id == j
        &&& (t.insts[j].dom matches Some(d) ==> d < j)
        &&& (t.insts[j].dom is Some ==> t.insts[j].itype.op_class() is Some)
        &&& (t.insts[j].block is None ==> t.insts[j].itype.op_class() is Some)
        &&& (t.insts[j].block matches Some(b) ==> b < t.blocks.len())
        &&& (t.insts[j].itype.target() matches Some(b) ==> b < t.blocks.len())
        &&& (t.insts[j].itype.is_cond_branch() ==> t.insts[j].itype.target() is Some)
        &&& t.insts[j].itype.operands_below(t.insts.len() as int)
        &&& (t.insts[j].itype matches IType::Phi { var, .. } ==> var < t.tokens.idents.len())
    } by {
        crate::itype::lemma_rename_keeps_kind(s.insts[j].itype, i as usize, to);
        assert(s.insts[j].id == j);
    }
    assert forall|b: int| 0 <= b < t.blocks.len() implies block_ok(
        #[trigger] t.blocks[b],
        t.insts, t.tokens.idents.len() as int,
    ) by {
        assert(block_ok(s.blocks[b], s.insts, s.tokens.idents.len() as int));
        if s.insts[i].block == Some(b as usize) {
            lemma_remove_first_sub(s.blocks[b].insts, i as usize);
            let list = s.blocks[b].insts;
            let r = crate::block::remove_first(list, i as usize);
            assert forall|k: int| 0 <= k < r.len() implies #[trigger] r[k] < t.insts.len()
                && t.insts[r[k] as int].block == Some(t.blocks[b].id) by {
                assert(list.contains(r[k]));
                let j = choose|j: int| 0 <= j < list.len() && list[j] == r[k];
                assert(list[j] < s.insts.len());
            }
        }
        assert forall|v: usize| #[trigger] t.blocks[b].phis.contains_key(v) implies t.blocks[b].phis[v]
            < t.insts.len() && t.insts[t.blocks[b].phis[v] as int].itype is Phi by {
            assert(s.blocks[b].phis.contains_key(v));
            crate::itype::lemma_rename_keeps_kind(
                s.insts[s.blocks[b].phis[v] as int].itype,
                i as usize,
                to,
            );
        }
    }
    assert forall|j: int| 0 <= j < t.insts.len() implies ((#[trigger] t.insts[j]).itype matches IType::Const(
        v,
    ) ==> t.consts.contains_key(v) && t.consts[v] == j) by {
        crate::itype::lemma_rename_keeps_kind(s.insts[j].itype, i as usize, to);
        assert(s.insts[j].id == j);
    }
    assert forall|v: isize| #[trigger] t.consts.contains_key(v) implies {
        &&& t.consts[v] < t.insts.len()
        &&& t.insts[t.consts[v] as int].itype == IType::Const(v)
        &&& t.insts[t.consts[v] as int].block == Some(0usize)
    } by {
        assert(s.consts.contains_key(v));
        crate::itype::lemma_rename_keeps_kind(s.insts[s.consts[v] as int].itype, i as usize, to);
    }
}

/// Detaching an arithmetic instruction keeps the builder's invariant.
pub proof fn lemma_detach_ok(s: ParserView, i: int)
    requires
        forall|b: int| 0 <= b < s.blocks.len() ==> !(#[trigger] s.blocks[b]).insts.contains(i as usize),
        s.wf(),
        0 <= i < s.insts.len(),
        s.insts[i].itype.op_class() is Some,
    ensures
        s.detach(i).wf(),
{
    let t = s.detach(i);
    assert forall|b: int| 0 <= b < t.blocks.len() implies block_ok(
        #[trigger] t.blocks[b],
        t.insts, t.tokens.idents.len() as int,
    ) by {
        assert(block_ok(s.blocks[b], s.insts, s.tokens.idents.len() as int));
    }
    assert forall|j: int| 0 <= j < t.insts.len() implies ((#[trigger] t.insts[j]).itype matches IType::Const(
        v,
    ) ==> t.consts.contains_key(v) && t.consts[v] == j) by {
        assert(s.insts[j].id == j);
    }
    assert forall|v: isize| #[trigger] t.consts.contains_key(v) implies {
        &&& t.consts[v] < t.insts.len()
        &&& t.insts[t.consts[v] as int].itype == IType::Const(v)
        &&& t.insts[t.consts[v] as int].block == Some(0usize)
    } by {
        assert(s.consts.contains_key(v));
    }
}

/// The first emitted instruction of a list stays the same when
/// instructions are appended to the store.
pub proof fn lemma_first_emitted_stable(list: Seq<usize>, store: Seq<Inst>, more: Seq<Inst>)
    requires
        forall|k: int| 0 <= k < list.len() ==> #[trigger] list[k] < store.len(),
    ensures
        crate::block::first_emitted(list, store + more) == crate::block::first_emitted(list, store),
    decreases list.len(),
{
    if list.len() > 0 {
        assert(list[0] < store.len());
        assert((store + more)[list[0] as int] == store[list[0] as int]);
        let t = list.drop_first();
        assert forall|k: int| 0 <= k < t.len() implies #[trigger] t[k] < store.len() by {
            assert(t[k] == list[k + 1]);
        }
        lemma_first_emitted_stable(t, store, more);
    }
}

/// A list emits an instruction once an instruction that is no assignment
/// marker was appended to it.
pub proof fn lemma_first_emitted_push(list: Seq<usize>, store: Seq<Inst>, id: usize)
    requires
        0 <= id < store.len(),
        !(store[id as int].itype is Assignment),
    ensures
        crate::block::first_emitted(list.push(id), store) is Some,
    decreases list.len(),
{
    if list.len() > 0 {
        assert(list.push(id).drop_first() =~= list.drop_first().push(id));
        assert(list.push(id)[0] == list[0]);
        lemma_first_emitted_push(list.drop_first(), store, id);
    } else {
        assert(list.push(id)[0] == id);
    }
}

/// Filling block `b` leaves it, and every block that emitted an
/// instruction before, with an emitted instruction.
pub proof fn lemma_fill_emits(s: ParserView, b: int)
    requires
        s.wf(),
        0 <= b < s.blocks.len(),
        s.insts.len() <= usize::MAX,
    ensures
        s.emit(b as usize, IType::Empty).emits(b),
        forall|c: int|
            0 <= c < s.blocks.len() && s.emits(c) ==> #[trigger] s.emit(b as usize, IType::Empty).emits(
                c,
            ),
{
    let t = s.emit(b as usize, IType::Empty);
    let id = s.insts.len() as usize;
    lemma_first_emitted_push(s.blocks[b].insts, t.insts, id);
    assert forall|c: int| 0 <= c < s.blocks.len() && s.emits(c) implies #[trigger] t.emits(c) by {
        assert(block_ok(s.blocks[c], s.insts, s.tokens.idents.len() as int));
        assert(t.insts =~= s.insts + seq![t.insts[id as int]]);
        if c != b {
            lemma_first_emitted_stable(s.blocks[c].insts, s.insts, seq![t.insts[id as int]]);
        }
    }
}

/// A program whose blocks all emit an instruction can be written out.
pub proof fn lemma_renderable(s: ParserView)
    requires
        s.wf(),
        forall|b: int| 0 <= b < s.blocks.len() ==> s.emits(b),
    ensures
        s.renderable(),
{
    assert forall|b: int| 0 <= b < s.blocks.len() implies (#[trigger] s.blocks[b]).insts.len() > 0
        && crate::render::list_renderable(
        s.blocks[b].insts,
        s.insts,
        s.insts,
        s.blocks,
        s.tokens.idents,
    ) by {
        assert(s.emits(b));
        assert(block_ok(s.blocks[b], s.insts, s.tokens.idents.len() as int));
        let list = s.blocks[b].insts;
        assert forall|k: int| 0 <= k < list.len() implies (s.insts[#[trigger] list[k] as int].itype is Assignment
            || crate::render::can_render(
            s.insts[list[k] as int].itype,
            s.insts,
            s.blocks,
            s.tokens.idents,
        )) by {
            let itype = s.insts[list[k] as int].itype;
            assert(s.insts[list[k] as int].id == list[k]);
            match itype.target() {
                Some(t) => {
                    assert(s.emits(t as int));
                    assert(block_ok(s.blocks[t as int], s.insts, s.tokens.idents.len() as int));
                },
                None => {},
            }
        }
    }
}

/// An instruction that is defined in a block that dominates `b` stays so
/// while construction goes on.
pub proof fn lemma_reaches_settled(s: ParserView, t: ParserView, o: usize, b: int)
    requires
        s.settled_in(t),
        0 <= b < s.blocks.len(),
        s.reaches(o, b),
    ensures
        t.reaches(o, b),
{
    assert(t.insts[o as int].block == s.insts[o as int].block);
    crate::block::lemma_dominates_stable(
        s.blocks,
        t.blocks,
        s.insts[o as int].block.unwrap() as int,
        b,
    );
}

/// Block 0 dominates every block.
pub proof fn lemma_root_dominates(s: ParserView, b: int)
    requires
        s.ir_ok(),
        0 <= b < s.blocks.len(),
    ensures
        dominates(s.blocks, 0, b),
    decreases b,
{
    if b > 0 {
        assert(s.blocks[b].id == b);
        lemma_root_dominates(s, s.blocks[b].dom.unwrap() as int);
    }
}

/// What an operand of an instruction of kind `itype` owes to `b` stays
/// owed while construction goes on.
pub proof fn lemma_operands_settled(s: ParserView, t: ParserView, itype: IType, b: int)
    requires
        s.settled_in(t),
        0 <= b < s.blocks.len(),
        s.operands_reach(itype, b),
    ensures
        t.operands_reach(itype, b),
{
    match itype {
        IType::Add { inst1, inst2 } | IType::Sub { inst1, inst2 } | IType::Mul { inst1, inst2 }
        | IType::Div { inst1, inst2 } | IType::Cmp { inst1, inst2 } => {
            lemma_reaches_settled(s, t, inst1.0, b);
            lemma_reaches_settled(s, t, inst2.0, b);
        },
        IType::Ret { inst: Some(inst) } | IType::SetPar1 { inst } | IType::SetPar2 { inst }
        | IType::SetPar3 { inst } | IType::Write { inst } => {
            lemma_reaches_settled(s, t, inst.0, b);
        },
        IType::Bne { inst, .. } | IType::Beq { inst, .. } | IType::Ble { inst, .. } | IType::Blt {
            inst,
            ..
        } | IType::Bge { inst, .. } | IType::Bgt { inst, .. } => {
            lemma_reaches_settled(s, t, inst, b);
        },
        _ => {},
    }
}

/// The invariant of construction is kept by a step that leaves the old
/// instructions as they are, but for the operands of phis, and that places
/// what it adds: new instructions, new definitions of variables and new
/// latest instructions of operation classes.
pub proof fn lemma_placed_step(s: ParserView, t: ParserView)
    requires
        s.ir_ok(),
        s.placed(),
        s.settled_in(t),
        forall|i: int|
            0 <= i < s.insts.len() ==> (#[trigger] t.insts[i]).dom == s.insts[i].dom && (
            t.insts[i].itype == s.insts[i].itype || t.insts[i].itype is Phi),
        forall|i: int| s.insts.len() <= i < t.insts.len() ==> #[trigger] t.inst_placed(i),
        forall|b: int, v: usize|
            0 <= b < t.blocks.len() && #[trigger] t.blocks[b].var_map.contains_key(v) ==> (
            t.blocks[b].var_map[v] matches Some(slot) ==> t.reaches(slot.0, b) || (b
                < s.blocks.len() && s.blocks[b].var_map.contains_key(v) && s.blocks[b].var_map[v]
                == Some(slot))),
        forall|b: int|
            0 <= b < t.blocks.len() ==> {
                let old_map = if b < s.blocks.len() {
                    s.blocks[b].op_map
                } else {
                    OpMap { add: None, sub: None, mul: None, div: None }
                };
                let new_map = (#[trigger] t.blocks[b]).op_map;
                &&& (new_map.add matches Some(i) ==> t.reaches(i, b) || new_map.add == old_map.add)
                &&& (new_map.sub matches Some(i) ==> t.reaches(i, b) || new_map.sub == old_map.sub)
                &&& (new_map.mul matches Some(i) ==> t.reaches(i, b) || new_map.mul == old_map.mul)
                &&& (new_map.div matches Some(i) ==> t.reaches(i, b) || new_map.div == old_map.div)
            },
    ensures
        t.placed(),
{
    reveal(ParserView::placed);
    assert forall|i: int| 0 <= i < t.insts.len() implies #[trigger] t.inst_placed(i) by {
        if i < s.insts.len() {
            assert(s.inst_placed(i));
            assert(t.insts[i].block == s.insts[i].block);
            let b = s.insts[i].block.unwrap() as int;
            assert(s.insts[i].id == i);
            if t.insts[i].itype == s.insts[i].itype {
                lemma_operands_settled(s, t, s.insts[i].itype, b);
            }
            match s.insts[i].dom {
                Some(d) => {
                    lemma_reaches_settled(s, t, d, b);
                },
                None => {},
            }
        }
    }
    assert forall|b: int| 0 <= b < t.blocks.len() implies #[trigger] t.block_placed(b) by {
        if b < s.blocks.len() {
            assert(s.block_placed(b));
        }
        assert forall|v: usize| #[trigger] t.blocks[b].var_map.contains_key(v) implies (t.blocks[b].var_map[v] matches Some(
            slot,
        ) ==> t.reaches(slot.0, b)) by {
            match t.blocks[b].var_map[v] {
                Some(slot) => {
                    if !t.reaches(slot.0, b) {
                        lemma_reaches_settled(s, t, slot.0, b);
                    }
                },
                None => {},
            }
        }
        let new_map = t.blocks[b].op_map;
        match new_map.add {
            Some(i) => {
                if !t.reaches(i, b) {
                    lemma_reaches_settled(s, t, i, b);
                }
            },
            None => {},
        }
        match new_map.sub {
            Some(i) => {
                if !t.reaches(i, b) {
                    lemma_reaches_settled(s, t, i, b);
                }
            },
            None => {},
        }
        match new_map.mul {
            Some(i) => {
                if !t.reaches(i, b) {
                    lemma_reaches_settled(s, t, i, b);
                }
            },
            None => {},
        }
        match new_map.div {
            Some(i) => {
                if !t.reaches(i, b) {
                    lemma_reaches_settled(s, t, i, b);
                }
            },
            None => {},
        }
    }
}

/// Emitting an instruction whose operands are at hand in its block keeps
/// the invariant of construction.
pub proof fn lemma_emit_placed(s: ParserView, block: usize, itype: IType)
    requires
        s.ir_ok(),
        s.cursor_ok(),
        s.placed(),
        s.insts.len() <= usize::MAX,
        block < s.blocks.len(),
        s.admits(itype),
        s.operands_reach(itype, block as int),
    ensures
        s.emit(block, itype).placed(),
        s.emit(block, itype).reaches(s.insts.len() as usize, block as int),
{
    reveal(ParserView::placed);
    let t = s.emit(block, itype);
    let id = s.insts.len() as usize;
    assert(s.settled_in(t));
    assert(s.block_placed(block as int));
    lemma_operands_settled(s, t, itype, block as int);
    match s.blocks[block as int].op_map.lookup(itype) {
        Some(d) => {
            lemma_reaches_settled(s, t, d, block as int);
        },
        None => {},
    }
    assert(t.inst_placed(id as int));
    assert(t.reaches(id, block as int));
    lemma_placed_step(s, t);
}

/// The constant of a value that the pool holds is at hand in every block.
pub proof fn lemma_const_reaches(s: ParserView, val: isize)
    requires
        s.wf(),
        s.consts.contains_key(val),
    ensures
        forall|b: int| 0 <= b < s.blocks.len() ==> #[trigger] s.reaches(s.consts[val], b),
{
    assert forall|b: int| 0 <= b < s.blocks.len() implies #[trigger] s.reaches(
        s.consts[val],
        b,
    ) by {
        lemma_root_dominates(s, b);
    }
}

/// Binding a variable to an instruction that is at hand in the block keeps
/// the invariant of construction.
pub proof fn lemma_bind_placed(s: ParserView, block: usize, var: usize, inst: usize, dep_var: Option<usize>)
    requires
        s.wf(),
        s.placed(),
        block < s.blocks.len(),
        s.reaches(inst, block as int),
    ensures
        s.bind(block, var, inst, dep_var).placed(),
{
    reveal(ParserView::placed);
    let t = s.bind(block, var, inst, dep_var);
    assert(s.settled_in(t));
    lemma_reaches_settled(s, t, inst, block as int);
    lemma_placed_step(s, t);
}

/// Seeding a phi keeps the invariant of construction.
pub proof fn lemma_seed_one_placed(s: ParserView, join: usize, var: usize, dep_var: Option<usize>)
    requires
        s.wf(),
        s.placed(),
        join < s.blocks.len(),
        var < s.tokens.idents.len(),
        s.insts.len() <= usize::MAX,
        s.with_value(join, var).insts.len() + 2 <= usize::MAX,
    ensures
        s.seed_one(join, var, dep_var).placed(),
{
    reveal(ParserView::placed);
    lemma_with_value_ok(s, join, var);
    lemma_with_value_placed(s, join, var);
    let s1 = s.with_value(join, var);
    let t = s.seed_one(join, var, dep_var);
    assert(s1.settled_in(t));
    let phi = s1.insts.len() as usize;
    assert(dominates(t.blocks, join as int, join as int));
    assert(t.reaches(phi, join as int));
    assert(t.inst_placed(phi as int));
    assert(t.inst_placed(phi as int + 1));
    lemma_placed_step(s1, t);
}

/// Looking up the value of a variable keeps the invariant of construction,
/// and the value is at hand in the block where it was looked up.
pub proof fn lemma_with_value_placed(s: ParserView, block: usize, var: usize)
    requires
        s.wf(),
        s.placed(),
        block < s.blocks.len(),
        var < s.tokens.idents.len(),
        s.insts.len() <= usize::MAX,
    ensures
        s.with_value(block, var).placed(),
        s.with_value(block, var).reaches(s.value_id(block, var), block as int),
        s.settled_in(s.with_value(block, var)),
{
    reveal(ParserView::placed);
    if s.blocks[block as int].var_inst(var) is None {
        let warned = ParserView { warnings: s.warnings.push(var), ..s };
        lemma_placed_step(s, warned);
        lemma_with_const_ok(warned, 0);
        let mid = warned.with_const(0);
        if !warned.consts.contains_key(0) {
            lemma_emit_placed(warned, 0, IType::Const(0));
            lemma_placed_step(warned.emit(0, IType::Const(0)), mid);
        }
        lemma_const_reaches(mid, 0);
        lemma_bind_ok(mid, s.curr, var, warned.const_id(0), None);
        lemma_bind_placed(mid, s.curr, var, warned.const_id(0), None);
        let t = s.with_value(block, var);
        lemma_const_reaches(t, 0);
    } else {
        assert(s.block_placed(block as int));
    }
}

/// Creating a block under an existing one keeps the invariant of
/// construction: what was at hand in the parent is at hand in the child.
pub proof fn lemma_with_block_placed(s: ParserView, parent: usize)
    requires
        s.wf(),
        s.placed(),
        parent < s.blocks.len(),
        s.blocks.len() <= usize::MAX,
    ensures
        s.with_block(parent).placed(),
{
    reveal(ParserView::placed);
    let t = s.with_block(parent);
    let child = s.blocks.len() as int;
    assert(s.settled_in(t));
    assert(s.block_placed(parent as int));
    assert forall|o: usize| s.reaches(o, parent as int) implies t.reaches(o, child) by {
        lemma_reaches_settled(s, t, o, parent as int);
    }
    lemma_placed_step(s, t);
}

/// What the invariant of construction says of one block.
pub proof fn lemma_placed_block(s: ParserView, b: int)
    requires
        s.placed(),
        0 <= b < s.blocks.len(),
    ensures
        s.block_placed(b),
{
    reveal(ParserView::placed);
}

/// What the invariant of construction says of one instruction.
pub proof fn lemma_placed_inst(s: ParserView, i: int)
    requires
        s.placed(),
        0 <= i < s.insts.len(),
    ensures
        s.inst_placed(i),
{
    reveal(ParserView::placed);
}

/// An operand that is at hand in the current block stays at hand while
/// construction goes on in that block.
pub proof fn lemma_holds_settled(s: ParserView, t: ParserView, operand: Operand)
    requires
        s.settled_in(t),
        s.curr == t.curr,
        s.curr < s.blocks.len(),
        s.holds(operand),
    ensures
        t.holds(operand),
{
    match operand {
        Operand::Inst(inst) => {
            lemma_reaches_settled(s, t, inst, s.curr as int);
        },
        _ => {},
    }
}

/// Slots that are at hand in the current block stay at hand while
/// construction goes on in that block.
pub proof fn lemma_all_reach_settled(s: ParserView, t: ParserView, slots: Seq<Slot>)
    requires
        s.settled_in(t),
        s.curr == t.curr,
        s.curr < s.blocks.len(),
        s.all_reach(slots),
    ensures
        t.all_reach(slots),
{
    assert forall|k: int| 0 <= k < slots.len() implies t.reaches(
        (#[trigger] slots[k]).0,
        t.curr as int,
    ) by {
        lemma_reaches_settled(s, t, slots[k].0, s.curr as int);
    }
}

/// An instruction of a block is at hand in that block.
pub proof fn lemma_held_reaches(s: ParserView, inst: usize, block: usize)
    requires
        inst < s.insts.len(),
        s.insts[inst as int].block == Some(block),
    ensures
        s.reaches(inst, block as int),
        forall|target: usize|
            s.operands_reach(IType::Bne { inst, block: Some(target) }, block as int)
                && s.operands_reach(IType::Beq { inst, block: Some(target) }, block as int)
                && s.operands_reach(IType::Ble { inst, block: Some(target) }, block as int)
                && s.operands_reach(IType::Blt { inst, block: Some(target) }, block as int)
                && s.operands_reach(IType::Bge { inst, block: Some(target) }, block as int)
                && s.operands_reach(IType::Bgt { inst, block: Some(target) }, block as int),
{
}

} // verus!
