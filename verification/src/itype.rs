//! Instruction kinds and the operations that rewrite their operands.
use vstd::prelude::*;
use vstd::std_specs::cmp::PartialEqSpecImpl;
use vstd::std_specs::convert::TryFromSpecImpl;
use crate::frame::FrameStatus;

verus! {

/// An operand slot: the id of the instruction that defines the value, and
/// the source variable the value was read from, if any.
pub type Slot = (usize, Option<usize>);

/// The arithmetic operation classes that take part in common-subexpression
/// lookup.
#[derive(Debug, Clone, Copy, PartialEq, Eq, PartialOrd, Ord)]
pub enum OpType {
    Add,
    Sub,
    Mul,
    Div,
}

/// Returned when an instruction kind has no operation class.
#[derive(Debug, Clone, Copy)]
pub struct InvalidITypeError;

impl TryFrom<IType> for OpType {
    type Error = InvalidITypeError;

    fn try_from(value: IType) -> (r: Result<Self, Self::Error>) {
        match value {
            IType::Add { .. } => Ok(OpType::Add),
            IType::Sub { .. } => Ok(OpType::Sub),
            IType::Mul { .. } => Ok(OpType::Mul),
            IType::Div { .. } => Ok(OpType::Div),
            _ => Err(InvalidITypeError),
        }
    }
}

impl TryFromSpecImpl<IType> for OpType {
    open spec fn obeys_try_from_spec() -> bool {
        true
    }

    open spec fn try_from_spec(value: IType) -> Result<Self, Self::Error> {
        match value.op_class() {
            Some(op) => Ok(op),
            None => Err(InvalidITypeError),
        }
    }
}

/// The kind of an instruction, with its operands.
#[allow(inconsistent_fields)]
#[derive(Debug, Clone, Copy)]
pub enum IType {
    Const(isize),
    Add { inst1: Slot, inst2: Slot },
    Sub { inst1: Slot, inst2: Slot },
    Mul { inst1: Slot, inst2: Slot },
    Div { inst1: Slot, inst2: Slot },
    Cmp { inst1: Slot, inst2: Slot },
    Phi { inst1: Slot, inst2: Slot, var: usize },
    End,
    Bra { block: usize },
    Bne { inst: usize, block: Option<usize> },
    Beq { inst: usize, block: Option<usize> },
    Ble { inst: usize, block: Option<usize> },
    Blt { inst: usize, block: Option<usize> },
    Bge { inst: usize, block: Option<usize> },
    Bgt { inst: usize, block: Option<usize> },
    // User defined functions
    Jsr { block: usize },
    Ret { inst: Option<Slot> },
    GetPar1,
    GetPar2,
    GetPar3,
    SetPar1 { inst: Slot },
    SetPar2 { inst: Slot },
    SetPar3 { inst: Slot },
    // Builtins
    Read,
    Write { inst: Slot },
    WriteNL,
    // Placeholders
    Assignment { var: usize, dep_var: Option<usize> },
    Empty,
}

/// A slot whose value was read from `var` is redirected to `phi`; any other
/// slot is kept.
pub open spec fn retag_slot(slot: Slot, var: usize, phi: usize) -> Slot {
    if slot.1 == Some(var) {
        (phi, Some(var))
    } else {
        slot
    }
}

/// An instruction id `from` becomes `to`; any other id is kept.
pub open spec fn rename_id(id: usize, from: usize, to: usize) -> usize {
    if id == from {
        to
    } else {
        id
    }
}

/// A slot that holds `from` holds `to` instead, under the same variable tag.
pub open spec fn rename_slot(slot: Slot, from: usize, to: usize) -> Slot {
    (rename_id(slot.0, from, to), slot.1)
}

fn retag(slot: Slot, var: usize, phi: usize) -> (r: Slot)
    ensures
        r == retag_slot(slot, var, phi),
{
    match slot.1 {
        Some(v) => if v == var {
            (phi, Some(var))
        } else {
            slot
        },
        None => slot,
    }
}

fn rename(slot: Slot, from: usize, to: usize) -> (r: Slot)
    ensures
        r == rename_slot(slot, from, to),
{
    if slot.0 == from {
        (to, slot.1)
    } else {
        slot
    }
}

impl IType {
    /// The operation class of an arithmetic instruction.
    pub open spec fn op_class(self) -> Option<OpType> {
        match self {
            IType::Add { .. } => Some(OpType::Add),
            IType::Sub { .. } => Some(OpType::Sub),
            IType::Mul { .. } => Some(OpType::Mul),
            IType::Div { .. } => Some(OpType::Div),
            _ => None,
        }
    }

    /// Whether this is one of the six conditional branches.
    pub open spec fn is_cond_branch(self) -> bool {
        self is Bne || self is Beq || self is Ble || self is Blt || self is Bge || self is Bgt
    }

    /// The operand slots of the instruction, in order. A branch's condition
    /// is no slot: it carries no variable tag.
    pub open spec fn slots(self) -> Seq<Slot> {
        match self {
            IType::Add { inst1, inst2 } => seq![inst1, inst2],
            IType::Sub { inst1, inst2 } => seq![inst1, inst2],
            IType::Mul { inst1, inst2 } => seq![inst1, inst2],
            IType::Div { inst1, inst2 } => seq![inst1, inst2],
            IType::Cmp { inst1, inst2 } => seq![inst1, inst2],
            IType::Phi { inst1, inst2, .. } => seq![inst1, inst2],
            IType::Ret { inst: Some(inst) } => seq![inst],
            IType::SetPar1 { inst } => seq![inst],
            IType::SetPar2 { inst } => seq![inst],
            IType::SetPar3 { inst } => seq![inst],
            IType::Write { inst } => seq![inst],
            _ => Seq::empty(),
        }
    }

    /// The instruction with every operand slot replaced by its image under
    /// `f`; everything else is kept.
    pub open spec fn map_slots(self, f: spec_fn(Slot) -> Slot) -> IType {
        match self {
            IType::Add { inst1, inst2 } => IType::Add { inst1: f(inst1), inst2: f(inst2) },
            IType::Sub { inst1, inst2 } => IType::Sub { inst1: f(inst1), inst2: f(inst2) },
            IType::Mul { inst1, inst2 } => IType::Mul { inst1: f(inst1), inst2: f(inst2) },
            IType::Div { inst1, inst2 } => IType::Div { inst1: f(inst1), inst2: f(inst2) },
            IType::Cmp { inst1, inst2 } => IType::Cmp { inst1: f(inst1), inst2: f(inst2) },
            IType::Phi { inst1, inst2, var } => IType::Phi { inst1: f(inst1), inst2: f(inst2), var },
            IType::Ret { inst: Some(inst) } => IType::Ret { inst: Some(f(inst)) },
            IType::SetPar1 { inst } => IType::SetPar1 { inst: f(inst) },
            IType::SetPar2 { inst } => IType::SetPar2 { inst: f(inst) },
            IType::SetPar3 { inst } => IType::SetPar3 { inst: f(inst) },
            IType::Write { inst } => IType::Write { inst: f(inst) },
            _ => self,
        }
    }

    /// The condition that a conditional branch tests.
    pub open spec fn cond(self) -> Option<usize> {
        match self {
            IType::Bne { inst, .. } => Some(inst),
            IType::Beq { inst, .. } => Some(inst),
            IType::Ble { inst, .. } => Some(inst),
            IType::Blt { inst, .. } => Some(inst),
            IType::Bge { inst, .. } => Some(inst),
            IType::Bgt { inst, .. } => Some(inst),
            _ => None,
        }
    }

    /// The block that a jump names: the target of a branch, once it is
    /// set, or the entry of a called function.
    pub open spec fn target(self) -> Option<usize> {
        match self {
            IType::Bra { block } => Some(block),
            IType::Jsr { block } => Some(block),
            IType::Bne { block, .. } => block,
            IType::Beq { block, .. } => block,
            IType::Ble { block, .. } => block,
            IType::Blt { block, .. } => block,
            IType::Bge { block, .. } => block,
            IType::Bgt { block, .. } => block,
            _ => None,
        }
    }

    /// Whether some operand of the instruction, a slot or a branch
    /// condition, is the instruction `id`.
    pub open spec fn uses(self, id: usize) -> bool {
        self.cond() == Some(id) || exists|i: int| 0 <= i < self.slots().len() && #[trigger] self.slots()[i].0 == id
    }

    /// Whether every operand of the instruction, in a slot or as a branch
    /// condition, is an id below `n`.
    pub open spec fn operands_below(self, n: int) -> bool {
        match self {
            IType::Add { inst1, inst2 } => inst1.0 < n && inst2.0 < n,
            IType::Sub { inst1, inst2 } => inst1.0 < n && inst2.0 < n,
            IType::Mul { inst1, inst2 } => inst1.0 < n && inst2.0 < n,
            IType::Div { inst1, inst2 } => inst1.0 < n && inst2.0 < n,
            IType::Cmp { inst1, inst2 } => inst1.0 < n && inst2.0 < n,
            IType::Phi { inst1, inst2, .. } => inst1.0 < n && inst2.0 < n,
            IType::Ret { inst: Some(inst) } => inst.0 < n,
            IType::SetPar1 { inst } => inst.0 < n,
            IType::SetPar2 { inst } => inst.0 < n,
            IType::SetPar3 { inst } => inst.0 < n,
            IType::Write { inst } => inst.0 < n,
            IType::Bne { inst, .. } => inst < n,
            IType::Beq { inst, .. } => inst < n,
            IType::Ble { inst, .. } => inst < n,
            IType::Blt { inst, .. } => inst < n,
            IType::Bge { inst, .. } => inst < n,
            IType::Bgt { inst, .. } => inst < n,
            _ => true,
        }
    }

    /// The branch with its target set to `block`.
    pub open spec fn spec_branch_block(self, block: usize) -> IType {
        match self {
            IType::Bne { inst, .. } => IType::Bne { inst, block: Some(block) },
            IType::Beq { inst, .. } => IType::Beq { inst, block: Some(block) },
            IType::Ble { inst, .. } => IType::Ble { inst, block: Some(block) },
            IType::Blt { inst, .. } => IType::Blt { inst, block: Some(block) },
            IType::Bge { inst, .. } => IType::Bge { inst, block: Some(block) },
            IType::Bgt { inst, .. } => IType::Bgt { inst, block: Some(block) },
            _ => self,
        }
    }

    /// What `into` returns: every slot read from `var` redirected to `phi`.
    pub open spec fn spec_into(self, var: usize, phi: usize) -> IType {
        self.map_slots(|s: Slot| retag_slot(s, var, phi))
    }

    /// What `update_phi` returns on a phi: the operand of the arm named by
    /// `frame_status` set to `inst`, under its old variable tag.
    pub open spec fn spec_update_phi(self, inst: usize, frame_status: FrameStatus) -> IType {
        match self {
            IType::Phi { inst1, inst2, var } => match frame_status {
                FrameStatus::FallThrough => IType::Phi { inst1: (inst, inst1.1), inst2, var },
                FrameStatus::Follow => IType::Phi { inst1, inst2: (inst, inst2.1), var },
            },
            _ => self,
        }
    }

    /// What `update_inst` returns: every operand `from`, in a slot or as a
    /// branch condition, replaced by `to`.
    pub open spec fn spec_update_inst(self, from: usize, to: usize) -> IType {
        match self {
            IType::Bne { inst, block } => IType::Bne { inst: rename_id(inst, from, to), block },
            IType::Beq { inst, block } => IType::Beq { inst: rename_id(inst, from, to), block },
            IType::Ble { inst, block } => IType::Ble { inst: rename_id(inst, from, to), block },
            IType::Blt { inst, block } => IType::Blt { inst: rename_id(inst, from, to), block },
            IType::Bge { inst, block } => IType::Bge { inst: rename_id(inst, from, to), block },
            IType::Bgt { inst, block } => IType::Bgt { inst: rename_id(inst, from, to), block },
            _ => self.map_slots(|s: Slot| rename_slot(s, from, to)),
        }
    }

    /// Equality of instructions for common-subexpression lookup: the kinds
    /// match, with what a kind holds besides operands (a constant's value,
    /// a jump's target, the variable of a phi or of an assignment marker),
    /// and the operand ids match position by position. The variable tags
    /// of operands are never compared.
    pub open spec fn class_eq(self, other: IType) -> bool {
        match (self, other) {
            (IType::Const(a), IType::Const(b)) => a == b,
            (IType::Add { inst1: a1, inst2: a2 }, IType::Add { inst1: b1, inst2: b2 }) => a1.0 == b1.0 && a2.0 == b2.0,
            (IType::Sub { inst1: a1, inst2: a2 }, IType::Sub { inst1: b1, inst2: b2 }) => a1.0 == b1.0 && a2.0 == b2.0,
            (IType::Mul { inst1: a1, inst2: a2 }, IType::Mul { inst1: b1, inst2: b2 }) => a1.0 == b1.0 && a2.0 == b2.0,
            (IType::Div { inst1: a1, inst2: a2 }, IType::Div { inst1: b1, inst2: b2 }) => a1.0 == b1.0 && a2.0 == b2.0,
            (IType::Cmp { inst1: a1, inst2: a2 }, IType::Cmp { inst1: b1, inst2: b2 }) => a1.0 == b1.0 && a2.0 == b2.0,
            (IType::Phi { inst1: a1, inst2: a2, var: av }, IType::Phi { inst1: b1, inst2: b2, var: bv }) => a1.0 == b1.0 && a2.0 == b2.0 && av == bv,
            (IType::End, IType::End) => true,
            (IType::Bra { block: a }, IType::Bra { block: b }) => a == b,
            (IType::Bne { inst: ai, block: ab }, IType::Bne { inst: bi, block: bb }) => ai == bi && ab == bb,
            (IType::Beq { inst: ai, block: ab }, IType::Beq { inst: bi, block: bb }) => ai == bi && ab == bb,
            (IType::Ble { inst: ai, block: ab }, IType::Ble { inst: bi, block: bb }) => ai == bi && ab == bb,
            (IType::Blt { inst: ai, block: ab }, IType::Blt { inst: bi, block: bb }) => ai == bi && ab == bb,
            (IType::Bge { inst: ai, block: ab }, IType::Bge { inst: bi, block: bb }) => ai == bi && ab == bb,
            (IType::Bgt { inst: ai, block: ab }, IType::Bgt { inst: bi, block: bb }) => ai == bi && ab == bb,
            (IType::Jsr { block: a }, IType::Jsr { block: b }) => a == b,
            (IType::Ret { inst: Some(a) }, IType::Ret { inst: Some(b) }) => a.0 == b.0,
            (IType::Ret { inst: None }, IType::Ret { inst: None }) => true,
            (IType::GetPar1, IType::GetPar1) => true,
            (IType::GetPar2, IType::GetPar2) => true,
            (IType::GetPar3, IType::GetPar3) => true,
            (IType::SetPar1 { inst: a }, IType::SetPar1 { inst: b }) => a.0 == b.0,
            (IType::SetPar2 { inst: a }, IType::SetPar2 { inst: b }) => a.0 == b.0,
            (IType::SetPar3 { inst: a }, IType::SetPar3 { inst: b }) => a.0 == b.0,
            (IType::Write { inst: a }, IType::Write { inst: b }) => a.0 == b.0,
            (IType::Read, IType::Read) => true,
            (IType::WriteNL, IType::WriteNL) => true,
            (IType::Assignment { var: a, .. }, IType::Assignment { var: b, .. }) => a == b,
            (IType::Empty, IType::Empty) => true,
            _ => false,
        }
    }

    /// Sets the target of a conditional branch.
    pub fn branch_block(&self, block: usize) -> (r: Self)
        requires
            self.is_cond_branch(),
        ensures
            r == self.spec_branch_block(block),
            r.is_cond_branch(),
            r.cond() == self.cond(),
    {
        match *self {
            IType::Bne { inst, .. } => IType::Bne { inst, block: Some(block) },
            IType::Beq { inst, .. } => IType::Beq { inst, block: Some(block) },
            IType::Ble { inst, .. } => IType::Ble { inst, block: Some(block) },
            IType::Blt { inst, .. } => IType::Blt { inst, block: Some(block) },
            IType::Bge { inst, .. } => IType::Bge { inst, block: Some(block) },
            IType::Bgt { inst, .. } => IType::Bgt { inst, block: Some(block) },
            itype => itype,
        }
    }

    /// Redirects to `phi` every operand slot that was read from `var`.
    pub fn into(self, var: usize, phi: usize) -> (r: IType)
        ensures
            r == self.spec_into(var, phi),
    {
        match self {
            IType::Phi { inst1, inst2, var: v } => {
                let inst1 = retag(inst1, var, phi);
                let inst2 = retag(inst2, var, phi);
                IType::Phi { inst1, inst2, var: v }
            },
            IType::Add { inst1, inst2 } => {
                let inst1 = retag(inst1, var, phi);
                let inst2 = retag(inst2, var, phi);
                IType::Add { inst1, inst2 }
            },
            IType::Sub { inst1, inst2 } => {
                let inst1 = retag(inst1, var, phi);
                let inst2 = retag(inst2, var, phi);
                IType::Sub { inst1, inst2 }
            },
            IType::Mul { inst1, inst2 } => {
                let inst1 = retag(inst1, var, phi);
                let inst2 = retag(inst2, var, phi);
                IType::Mul { inst1, inst2 }
            },
            IType::Div { inst1, inst2 } => {
                let inst1 = retag(inst1, var, phi);
                let inst2 = retag(inst2, var, phi);
                IType::Div { inst1, inst2 }
            },
            IType::Cmp { inst1, inst2 } => {
                let inst1 = retag(inst1, var, phi);
                let inst2 = retag(inst2, var, phi);
                IType::Cmp { inst1, inst2 }
            },
            IType::Ret { inst } => {
                let inst = match inst {
                    Some(slot) => Some(retag(slot, var, phi)),
                    None => None,
                };
                IType::Ret { inst }
            },
            IType::SetPar1 { inst } => {
                let inst = retag(inst, var, phi);
                IType::SetPar1 { inst }
            },
            IType::SetPar2 { inst } => {
                let inst = retag(inst, var, phi);
                IType::SetPar2 { inst }
            },
            IType::SetPar3 { inst } => {
                let inst = retag(inst, var, phi);
                IType::SetPar3 { inst }
            },
            IType::Write { inst } => {
                let inst = retag(inst, var, phi);
                IType::Write { inst }
            },
            itype => itype,
        }
    }

    /// Sets the operand of a phi for the arm named by `frame_status`.
    pub fn update_phi(self, inst: usize, frame_status: FrameStatus) -> (r: IType)
        requires
            self is Phi,
        ensures
            r == self.spec_update_phi(inst, frame_status),
            r is Phi,
    {
        match self {
            IType::Phi { inst1, inst2, var } => match frame_status {
                FrameStatus::FallThrough => IType::Phi { inst1: (inst, inst1.1), inst2, var },
                FrameStatus::Follow => IType::Phi { inst1, inst2: (inst, inst2.1), var },
            },
            itype => itype,
        }
    }

    /// Replaces the operand `from_inst` by `to_inst` wherever it stands.
    pub fn update_inst(self, from_inst: usize, to_inst: usize) -> (r: IType)
        ensures
            r == self.spec_update_inst(from_inst, to_inst),
            from_inst != to_inst ==> !r.uses(from_inst),
    {
        let r = match self {
            IType::Phi { inst1, inst2, var } => {
                let inst1 = rename(inst1, from_inst, to_inst);
                let inst2 = rename(inst2, from_inst, to_inst);
                IType::Phi { inst1, inst2, var }
            },
            IType::Add { inst1, inst2 } => {
                let inst1 = rename(inst1, from_inst, to_inst);
                let inst2 = rename(inst2, from_inst, to_inst);
                IType::Add { inst1, inst2 }
            },
            IType::Sub { inst1, inst2 } => {
                let inst1 = rename(inst1, from_inst, to_inst);
                let inst2 = rename(inst2, from_inst, to_inst);
                IType::Sub { inst1, inst2 }
            },
            IType::Mul { inst1, inst2 } => {
                let inst1 = rename(inst1, from_inst, to_inst);
                let inst2 = rename(inst2, from_inst, to_inst);
                IType::Mul { inst1, inst2 }
            },
            IType::Div { inst1, inst2 } => {
                let inst1 = rename(inst1, from_inst, to_inst);
                let inst2 = rename(inst2, from_inst, to_inst);
                IType::Div { inst1, inst2 }
            },
            IType::Cmp { inst1, inst2 } => {
                let inst1 = rename(inst1, from_inst, to_inst);
                let inst2 = rename(inst2, from_inst, to_inst);
                IType::Cmp { inst1, inst2 }
            },
            IType::Ret { inst } => {
                let inst = match inst {
                    Some(slot) => Some(rename(slot, from_inst, to_inst)),
                    None => None,
                };
                IType::Ret { inst }
            },
            IType::SetPar1 { inst } => {
                let inst = rename(inst, from_inst, to_inst);
                IType::SetPar1 { inst }
            },
            IType::SetPar2 { inst } => {
                let inst = rename(inst, from_inst, to_inst);
                IType::SetPar2 { inst }
            },
            IType::SetPar3 { inst } => {
                let inst = rename(inst, from_inst, to_inst);
                IType::SetPar3 { inst }
            },
            IType::Write { inst } => {
                let inst = rename(inst, from_inst, to_inst);
                IType::Write { inst }
            },
            IType::Bne { inst, block } => {
                let inst = if inst == from_inst { to_inst } else { inst };
                IType::Bne { inst, block }
            },
            IType::Beq { inst, block } => {
                let inst = if inst == from_inst { to_inst } else { inst };
                IType::Beq { inst, block }
            },
            IType::Ble { inst, block } => {
                let inst = if inst == from_inst { to_inst } else { inst };
                IType::Ble { inst, block }
            },
            IType::Blt { inst, block } => {
                let inst = if inst == from_inst { to_inst } else { inst };
                IType::Blt { inst, block }
            },
            IType::Bge { inst, block } => {
                let inst = if inst == from_inst { to_inst } else { inst };
                IType::Bge { inst, block }
            },
            IType::Bgt { inst, block } => {
                let inst = if inst == from_inst { to_inst } else { inst };
                IType::Bgt { inst, block }
            },
            itype => itype,
        };
        proof {
            if from_inst != to_inst {
                lemma_rename_drops_operand(self, from_inst, to_inst);
            }
        }
        r
    }
}

/// After `from` is renamed to another id, the instruction no longer has
/// `from` as an operand.
pub proof fn lemma_rename_drops_operand(itype: IType, from: usize, to: usize)
    requires
        from != to,
    ensures
        !itype.spec_update_inst(from, to).uses(from),
{
}

/// Renaming keeps the kind of the instruction and what it holds besides
/// operand ids.
pub proof fn lemma_rename_keeps_kind(itype: IType, from: usize, to: usize)
    ensures
        itype.spec_update_inst(from, to).op_class() == itype.op_class(),
        itype.spec_update_inst(from, to) is Phi <==> itype is Phi,
        itype.spec_update_inst(from, to) is Const <==> itype is Const,
        itype.spec_update_inst(from, to) is Assignment <==> itype is Assignment,
        itype is Const ==> itype.spec_update_inst(from, to) == itype,
        itype.spec_update_inst(from, to).target() == itype.target(),
        itype.spec_update_inst(from, to).is_cond_branch() == itype.is_cond_branch(),
        itype matches IType::Phi { var, .. } ==> (itype.spec_update_inst(from, to) matches IType::Phi {
            var: v,
            ..
        } && v == var),
        forall|n: int|
            to < n && itype.operands_below(n) ==> #[trigger] itype.spec_update_inst(
                from,
                to,
            ).operands_below(n),
{
}

/// An instruction's operands are below `n` exactly when every id that it
/// uses is.
pub proof fn lemma_operands_below(itype: IType, n: int)
    ensures
        itype.operands_below(n) <==> forall|id: usize| itype.uses(id) ==> id < n,
{
    if itype.operands_below(n) {
        assert forall|id: usize| itype.uses(id) implies id < n by {
            if itype.cond() != Some(id) {
                let i = choose|i: int| 0 <= i < itype.slots().len() && itype.slots()[i].0 == id;
            }
        }
    }
    if forall|id: usize| itype.uses(id) ==> id < n {
        match itype {
            IType::Add { inst1, inst2 } | IType::Sub { inst1, inst2 } | IType::Mul { inst1, inst2 }
            | IType::Div { inst1, inst2 } | IType::Cmp { inst1, inst2 } | IType::Phi {
                inst1,
                inst2,
                ..
            } => {
                assert(itype.slots()[0].0 == inst1.0);
                assert(itype.slots()[1].0 == inst2.0);
                assert(itype.uses(inst1.0));
                assert(itype.uses(inst2.0));
            },
            IType::Ret { inst: Some(inst) } | IType::SetPar1 { inst } | IType::SetPar2 { inst }
            | IType::SetPar3 { inst } | IType::Write { inst } => {
                assert(itype.slots()[0].0 == inst.0);
                assert(itype.uses(inst.0));
            },
            IType::Bne { inst, .. } | IType::Beq { inst, .. } | IType::Ble { inst, .. }
            | IType::Blt { inst, .. } | IType::Bge { inst, .. } | IType::Bgt { inst, .. } => {
                assert(itype.uses(inst));
            },
            _ => {},
        }
    }
}

impl PartialEq for IType {
    fn eq(&self, other: &Self) -> (r: bool) {
        match self {
            IType::Const(val) => {
                if let IType::Const(v) = other {
                    *val == *v
                } else {
                    false
                }
            },
            IType::Add { inst1, inst2 } => {
                if let IType::Add { inst1: i1, inst2: i2 } = other {
                    inst1.0 == i1.0 && inst2.0 == i2.0
                } else {
                    false
                }
            },
            IType::Sub { inst1, inst2 } => {
                if let IType::Sub { inst1: i1, inst2: i2 } = other {
                    inst1.0 == i1.0 && inst2.0 == i2.0
                } else {
                    false
                }
            },
            IType::Mul { inst1, inst2 } => {
                if let IType::Mul { inst1: i1, inst2: i2 } = other {
                    inst1.0 == i1.0 && inst2.0 == i2.0
                } else {
                    false
                }
            },
            IType::Div { inst1, inst2 } => {
                if let IType::Div { inst1: i1, inst2: i2 } = other {
                    inst1.0 == i1.0 && inst2.0 == i2.0
                } else {
                    false
                }
            },
            IType::Cmp { inst1, inst2 } => {
                if let IType::Cmp { inst1: i1, inst2: i2 } = other {
                    inst1.0 == i1.0 && inst2.0 == i2.0
                } else {
                    false
                }
            },
            IType::Phi { inst1, inst2, var } => {
                if let IType::Phi { inst1: i1, inst2: i2, var: v } = other {
                    inst1.0 == i1.0 && inst2.0 == i2.0 && *var == *v
                } else {
                    false
                }
            },
            IType::End => matches!(other, IType::End),
            IType::Bra { block } => {
                if let IType::Bra { block: b } = other {
                    *block == *b
                } else {
                    false
                }
            },
            IType::Bne { inst, block } => {
                if let IType::Bne { inst: i, block: b } = other {
                    *inst == *i && opt_eq(*block, *b)
                } else {
                    false
                }
            },
            IType::Beq { inst, block } => {
                if let IType::Beq { inst: i, block: b } = other {
                    *inst == *i && opt_eq(*block, *b)
                } else {
                    false
                }
            },
            IType::Ble { inst, block } => {
                if let IType::Ble { inst: i, block: b } = other {
                    *inst == *i && opt_eq(*block, *b)
                } else {
                    false
                }
            },
            IType::Blt { inst, block } => {
                if let IType::Blt { inst: i, block: b } = other {
                    *inst == *i && opt_eq(*block, *b)
                } else {
                    false
                }
            },
            IType::Bge { inst, block } => {
                if let IType::Bge { inst: i, block: b } = other {
                    *inst == *i && opt_eq(*block, *b)
                } else {
                    false
                }
            },
            IType::Bgt { inst, block } => {
                if let IType::Bgt { inst: i, block: b } = other {
                    *inst == *i && opt_eq(*block, *b)
                } else {
                    false
                }
            },
            IType::Jsr { block } => {
                if let IType::Jsr { block: b } = other {
                    *block == *b
                } else {
                    false
                }
            },
            IType::Ret { inst } => {
                if let IType::Ret { inst: i } = other {
                    match (inst, i) {
                        (Some(a), Some(b)) => a.0 == b.0,
                        (None, None) => true,
                        _ => false,
                    }
                } else {
                    false
                }
            },
            IType::GetPar1 => matches!(other, IType::GetPar1),
            IType::GetPar2 => matches!(other, IType::GetPar2),
            IType::GetPar3 => matches!(other, IType::GetPar3),
            IType::SetPar1 { inst } => {
                if let IType::SetPar1 { inst: i } = other {
                    inst.0 == i.0
                } else {
                    false
                }
            },
            IType::SetPar2 { inst } => {
                if let IType::SetPar2 { inst: i } = other {
                    inst.0 == i.0
                } else {
                    false
                }
            },
            IType::SetPar3 { inst } => {
                if let IType::SetPar3 { inst: i } = other {
                    inst.0 == i.0
                } else {
                    false
                }
            },
            IType::Write { inst } => {
                if let IType::Write { inst: i } = other {
                    inst.0 == i.0
                } else {
                    false
                }
            },
            IType::Read => matches!(other, IType::Read),
            IType::WriteNL => matches!(other, IType::WriteNL),
            IType::Assignment { var, .. } => {
                if let IType::Assignment { var: v, .. } = other {
                    *var == *v
                } else {
                    false
                }
            },
            IType::Empty => matches!(other, IType::Empty),
        }
    }
}

impl PartialEqSpecImpl for IType {
    open spec fn obeys_eq_spec() -> bool {
        true
    }

    open spec fn eq_spec(&self, other: &Self) -> bool {
        self.class_eq(*other)
    }
}

fn opt_eq(a: Option<usize>, b: Option<usize>) -> (r: bool)
    ensures
        r == (a == b),
{
    match (a, b) {
        (Some(x), Some(y)) => x == y,
        (None, None) => true,
        _ => false,
    }
}

/// An operand as the parser sees it before it is materialised: a literal,
/// the value of an instruction, or a variable still to be looked up.
#[derive(Debug, PartialEq, Clone, Copy)]
pub enum Operand {
    Const(isize),
    Inst(usize),
    Var(usize),
}

} // verus!
