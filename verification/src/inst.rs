//! Instructions and the store that holds them.
use vstd::prelude::*;
use crate::frame::FrameStatus;
use crate::itype::IType;

verus! {

/// One SSA instruction: its id, which is its position in the store and its
/// name; its kind; the nearest earlier instruction of the same operation
/// class that dominates it; and the block that owns it.
#[derive(Debug, PartialEq, Clone, Copy)]
pub struct Inst {
    pub id: usize,
    pub itype: IType,
    pub dom: Option<usize>,
    pub block: Option<usize>,
}

impl Inst {
    /// The same instruction with another kind.
    pub open spec fn with_itype(self, itype: IType) -> Inst {
        Inst { itype, ..self }
    }

    pub fn new(id: usize, instruction: IType, dom: Option<usize>, block: Option<usize>) -> (r:
        Inst)
        ensures
            r == (Inst { id, itype: instruction, dom, block }),
    {
        Inst { id, itype: instruction, dom, block }
    }

    pub fn id(&self) -> (r: usize)
        ensures
            r == self.id,
    {
        self.id
    }

    pub fn dom(&self) -> (r: Option<usize>)
        ensures
            r == self.dom,
    {
        self.dom
    }

    pub fn itype(&self) -> (r: IType)
        ensures
            r == self.itype,
    {
        self.itype
    }

    pub fn block(&self) -> (r: Option<usize>)
        ensures
            r == self.block,
    {
        self.block
    }

    /// Sets the first operand of a phi, the one of the fall-through arm.
    pub fn set_fall_through(&mut self, block: usize)
        requires
            old(self).itype is Phi,
        ensures
            *final(self) == old(self).with_itype(
                old(self).itype.spec_update_phi(block, FrameStatus::FallThrough),
            ),
    {
        self.itype = self.itype.update_phi(block, FrameStatus::FallThrough);
    }

    /// Sets the second operand of a phi, the one of the follow arm or of a
    /// loop's back edge.
    pub fn set_follow(&mut self, block: usize)
        requires
            old(self).itype is Phi,
        ensures
            *final(self) == old(self).with_itype(
                old(self).itype.spec_update_phi(block, FrameStatus::Follow),
            ),
    {
        self.itype = self.itype.update_phi(block, FrameStatus::Follow);
    }

    /// Redirects to `phi` every operand that was read from `var`.
    pub fn update_phi(&mut self, var: usize, phi: usize)
        ensures
            *final(self) == old(self).with_itype(old(self).itype.spec_into(var, phi)),
    {
        self.itype = self.itype.into(var, phi);
    }

    /// Sets the operand of a phi for the arm named by `frame_status`.
    pub fn propagate_phi(&mut self, inst: usize, frame_status: FrameStatus)
        requires
            old(self).itype is Phi,
        ensures
            *final(self) == old(self).with_itype(
                old(self).itype.spec_update_phi(inst, frame_status),
            ),
    {
        self.itype = self.itype.update_phi(inst, frame_status);
    }

    /// Replaces the operand `from_inst` by `to_inst`.
    pub fn update_inst(&mut self, from_inst: usize, to_inst: usize)
        ensures
            *final(self) == old(self).with_itype(
                old(self).itype.spec_update_inst(from_inst, to_inst),
            ),
    {
        self.itype = self.itype.update_inst(from_inst, to_inst);
    }
}

/// The first instruction on the chain of dominating links that starts at
/// `idx` whose kind equals `itype` for common-subexpression lookup.
pub open spec fn chain_match(insts: Seq<Inst>, itype: IType, idx: Option<usize>) -> Option<usize>
    decreases
        (match idx {
            Some(i) => i + 1,
            None => 0,
        }),
{
    match idx {
        None => None,
        Some(i) => if i >= insts.len() {
            None
        } else if itype.class_eq(insts[i as int].itype) {
            Some(i)
        } else {
            match insts[i as int].dom {
                Some(d) => if d < i {
                    chain_match(insts, itype, Some(d))
                } else {
                    None
                },
                None => None,
            }
        },
    }
}

/// The append-only store of instructions.
#[derive(Debug, PartialEq, Clone)]
pub struct InstList {
    pub instructions: Vec<Inst>,
    pub inst_count: usize,
}

impl InstList {
    /// The store's invariant: the counter is the number of instructions,
    /// each instruction's id is its position, and each dominating link
    /// points to a strictly earlier instruction.
    pub open spec fn wf(&self) -> bool {
        &&& self.inst_count == self.instructions@.len()
        &&& forall|i: int|
            0 <= i < self.instructions@.len() ==> {
                &&& (#[trigger] self.instructions@[i]).id == i
                &&& (self.instructions@[i].dom matches Some(d) ==> d < i)
            }
    }

    pub fn new() -> (r: InstList)
        ensures
            r.wf(),
            r.instructions@.len() == 0,
    {
        InstList { instructions: Vec::new(), inst_count: 0 }
    }

    /// Appends an instruction and returns its id.
    pub fn add(&mut self, itype: IType, dom: Option<usize>, block: Option<usize>) -> (r: usize)
        requires
            old(self).wf(),
            dom matches Some(d) ==> d < old(self).instructions@.len(),
        ensures
            final(self).wf(),
            r == old(self).instructions@.len(),
            final(self).instructions@ == old(self).instructions@.push(
                Inst { id: r, itype, dom, block },
            ),
            final(self).inst_count == r + 1,
            final(self).instructions@.len() == r + 1,
            forall|i: int|
                0 <= i < r ==> final(self).instructions@[i] == old(self).instructions@[i],
            forall|i: int| 0 <= i <= r ==> (#[trigger] final(self).instructions@[i]).id == i,
    {
        let inst_id: usize = self.inst_count;
        let inst = Inst::new(inst_id, itype, dom, block);
        self.instructions.push(inst);
        self.inst_count = self.instructions.len();
        inst_id
    }

    pub fn get(&self, idx: usize) -> (r: &Inst)
        requires
            idx < self.instructions@.len(),
        ensures
            *r == self.instructions@[idx as int],
    {
        &self.instructions[idx]
    }

    pub fn get_mut(&mut self, idx: usize) -> (r: &mut Inst)
        requires
            idx < old(self).instructions@.len(),
        ensures
            *r == old(self).instructions@[idx as int],
            final(self).instructions@ == old(self).instructions@.update(idx as int, *final(r)),
            final(self).inst_count == old(self).inst_count,
    {
        &mut self.instructions[idx]
    }

    /// Walks the chain of dominating links from `start` and returns the first
    /// instruction whose kind equals `itype`.
    pub fn get_matching_inst(&self, itype: IType, start: usize) -> (r: Option<usize>)
        requires
            self.wf(),
            start < self.instructions@.len(),
        ensures
            r == chain_match(self.instructions@, itype, Some(start)),
            r matches Some(m) ==> m <= start && itype.class_eq(self.instructions@[m as int].itype),
    {
        self.find_inst(itype, Some(start))
    }

    fn find_inst(&self, itype: IType, idx: Option<usize>) -> (r: Option<usize>)
        requires
            self.wf(),
            idx matches Some(i) ==> i < self.instructions@.len(),
        ensures
            r == chain_match(self.instructions@, itype, idx),
            r matches Some(m) ==> idx matches Some(i) && m <= i && itype.class_eq(
                self.instructions@[m as int].itype,
            ),
        decreases
            (match idx {
                Some(i) => i + 1,
                None => 0,
            }),
    {
        match idx {
            None => None,
            Some(i) => {
                let inst = self.get(i);
                if itype == inst.itype() {
                    return idx;
                }
                self.find_inst(itype, inst.dom())
            },
        }
    }

    /// Rewrites every operand `from_inst` to `to_inst`, on every instruction.
    pub fn rename_inst(&mut self, from_inst: usize, to_inst: usize)
        ensures
            final(self).inst_count == old(self).inst_count,
            final(self).instructions@.len() == old(self).instructions@.len(),
            forall|i: int|
                0 <= i < old(self).instructions@.len() ==> #[trigger] final(self).instructions@[i]
                    == old(self).instructions@[i].with_itype(
                    old(self).instructions@[i].itype.spec_update_inst(from_inst, to_inst),
                ),
            from_inst != to_inst ==> forall|i: int|
                0 <= i < final(self).instructions@.len() ==> !(#[trigger] final(self).instructions@[i]).itype.uses(from_inst),
            old(self).wf() ==> final(self).wf(),
    {
        let n: usize = self.instructions.len();
        let mut k: usize = 0;
        while k < n
            invariant
                k <= n,
                n == self.instructions@.len(),
                n == old(self).instructions@.len(),
                self.inst_count == old(self).inst_count,
                forall|i: int|
                    0 <= i < k ==> #[trigger] self.instructions@[i] == old(self).instructions@[i].with_itype(
                        old(self).instructions@[i].itype.spec_update_inst(from_inst, to_inst),
                    ),
                forall|i: int| k <= i < n ==> self.instructions@[i] == old(self).instructions@[i],
            decreases n - k,
        {
            self.instructions[k].update_inst(from_inst, to_inst);
            k = k + 1;
        }
        proof {
            if from_inst != to_inst {
                assert forall|i: int| 0 <= i < self.instructions@.len() implies !(
                #[trigger] self.instructions@[i]).itype.uses(from_inst) by {
                    crate::itype::lemma_rename_drops_operand(
                        old(self).instructions@[i].itype,
                        from_inst,
                        to_inst,
                    );
                }
            }
        }
    }

    /// Detaches an instruction from its block: it is eliminated.
    pub fn remove_block(&mut self, inst_id: usize)
        requires
            inst_id < old(self).instructions@.len(),
        ensures
            final(self).instructions@ == old(self).instructions@.update(
                inst_id as int,
                Inst { block: None, ..old(self).instructions@[inst_id as int] },
            ),
            final(self).inst_count == old(self).inst_count,
            old(self).wf() ==> final(self).wf(),
    {
        self.get_mut(inst_id).block = None;
    }
}

} // verus!
