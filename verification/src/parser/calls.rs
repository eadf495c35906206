//! The emission of calls.
use vstd::prelude::*;
use crate::itype::{IType, Operand, Slot};
use crate::parser::Parser;
use crate::state::lemma_all_reach_settled;
use crate::tokenizer_data::{
    PREDEFINED_INPUTNUM_ID, PREDEFINED_OUTPUTNEWLINE_ID, PREDEFINED_OUTPUTNUM_ID,
};

verus! {

impl Parser {
    /// Emits the call of the function `id` on materialised arguments.
    pub(crate) fn emit_call(&mut self, id: usize, args: Option<Vec<Slot>>) -> (r: Option<Operand>)
        requires
            old(self).wf(),
            args matches Some(slots) ==> forall|k: int|
                0 <= k < slots@.len() ==> (#[trigger] slots@[k]).0 < old(self)@.insts.len(),
        ensures
            old(self)@.links_same(final(self)@),
            (final(self)@, r) == crate::grammar::emit_call(
                old(self)@,
                id,
                match args {
                    Some(slots) => Some(slots@),
                    None => None,
                },
            ),
            final(self).wf(),
            old(self)@.grows_to(final(self)@),
            old(self)@.same_cursor(final(self)@),
            final(self)@.tokens == old(self)@.tokens,
            r matches Some(operand) ==> operand == Operand::Inst(
                (final(self)@.insts.len() - 1) as usize,
            ) && final(self)@.insts.len() > 0 && final(self)@.insts.last().block == Some(
                final(self)@.curr,
            ),
            old(self)@.placed() && (args matches Some(slots) ==> old(self)@.all_reach(slots@))
                ==> final(self)@.placed() && (r matches Some(operand) ==> final(self)@.holds(
                operand,
            )),
    {
        proof {
            reveal(crate::grammar::emit_call);
        }
        let call = if id == PREDEFINED_INPUTNUM_ID {
            self.add_inst(self.curr(), IType::Read)
        } else if id == PREDEFINED_OUTPUTNUM_ID {
            let inst = match &args {
                Some(args) => {
                    if args.len() > 0 {
                        args[0]
                    } else {
                        return None;
                    }
                },
                None => {
                    return None;
                },
            };
            self.add_inst(self.curr(), IType::Write { inst })
        } else if id == PREDEFINED_OUTPUTNEWLINE_ID {
            self.add_inst(self.curr(), IType::WriteNL)
        } else {
            let block = match self.func_entry(id) {
                Some(block) => block,
                None => {
                    return None;
                },
            };
            assert(self@.funcs.contains_key(id) && self@.funcs[id] == block);
            assert(block < self@.blocks.len());
            match &args {
                Some(args) => {
                    if args.len() > 3 {
                        self.mark_unsupported();
                        return None;
                    }
                    let n: usize = args.len();
                    let mut idx: usize = 0;
                    while idx < n
                        invariant
                            self.wf(),
                            old(self)@.grows_to(self@),
                            old(self)@.same_cursor(self@),
                            old(self)@.links_same(self@),
                            self@.tokens == old(self)@.tokens,
                            block < self@.blocks.len(),
                            n == args@.len(),
                            n <= 3,
                            idx <= n,
                            self@ == old(self)@.load_args(args@, idx as int),
                            forall|k: int|
                                0 <= k < args@.len() ==> (#[trigger] args@[k]).0 < self@.insts.len(),
                            old(self)@.placed() && old(self)@.all_reach(args@) ==> self@.placed()
                                && self@.all_reach(args@),
                        decreases n - idx,
                    {
                        let ghost before = self@;
                        self.load_arg(args[idx], idx);
                        proof {
                            if before.placed() && before.all_reach(args@) {
                                lemma_all_reach_settled(before, self@, args@);
                            }
                        }
                        idx = idx + 1;
                    }
                },
                None => {},
            }
            self.add_inst(self.curr(), IType::Jsr { block })
        };
        Some(Operand::Inst(call))
    }
}

} // verus!
