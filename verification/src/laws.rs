//! What holds of every program that the builder constructs.
use vstd::prelude::*;
use crate::block::{dominates, lemma_dominates_transitive, lemma_dominators_acyclic};
use crate::inst::Inst;
use crate::itype::{lemma_operands_below, lemma_rename_drops_operand, IType};
use crate::state::{lemma_placed_inst, lemma_replace_ok, lemma_root_dominates, renamed, ParserView};

verus! {

/// The dominator tree is well formed: the immediate dominator of every
/// block but block 0 has a strictly smaller id, block 0 dominates every
/// block, and no two different blocks dominate each other.
pub proof fn law_dominator_tree(s: ParserView, a: int, b: int)
    requires
        s.ir_ok(),
        0 < b < s.blocks.len(),
    ensures
        s.blocks[b].dom matches Some(d) && d < b,
        dominates(s.blocks, 0, b),
        dominates(s.blocks, a, b) && dominates(s.blocks, b, a) ==> a == b,
{
    assert(s.blocks[b].id == b);
    lemma_root_dominates(s, b);
    if dominates(s.blocks, a, b) && dominates(s.blocks, b, a) {
        lemma_dominators_acyclic(s.blocks, a, b);
    }
}

/// Operands dominate their uses: while a program is constructed, every
/// operand of an instruction that is no phi is defined in a block that
/// dominates the block of the instruction, or in that block.
pub proof fn law_operand_dominance(s: ParserView, i: int, o: usize)
    requires
        s.placed(),
        0 <= i < s.insts.len(),
        !(s.insts[i].itype is Phi),
        s.insts[i].itype.uses(o),
    ensures
        s.insts[i].block matches Some(b) && s.reaches(o, b as int),
{
    lemma_placed_inst(s, i);
    let itype = s.insts[i].itype;
    if itype.cond() != Some(o) {
        let k = choose|k: int| 0 <= k < itype.slots().len() && itype.slots()[k].0 == o;
        assert(itype.slots()[k].0 == o);
    }
}

/// What is at hand in a block is at hand in every block that it dominates.
pub proof fn law_availability_flows_down(s: ParserView, o: usize, b: int, c: int)
    requires
        s.reaches(o, b),
        dominates(s.blocks, b, c),
    ensures
        s.reaches(o, c),
{
    lemma_dominates_transitive(s.blocks, s.insts[o as int].block.unwrap() as int, b, c);
}

/// Every operand exists: an id that an instruction has as an operand, in
/// a slot or as a branch condition, is the id of an instruction.
pub proof fn law_operands_exist(s: ParserView, i: int, o: usize)
    requires
        s.ir_ok(),
        0 <= i < s.insts.len(),
        s.insts[i].itype.uses(o),
    ensures
        o < s.insts.len(),
{
    assert(s.insts[i].itype.operands_below(s.insts.len() as int));
    lemma_operands_below(s.insts[i].itype, s.insts.len() as int);
}

/// Every instruction is defined once: the id of an instruction is its
/// position in the store, so no two instructions share an id.
pub proof fn law_single_definition(s: ParserView, i: int, j: int)
    requires
        s.ir_ok(),
        0 <= i < s.insts.len(),
        0 <= j < s.insts.len(),
        s.insts[i].id == s.insts[j].id,
    ensures
        i == j,
{
}

/// A rename eliminates an id: once `from` was renamed to another id, no
/// operand of any instruction is `from`, and every instruction keeps its
/// own id.
pub proof fn law_rename_eliminates(insts: Seq<Inst>, from: usize, to: usize, j: int)
    requires
        from != to,
        0 <= j < insts.len(),
    ensures
        renamed(insts, from, to).len() == insts.len(),
        renamed(insts, from, to)[j].id == insts[j].id,
        !renamed(insts, from, to)[j].itype.uses(from),
{
    lemma_rename_drops_operand(insts[j].itype, from, to);
}

/// Constants are not duplicated: two constant instructions of the same
/// value are the same instruction, and it lives in block 0.
pub proof fn law_constants_unique(s: ParserView, i: int, j: int, v: isize)
    requires
        s.consts_ok(),
        0 <= i < s.insts.len(),
        0 <= j < s.insts.len(),
        s.insts[i].itype == IType::Const(v),
        s.insts[j].itype == IType::Const(v),
    ensures
        i == j,
        s.insts[i].block == Some(0usize),
{
    assert(s.consts.contains_key(v) && s.consts[v] == i);
    assert(s.consts.contains_key(v) && s.consts[v] == j);
}

/// A common-subexpression pass over instructions of which none equals an
/// instruction on its chain of dominating links changes nothing.
pub proof fn law_cse_fixed_point(s: ParserView, k: int)
    requires
        forall|i: int| 0 <= i < k ==> #[trigger] s.cse_target(i) is None,
    ensures
        s.cse_pass(k) == s,
    decreases k,
{
    if k > 0 {
        assert(s.cse_target(k - 1) is None);
        law_cse_fixed_point(s, k - 1);
    }
}

/// The removal of trivial phis over instructions of which none is a phi
/// with two equal operands changes nothing.
pub proof fn law_phi_fixed_point(s: ParserView, k: int)
    requires
        forall|i: int| 0 <= i < k ==> #[trigger] s.trivial_phi(i) is None,
    ensures
        s.phi_pass(k) == s,
    decreases k,
{
    if k > 0 {
        assert(s.trivial_phi(k - 1) is None);
        law_phi_fixed_point(s, k - 1);
    }
}

/// A trivial phi that the removal visits is gone: no block lists it any
/// more, and, unless its operand is the phi itself, no instruction has it
/// as an operand.
pub proof fn law_trivial_phi_removed(s: ParserView, i: int, to: usize)
    requires
        s.wf(),
        s.trivial_phi(i) == Some(to),
    ensures
        forall|b: int|
            0 <= b < s.phi_step(i).blocks.len() ==> !(#[trigger] s.phi_step(i).blocks[b]).insts.contains(
                i as usize,
            ),
        to != i ==> forall|j: int|
            0 <= j < s.phi_step(i).insts.len() ==> !(#[trigger] s.phi_step(i).insts[j]).itype.uses(
                i as usize,
            ),
{
    assert(s.insts[i].itype.operands_below(s.insts.len() as int));
    lemma_replace_ok(s, i, to);
    if to != i {
        assert forall|j: int| 0 <= j < s.phi_step(i).insts.len() implies !(#[trigger] s.phi_step(i).insts[j]).itype.uses(i as usize) by {
            lemma_rename_drops_operand(s.insts[j].itype, i as usize, to);
        }
    }
}

/// An instruction that a common-subexpression pass merges is gone: it
/// belongs to no block, no block lists it, and, as the instruction it is
/// merged into is an earlier one, no instruction has it as an operand.
pub proof fn law_merged_instruction_removed(s: ParserView, i: int, to: usize)
    requires
        s.wf(),
        s.cse_target(i) == Some(to),
    ensures
        to < i,
        s.cse_step(i).insts[i].block is None,
        forall|b: int|
            0 <= b < s.cse_step(i).blocks.len() ==> !(#[trigger] s.cse_step(i).blocks[b]).insts.contains(
                i as usize,
            ),
        forall|j: int|
            0 <= j < s.cse_step(i).insts.len() ==> !(#[trigger] s.cse_step(i).insts[j]).itype.uses(
                i as usize,
            ),
{
    let d = s.insts[i].dom.unwrap();
    lemma_chain_match_bound(s.insts, s.insts[i].itype, Some(d));
    lemma_replace_ok(s, i, to);
    assert forall|j: int| 0 <= j < s.cse_step(i).insts.len() implies !(#[trigger] s.cse_step(i).insts[j]).itype.uses(i as usize) by {
        lemma_rename_drops_operand(s.insts[j].itype, i as usize, to);
    }
}

/// A match on a chain of dominating links is the start of the chain or an
/// earlier instruction, and its kind equals the kind that was looked for.
pub proof fn lemma_chain_match_bound(insts: Seq<Inst>, itype: IType, idx: Option<usize>)
    ensures
        crate::inst::chain_match(insts, itype, idx) matches Some(m) ==> (idx matches Some(i) && m
            <= i) && m < insts.len() && itype.class_eq(insts[m as int].itype),
    decreases
        (match idx {
            Some(i) => i + 1,
            None => 0,
        }),
{
    match idx {
        Some(i) => {
            if i < insts.len() && !itype.class_eq(insts[i as int].itype) {
                match insts[i as int].dom {
                    Some(d) => {
                        if d < i {
                            lemma_chain_match_bound(insts, itype, Some(d));
                        }
                    },
                    None => {},
                }
            }
        },
        None => {},
    }
}

} // verus!
