use ssa_builder::block::{Block, BlockList, OpMap};
use ssa_builder::frame::{BlockFrame, BlockState, FrameState, FrameStatus};
use ssa_builder::inst::{Inst, InstList};
use ssa_builder::itype::{IType, OpType, Operand};
use ssa_builder::maps::sorted_keys;
use std::collections::BTreeMap;

fn add(a: usize, b: usize) -> IType {
    IType::Add { inst1: (a, None), inst2: (b, None) }
}

#[test]
fn operation_classes() {
    assert_eq!(OpType::try_from(add(1, 2)).ok(), Some(OpType::Add));
    assert_eq!(
        OpType::try_from(IType::Sub { inst1: (1, None), inst2: (2, None) }).ok(),
        Some(OpType::Sub)
    );
    assert_eq!(
        OpType::try_from(IType::Mul { inst1: (1, None), inst2: (2, None) }).ok(),
        Some(OpType::Mul)
    );
    assert_eq!(
        OpType::try_from(IType::Div { inst1: (1, None), inst2: (2, None) }).ok(),
        Some(OpType::Div)
    );
    assert!(OpType::try_from(IType::Cmp { inst1: (1, None), inst2: (2, None) }).is_err());
    assert!(OpType::try_from(IType::Const(1)).is_err());
    assert!(OpType::try_from(IType::Read).is_err());
}

#[test]
fn equality_compares_kind_and_operand_ids() {
    assert_eq!(add(1, 2), add(1, 2));
    assert_ne!(add(1, 2), add(1, 3));
    assert_ne!(add(1, 2), IType::Sub { inst1: (1, None), inst2: (2, None) });
    assert_eq!(IType::Const(5), IType::Const(5));
    assert_ne!(IType::Const(5), IType::Const(6));
    assert_eq!(IType::End, IType::End);
    assert_ne!(IType::End, IType::Empty);
    assert_eq!(IType::Ret { inst: None }, IType::Ret { inst: None });
    assert_ne!(IType::Ret { inst: None }, IType::Ret { inst: Some((1, None)) });
    assert_eq!(
        IType::Bne { inst: 1, block: Some(2) },
        IType::Bne { inst: 1, block: Some(2) }
    );
    assert_ne!(IType::Bne { inst: 1, block: Some(2) }, IType::Bne { inst: 1, block: None });
    assert_ne!(IType::Bne { inst: 1, block: Some(2) }, IType::Beq { inst: 1, block: Some(2) });
}

#[test]
fn equality_is_not_commutative_in_the_operands() {
    assert_ne!(add(1, 2), add(2, 1));
    assert_ne!(
        IType::Mul { inst1: (1, None), inst2: (2, None) },
        IType::Mul { inst1: (2, None), inst2: (1, None) }
    );
}

#[test]
fn equality_ignores_the_variable_tags_of_arithmetic() {
    assert_eq!(
        IType::Add { inst1: (1, Some(7)), inst2: (2, None) },
        IType::Add { inst1: (1, None), inst2: (2, Some(9)) }
    );
    assert_eq!(
        IType::Write { inst: (1, Some(7)) },
        IType::Write { inst: (1, None) }
    );
    assert_eq!(
        IType::Ret { inst: Some((1, Some(7))) },
        IType::Ret { inst: Some((1, None)) }
    );
}

#[test]
fn equality_of_phis_compares_operand_ids_and_variable() {
    let phi = IType::Phi { inst1: (1, Some(7)), inst2: (2, None), var: 7 };
    assert_eq!(phi, IType::Phi { inst1: (1, Some(7)), inst2: (2, None), var: 7 });
    assert_eq!(phi, IType::Phi { inst1: (1, None), inst2: (2, Some(9)), var: 7 });
    assert_ne!(phi, IType::Phi { inst1: (1, Some(7)), inst2: (3, None), var: 7 });
    assert_ne!(phi, IType::Phi { inst1: (2, Some(7)), inst2: (1, None), var: 7 });
    assert_ne!(phi, IType::Phi { inst1: (1, Some(7)), inst2: (2, None), var: 8 });
}

#[test]
fn equality_of_assignment_markers_compares_the_variable() {
    assert_eq!(
        IType::Assignment { var: 3, dep_var: Some(4) },
        IType::Assignment { var: 3, dep_var: None }
    );
    assert_ne!(
        IType::Assignment { var: 3, dep_var: None },
        IType::Assignment { var: 4, dep_var: None }
    );
}

#[test]
fn branch_block_sets_the_target() {
    assert_eq!(
        IType::Bne { inst: 4, block: None }.branch_block(9),
        IType::Bne { inst: 4, block: Some(9) }
    );
    assert_eq!(
        IType::Beq { inst: 4, block: Some(1) }.branch_block(9),
        IType::Beq { inst: 4, block: Some(9) }
    );
    assert_eq!(
        IType::Ble { inst: 4, block: None }.branch_block(9),
        IType::Ble { inst: 4, block: Some(9) }
    );
    assert_eq!(
        IType::Blt { inst: 4, block: None }.branch_block(9),
        IType::Blt { inst: 4, block: Some(9) }
    );
    assert_eq!(
        IType::Bge { inst: 4, block: None }.branch_block(9),
        IType::Bge { inst: 4, block: Some(9) }
    );
    assert_eq!(
        IType::Bgt { inst: 4, block: None }.branch_block(9),
        IType::Bgt { inst: 4, block: Some(9) }
    );
}

#[test]
fn into_redirects_slots_by_their_variable() {
    let before = IType::Add { inst1: (1, Some(7)), inst2: (2, Some(8)) };
    let after = before.into(7, 50);
    assert!(matches!(after, IType::Add { inst1: (50, Some(7)), inst2: (2, Some(8)) }));
    let both = IType::Cmp { inst1: (1, Some(7)), inst2: (2, Some(7)) }.into(7, 50);
    assert!(matches!(both, IType::Cmp { inst1: (50, Some(7)), inst2: (50, Some(7)) }));
    let untagged = IType::Sub { inst1: (1, None), inst2: (2, None) }.into(7, 50);
    assert!(matches!(untagged, IType::Sub { inst1: (1, None), inst2: (2, None) }));
    let phi = IType::Phi { inst1: (1, Some(7)), inst2: (2, None), var: 3 }.into(7, 50);
    assert!(matches!(phi, IType::Phi { inst1: (50, Some(7)), inst2: (2, None), var: 3 }));
    let ret = IType::Ret { inst: Some((1, Some(7))) }.into(7, 50);
    assert!(matches!(ret, IType::Ret { inst: Some((50, Some(7))) }));
    let write = IType::Write { inst: (1, Some(7)) }.into(7, 50);
    assert!(matches!(write, IType::Write { inst: (50, Some(7)) }));
    let par = IType::SetPar2 { inst: (1, Some(7)) }.into(7, 50);
    assert!(matches!(par, IType::SetPar2 { inst: (50, Some(7)) }));
    assert!(matches!(IType::Ret { inst: None }.into(7, 50), IType::Ret { inst: None }));
    assert!(matches!(IType::Const(7).into(7, 50), IType::Const(7)));
}

#[test]
fn update_phi_sets_one_operand_and_keeps_its_tag() {
    let phi = IType::Phi { inst1: (1, Some(7)), inst2: (2, Some(8)), var: 3 };
    assert!(matches!(
        phi.update_phi(40, FrameStatus::FallThrough),
        IType::Phi { inst1: (40, Some(7)), inst2: (2, Some(8)), var: 3 }
    ));
    assert!(matches!(
        phi.update_phi(40, FrameStatus::Follow),
        IType::Phi { inst1: (1, Some(7)), inst2: (40, Some(8)), var: 3 }
    ));
}

#[test]
fn update_inst_renames_every_operand() {
    assert!(matches!(
        IType::Add { inst1: (1, Some(7)), inst2: (1, None) }.update_inst(1, 9),
        IType::Add { inst1: (9, Some(7)), inst2: (9, None) }
    ));
    assert!(matches!(
        IType::Div { inst1: (2, None), inst2: (1, None) }.update_inst(1, 9),
        IType::Div { inst1: (2, None), inst2: (9, None) }
    ));
    assert!(matches!(
        IType::Phi { inst1: (1, None), inst2: (2, None), var: 1 }.update_inst(1, 9),
        IType::Phi { inst1: (9, None), inst2: (2, None), var: 1 }
    ));
    assert!(matches!(
        IType::Ret { inst: Some((1, None)) }.update_inst(1, 9),
        IType::Ret { inst: Some((9, None)) }
    ));
    assert!(matches!(
        IType::SetPar3 { inst: (1, None) }.update_inst(1, 9),
        IType::SetPar3 { inst: (9, None) }
    ));
    assert!(matches!(
        IType::Write { inst: (1, None) }.update_inst(1, 9),
        IType::Write { inst: (9, None) }
    ));
}

#[test]
fn update_inst_renames_the_condition_of_a_branch() {
    assert_eq!(
        IType::Bne { inst: 1, block: Some(1) }.update_inst(1, 9),
        IType::Bne { inst: 9, block: Some(1) }
    );
    assert_eq!(
        IType::Bgt { inst: 2, block: Some(1) }.update_inst(1, 9),
        IType::Bgt { inst: 2, block: Some(1) }
    );
}

#[test]
fn update_inst_leaves_blocks_and_values_alone() {
    assert_eq!(IType::Bra { block: 1 }.update_inst(1, 9), IType::Bra { block: 1 });
    assert_eq!(IType::Jsr { block: 1 }.update_inst(1, 9), IType::Jsr { block: 1 });
    assert_eq!(IType::Const(1).update_inst(1, 9), IType::Const(1));
    assert!(matches!(
        IType::Assignment { var: 1, dep_var: Some(1) }.update_inst(1, 9),
        IType::Assignment { var: 1, dep_var: Some(1) }
    ));
}

#[test]
fn instruction_accessors() {
    let inst = Inst::new(4, add(1, 2), Some(3), Some(1));
    assert_eq!(inst.id(), 4);
    assert_eq!(inst.itype(), add(1, 2));
    assert_eq!(inst.dom(), Some(3));
    assert_eq!(inst.block(), Some(1));
}

#[test]
fn instruction_phi_updates() {
    let phi = IType::Phi { inst1: (1, Some(7)), inst2: (1, Some(7)), var: 7 };
    let mut inst = Inst::new(4, phi, None, Some(2));
    inst.set_fall_through(10);
    assert!(matches!(
        inst.itype(),
        IType::Phi { inst1: (10, Some(7)), inst2: (1, Some(7)), var: 7 }
    ));
    inst.set_follow(11);
    assert!(matches!(
        inst.itype(),
        IType::Phi { inst1: (10, Some(7)), inst2: (11, Some(7)), var: 7 }
    ));
    inst.propagate_phi(12, FrameStatus::FallThrough);
    inst.propagate_phi(13, FrameStatus::Follow);
    assert!(matches!(
        inst.itype(),
        IType::Phi { inst1: (12, Some(7)), inst2: (13, Some(7)), var: 7 }
    ));
    inst.update_phi(7, 20);
    assert!(matches!(
        inst.itype(),
        IType::Phi { inst1: (20, Some(7)), inst2: (20, Some(7)), var: 7 }
    ));
    inst.update_inst(20, 21);
    assert!(matches!(
        inst.itype(),
        IType::Phi { inst1: (21, Some(7)), inst2: (21, Some(7)), var: 7 }
    ));
    assert_eq!(inst.id(), 4);
    assert_eq!(inst.dom(), None);
    assert_eq!(inst.block(), Some(2));
}

#[test]
fn store_gives_ids_in_order() {
    let mut insts = InstList::new();
    assert_eq!(insts.add(IType::Read, None, Some(1)), 0);
    assert_eq!(insts.add(IType::Read, None, Some(1)), 1);
    assert_eq!(insts.add(add(0, 1), None, Some(1)), 2);
    assert_eq!(insts.inst_count, 3);
    assert_eq!(insts.instructions.len(), 3);
    assert_eq!(insts.get(2).id(), 2);
    assert_eq!(insts.get(2).itype(), add(0, 1));
    assert_eq!(insts.get(1).block(), Some(1));
}

#[test]
fn matching_walks_the_chain_of_dominating_links() {
    let mut insts = InstList::new();
    insts.add(IType::Read, None, Some(1)); // 0
    insts.add(IType::Read, None, Some(1)); // 1
    insts.add(add(0, 1), None, Some(1)); // 2
    insts.add(add(1, 0), Some(2), Some(1)); // 3
    insts.add(add(0, 0), Some(3), Some(1)); // 4
    assert_eq!(insts.get_matching_inst(add(0, 1), 4), Some(2));
    assert_eq!(insts.get_matching_inst(add(1, 0), 4), Some(3));
    assert_eq!(insts.get_matching_inst(add(0, 0), 4), Some(4));
    assert_eq!(insts.get_matching_inst(add(0, 0), 3), None);
    assert_eq!(insts.get_matching_inst(add(1, 1), 4), None);
    assert_eq!(insts.get_matching_inst(add(0, 1), 2), Some(2));
    // An instruction off the chain is not found.
    assert_eq!(insts.get_matching_inst(IType::Read, 4), None);
}

#[test]
fn rename_rewrites_every_instruction() {
    let mut insts = InstList::new();
    insts.add(IType::Read, None, Some(1)); // 0
    insts.add(IType::Read, None, Some(1)); // 1
    insts.add(add(0, 1), None, Some(1)); // 2
    insts.add(IType::Cmp { inst1: (2, None), inst2: (1, None) }, None, Some(1)); // 3
    insts.add(IType::Bne { inst: 3, block: Some(1) }, None, Some(1)); // 4
    insts.add(IType::Write { inst: (1, Some(5)) }, None, Some(1)); // 5
    insts.rename_inst(1, 0);
    assert_eq!(insts.get(2).itype(), add(0, 0));
    assert_eq!(insts.get(3).itype(), IType::Cmp { inst1: (2, None), inst2: (0, None) });
    assert!(matches!(insts.get(5).itype(), IType::Write { inst: (0, Some(5)) }));
    insts.rename_inst(3, 2);
    assert_eq!(insts.get(4).itype(), IType::Bne { inst: 2, block: Some(1) });
    for (position, inst) in insts.instructions.iter().enumerate() {
        assert_eq!(inst.id(), position);
    }
    assert_eq!(insts.inst_count, 6);
}

#[test]
fn remove_block_detaches() {
    let mut insts = InstList::new();
    insts.add(IType::Read, None, Some(1));
    insts.add(IType::Read, None, Some(2));
    insts.remove_block(1);
    assert_eq!(insts.get(0).block(), Some(1));
    assert_eq!(insts.get(1).block(), None);
    assert_eq!(insts.get(1).itype(), IType::Read);
}

#[test]
fn get_mut_changes_in_place() {
    let mut insts = InstList::new();
    insts.add(IType::Phi { inst1: (0, None), inst2: (0, None), var: 3 }, None, Some(1));
    insts.get_mut(0).set_follow(9);
    assert!(matches!(
        insts.get(0).itype(),
        IType::Phi { inst1: (0, None), inst2: (9, None), var: 3 }
    ));
}

#[test]
fn new_block_is_empty() {
    let block = Block::new(7);
    assert_eq!(block.id(), 7);
    assert_eq!(block.dom(), None);
    assert_eq!(block.get_next(), (None, None));
    assert_eq!(block.get_last_inst(), None);
    assert_eq!(block.get_var_inst(3), None);
    assert!(!block.is_declared(3));
    assert_eq!(block.get_phi(3), None);
    assert_eq!(block.get_dom_inst(add(0, 0)), None);
    assert_eq!(block.iter().len(), 0);
}

#[test]
fn variables_of_a_block() {
    let mut block = Block::new(1);
    block.declare_var(3);
    assert!(block.is_declared(3));
    assert_eq!(block.get_var_inst(3), None);
    assert_eq!(block.get_var_def(3), None);
    block.assign_var(3, 10, Some(4));
    assert_eq!(block.get_var_inst(3), Some(10));
    assert_eq!(block.get_var_def(3), Some((10, Some(4))));
    block.assign_var(3, 11, None);
    assert_eq!(block.get_var_inst(3), Some(11));
    block.declare_var(3);
    assert_eq!(block.get_var_inst(3), None);
    assert!(block.is_declared(3));
    assert!(!block.is_declared(4));
}

#[test]
fn instructions_of_a_block() {
    let mut block = Block::new(1);
    assert_eq!(block.add_inst(5, IType::Read), 5);
    assert_eq!(block.add_inst(6, add(5, 5)), 6);
    assert_eq!(block.add_inst(7, IType::Sub { inst1: (6, None), inst2: (5, None) }), 7);
    assert_eq!(block.add_inst(8, add(6, 5)), 8);
    assert_eq!(block.iter(), &[5, 6, 7, 8]);
    assert_eq!(block.get_last_inst(), Some(8));
    assert_eq!(block.get_dom_inst(add(0, 0)), Some(8));
    assert_eq!(
        block.get_dom_inst(IType::Sub { inst1: (0, None), inst2: (0, None) }),
        Some(7)
    );
    assert_eq!(block.get_dom_inst(IType::Mul { inst1: (0, None), inst2: (0, None) }), None);
    assert_eq!(block.get_dom_inst(IType::Read), None);
    assert_eq!(block.get_dom_inst(IType::Cmp { inst1: (0, None), inst2: (0, None) }), None);
}

#[test]
fn successors_of_a_block() {
    let mut block = Block::new(1);
    block.set_follow(4);
    assert_eq!(block.get_next(), (None, Some(4)));
    block.set_fall_through(2);
    assert_eq!(block.get_next(), (Some(2), Some(4)));
    block.set_fall_through(3);
    assert_eq!(block.get_next(), (Some(3), Some(4)));
}

#[test]
fn child_block_copies_variables_and_classes() {
    let mut parent = Block::new(1);
    parent.assign_var(3, 10, None);
    parent.declare_var(4);
    parent.add_inst(10, add(0, 0));
    parent.add_phi(5, 20, None, 21);
    let mut child = Block::from(2, &parent);
    assert_eq!(child.id(), 2);
    assert_eq!(child.dom(), Some(1));
    assert_eq!(child.iter().len(), 0);
    assert_eq!(child.get_next(), (None, None));
    assert_eq!(child.get_var_inst(3), Some(10));
    assert!(child.is_declared(4));
    assert_eq!(child.get_var_inst(5), Some(20));
    assert_eq!(child.get_dom_inst(add(1, 1)), Some(10));
    // The phis stay with the block that owns them.
    assert_eq!(child.get_phi(5), None);
    // The copy is the child's own.
    child.assign_var(3, 11, None);
    child.add_inst(12, add(0, 0));
    assert_eq!(parent.get_var_inst(3), Some(10));
    assert_eq!(parent.get_dom_inst(add(1, 1)), Some(10));
    assert_eq!(child.get_dom_inst(add(1, 1)), Some(12));
}

#[test]
fn first_instruction_skips_assignment_markers() {
    let mut insts = InstList::new();
    insts.add(IType::Assignment { var: 3, dep_var: None }, None, Some(1)); // 0
    insts.add(IType::Assignment { var: 4, dep_var: None }, None, Some(1)); // 1
    insts.add(IType::Read, None, Some(1)); // 2
    insts.add(IType::End, None, Some(1)); // 3
    let mut block = Block::new(1);
    assert_eq!(block.get_first_inst(&insts), None);
    block.add_inst(0, insts.get(0).itype());
    block.add_inst(1, insts.get(1).itype());
    assert_eq!(block.get_first_inst(&insts), None);
    block.add_inst(2, insts.get(2).itype());
    block.add_inst(3, insts.get(3).itype());
    assert_eq!(block.get_first_inst(&insts), Some(2));
}

#[test]
fn a_phi_goes_to_the_front_with_its_marker() {
    let mut block = Block::new(3);
    block.add_inst(9, IType::Read);
    block.add_phi(4, 10, Some(4), 11);
    block.add_phi(5, 12, None, 13);
    assert_eq!(block.iter(), &[12, 13, 10, 11, 9]);
    assert_eq!(block.get_phi(4), Some(10));
    assert_eq!(block.get_phi(5), Some(12));
    assert_eq!(block.get_phi(6), None);
    assert_eq!(block.get_var_def(4), Some((10, Some(4))));
    assert_eq!(block.get_var_def(5), Some((12, None)));
}

#[test]
fn resolve_puts_phis_in_front_in_variable_order() {
    let mut block = Block::new(3);
    block.add_inst(9, IType::Read);
    block.add_phi(7, 30, None, 31);
    block.add_phi(4, 10, None, 11);
    block.add_phi(5, 20, None, 21);
    block.resolve_phis();
    assert_eq!(block.iter(), &[10, 20, 30, 20, 21, 10, 11, 30, 31, 9]);
}

#[test]
fn resolve_on_every_block() {
    let mut blocks = BlockList::new();
    blocks.add();
    blocks.add_from(0);
    blocks.get_mut(0).add_phi(4, 10, None, 11);
    blocks.get_mut(1).add_phi(3, 20, None, 21);
    blocks.resolve_phis();
    assert_eq!(blocks.get(0).iter(), &[10, 10, 11]);
    assert_eq!(blocks.get(1).iter(), &[20, 20, 21]);
}

#[test]
fn delete_removes_the_first_occurrence() {
    let mut block = Block::new(1);
    for id in [5, 6, 7, 6] {
        block.add_inst(id, IType::Read);
    }
    block.delete_inst(6);
    assert_eq!(block.iter(), &[5, 7, 6]);
    block.delete_inst(5);
    assert_eq!(block.iter(), &[7, 6]);
    block.delete_inst(6);
    assert_eq!(block.iter(), &[7]);
}

#[test]
fn a_block_tells_what_it_lists() {
    let mut block = Block::new(1);
    assert!(!block.lists(5));
    block.add_inst(5, IType::Read);
    block.add_inst(6, IType::WriteNL);
    assert!(block.lists(5));
    assert!(block.lists(6));
    assert!(!block.lists(7));
    block.delete_inst(5);
    assert!(!block.lists(5));
    assert!(block.lists(6));
}

#[test]
fn delete_keeps_the_order_and_the_rest_of_the_block() {
    let mut block = Block::new(1);
    block.assign_var(3, 4, None);
    block.add_inst(4, IType::Read);
    block.add_inst(5, IType::WriteNL);
    block.add_inst(6, IType::End);
    block.set_fall_through(2);
    block.delete_inst(5);
    assert_eq!(block.iter(), &[4, 6]);
    assert_eq!(block.id(), 1);
    assert_eq!(block.dom(), None);
    assert_eq!(block.get_next(), (Some(2), None));
    assert_eq!(block.get_var_inst(3), Some(4));
}

#[test]
fn removing_trivial_phis_twice_changes_nothing_more() {
    let mut parser = ssa_builder::parser::Parser::new(
        b"main var x; { let x <- 1; if x < 2 then call OutputNewLine fi; call OutputNum(x) } .",
    );
    assert_eq!(parser.build(), Some(()));
    parser.remove_phis();
    let insts = parser.insts().clone();
    let blocks = parser.blocks().clone();
    parser.remove_phis();
    assert_eq!(parser.insts(), &insts);
    assert_eq!(parser.blocks(), &blocks);
}

#[test]
fn update_var_redirects_definitions_read_from_a_variable() {
    let mut block = Block::new(1);
    block.assign_var(3, 10, Some(7));
    block.assign_var(4, 11, Some(8));
    block.assign_var(5, 12, None);
    block.assign_var(6, 13, Some(7));
    block.declare_var(9);
    block.update_var(7, 50);
    assert_eq!(block.get_var_def(3), Some((50, Some(7))));
    assert_eq!(block.get_var_def(4), Some((11, Some(8))));
    assert_eq!(block.get_var_def(5), Some((12, None)));
    assert_eq!(block.get_var_def(6), Some((50, Some(7))));
    assert_eq!(block.get_var_def(9), None);
    assert!(block.is_declared(9));
}

#[test]
fn block_store_gives_ids_in_order() {
    let mut blocks = BlockList::new();
    assert_eq!(blocks.add(), 0);
    assert_eq!(blocks.add_from(0), 1);
    assert_eq!(blocks.add_from(1), 2);
    assert_eq!(blocks.add_from(0), 3);
    assert_eq!(blocks.iter().len(), 4);
    assert_eq!(blocks.get(0).dom(), None);
    assert_eq!(blocks.get(1).dom(), Some(0));
    assert_eq!(blocks.get(2).dom(), Some(1));
    assert_eq!(blocks.get(3).dom(), Some(0));
    for (position, block) in blocks.iter().iter().enumerate() {
        assert_eq!(block.id(), position);
    }
}

#[test]
fn block_store_forks_the_variables() {
    let mut blocks = BlockList::new();
    blocks.add();
    blocks.get_mut(0).assign_var(3, 10, None);
    let child = blocks.add_from(0);
    blocks.get_mut(0).assign_var(3, 11, None);
    let late = blocks.add_from(0);
    assert_eq!(blocks.get(child).get_var_inst(3), Some(10));
    assert_eq!(blocks.get(late).get_var_inst(3), Some(11));
    blocks.get_mut(child).assign_var(4, 12, None);
    assert_eq!(blocks.get(0).get_var_inst(4), None);
    assert_eq!(blocks.get(late).get_var_inst(4), None);
}

#[test]
fn operation_map() {
    let mut map = OpMap::new();
    assert_eq!(map.get(OpType::Add), None);
    map.insert(OpType::Add, 3);
    map.insert(OpType::Div, 4);
    map.insert(OpType::Add, 5);
    assert_eq!(map.get(OpType::Add), Some(5));
    assert_eq!(map.get(OpType::Sub), None);
    assert_eq!(map.get(OpType::Mul), None);
    assert_eq!(map.get(OpType::Div), Some(4));
}

#[test]
fn frame_builder() {
    let frame = BlockFrame::new();
    assert_eq!(frame.state, None);
    assert_eq!(frame.follow, None);
    assert_eq!(frame.fall_through, None);
    assert_eq!(frame.join, None);
    assert_eq!(frame.root, None);
    assert_eq!(frame.status, None);
    assert!(!frame.is_fall_through());

    let frame = BlockFrame::new()
        .conditional()
        .root(1)
        .fall_through(2)
        .join(3)
        .follow(4)
        .status(FrameStatus::FallThrough)
        .to_owned();
    assert_eq!(frame.state, Some(FrameState::Conditional));
    assert_eq!(frame.root, Some(1));
    assert_eq!(frame.fall_through, Some(2));
    assert_eq!(frame.join, Some(3));
    assert_eq!(frame.follow, Some(4));
    assert!(frame.is_fall_through());

    let frame = BlockFrame::new().while_loop().status(FrameStatus::Follow).to_owned();
    assert_eq!(frame.state, Some(FrameState::While));
    assert!(!frame.is_fall_through());
}

#[test]
fn frame_stack() {
    let mut state = BlockState::new(1);
    assert_eq!(state.curr(), 1);
    assert!(state.is_empty());
    assert_eq!(state.pop(), None);
    let outer = BlockFrame::new().conditional().join(3).to_owned();
    let inner = BlockFrame::new().while_loop().join(5).to_owned();
    state.push(outer);
    assert!(!state.is_empty());
    assert_eq!(state.front(), &outer);
    state.push(inner);
    assert_eq!(state.depth(), 2);
    assert_eq!(state.front(), &inner);
    state.front_mut().follow(9);
    assert_eq!(state.front().follow, Some(9));
    assert_eq!(state.front().join, Some(5));
    let popped = state.pop().unwrap();
    assert_eq!(popped.follow, Some(9));
    assert_eq!(state.front(), &outer);
    assert_eq!(state.pop(), Some(outer));
    assert!(state.is_empty());
    assert_eq!(state.curr(), 1);
}

#[test]
fn operands() {
    assert_eq!(Operand::Const(3), Operand::Const(3));
    assert_ne!(Operand::Inst(3), Operand::Var(3));
}

#[test]
fn keys_come_out_sorted() {
    let mut map: BTreeMap<usize, u8> = BTreeMap::new();
    assert_eq!(sorted_keys(&map), Vec::<usize>::new());
    for key in [9, 2, 7, 2, 0, 5] {
        map.insert(key, 1);
    }
    assert_eq!(sorted_keys(&map), vec![0, 2, 5, 7, 9]);
}
