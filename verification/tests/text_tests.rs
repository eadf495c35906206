use ssa_builder::block::{Block, BlockList};
use ssa_builder::inst::{Inst, InstList};
use ssa_builder::itype::IType;
use ssa_builder::parser::Parser;
use ssa_builder::render::{push_decimal, push_signed};
use ssa_builder::tokenizer::Tokenizer;

fn slot(id: usize) -> (usize, Option<usize>) {
    (id, None)
}

/// Two blocks: block 0 lists instructions 0 and 1, block 1 lists 2 to 4,
/// of which 2 is an assignment marker.
fn stores() -> (InstList, BlockList, Tokenizer) {
    let mut insts = InstList::new();
    let mut blocks = BlockList::new();
    blocks.add();
    blocks.add_from(0);
    let kinds = [
        (0, IType::Const(-12)),
        (0, IType::Read),
        (1, IType::Assignment { var: 3, dep_var: None }),
        (1, IType::Add { inst1: slot(0), inst2: slot(1) }),
        (1, IType::Empty),
    ];
    for (block, itype) in kinds {
        let id = insts.add(itype, None, Some(block));
        blocks.get_mut(block).add_inst(id, itype);
    }
    // The scanner reads one token ahead: after one step both names are
    // interned, alpha as 3 and beta as 4.
    let mut tokenizer = Tokenizer::new(b"alpha beta");
    tokenizer.next();
    (insts, blocks, tokenizer)
}

fn text(itype: IType) -> String {
    let (insts, blocks, tokenizer) = stores();
    Inst::new(7, itype, None, Some(1)).generate_graph(&insts, &blocks, &tokenizer)
}

#[test]
fn decimal_numbers() {
    let mut out = String::from("n=");
    push_decimal(&mut out, 0);
    out.push(',');
    push_decimal(&mut out, 9);
    out.push(',');
    push_decimal(&mut out, 10);
    out.push(',');
    push_decimal(&mut out, 1203);
    out.push(',');
    push_decimal(&mut out, usize::MAX);
    assert_eq!(out, format!("n=0,9,10,1203,{}", usize::MAX));
}

#[test]
fn signed_numbers() {
    let mut out = String::new();
    push_signed(&mut out, 0);
    out.push(',');
    push_signed(&mut out, -1);
    out.push(',');
    push_signed(&mut out, 57);
    out.push(',');
    push_signed(&mut out, isize::MIN);
    out.push(',');
    push_signed(&mut out, isize::MAX);
    assert_eq!(out, format!("0,-1,57,{},{}", isize::MIN, isize::MAX));
}

#[test]
fn text_of_every_kind() {
    assert_eq!(text(IType::Const(5)), "7: const #5");
    assert_eq!(text(IType::Const(-5)), "7: const #-5");
    assert_eq!(text(IType::Add { inst1: slot(1), inst2: slot(20) }), "7: add (1) (20)");
    assert_eq!(text(IType::Sub { inst1: slot(1), inst2: slot(2) }), "7: sub (1) (2)");
    assert_eq!(text(IType::Mul { inst1: slot(1), inst2: slot(2) }), "7: mul (1) (2)");
    assert_eq!(text(IType::Div { inst1: slot(1), inst2: slot(2) }), "7: div (1) (2)");
    assert_eq!(text(IType::Cmp { inst1: slot(1), inst2: slot(2) }), "7: cmp (1) (2)");
    assert_eq!(text(IType::End), "7: end");
    assert_eq!(text(IType::Ret { inst: Some(slot(3)) }), "7: ret (3)");
    assert_eq!(text(IType::Ret { inst: None }), "7: ret");
    assert_eq!(text(IType::GetPar1), "7: getpar1");
    assert_eq!(text(IType::GetPar2), "7: getpar2");
    assert_eq!(text(IType::GetPar3), "7: getpar3");
    assert_eq!(text(IType::SetPar1 { inst: slot(3) }), "7: setpar1 (3)");
    assert_eq!(text(IType::SetPar2 { inst: slot(3) }), "7: setpar2 (3)");
    assert_eq!(text(IType::SetPar3 { inst: slot(3) }), "7: setpar3 (3)");
    assert_eq!(text(IType::Read), "7: read");
    assert_eq!(text(IType::Write { inst: slot(3) }), "7: write (3)");
    assert_eq!(text(IType::WriteNL), "7: writeNL");
    assert_eq!(text(IType::Empty), "7: \\<empty\\>");
}

#[test]
fn a_phi_is_written_with_the_name_of_its_variable() {
    let phi = IType::Phi { inst1: slot(1), inst2: slot(2), var: 4 };
    assert_eq!(text(phi), "7: (beta) phi (1) (2)");
    let phi = IType::Phi { inst1: slot(1), inst2: slot(2), var: 0 };
    assert_eq!(text(phi), "7: (InputNum) phi (1) (2)");
}

#[test]
fn a_jump_names_the_first_instruction_that_its_target_emits() {
    // Block 1 starts with an assignment marker, which is skipped.
    assert_eq!(text(IType::Bra { block: 1 }), "7: bra (3)");
    assert_eq!(text(IType::Bra { block: 0 }), "7: bra (0)");
    assert_eq!(text(IType::Jsr { block: 1 }), "7: jsr 3");
    assert_eq!(text(IType::Bne { inst: 5, block: Some(1) }), "7: bne (5) (3)");
    assert_eq!(text(IType::Beq { inst: 5, block: Some(1) }), "7: beq (5) (3)");
    assert_eq!(text(IType::Ble { inst: 5, block: Some(0) }), "7: ble (5) (0)");
    assert_eq!(text(IType::Blt { inst: 5, block: Some(1) }), "7: blt (5) (3)");
    assert_eq!(text(IType::Bge { inst: 5, block: Some(1) }), "7: bge (5) (3)");
    assert_eq!(text(IType::Bgt { inst: 5, block: Some(1) }), "7: bgt (5) (3)");
}

#[test]
fn label_and_lines_of_a_list() {
    let (insts, blocks, tokenizer) = stores();
    let list = [2, 3, 4, 0];
    assert_eq!(
        insts.generate_graph(&list, &insts, &blocks, &tokenizer),
        "3: add (0) (1) | 4: \\<empty\\> | 0: const #-12"
    );
    assert_eq!(
        insts.generate_instructions(&list, &insts, &blocks, &tokenizer),
        "3: add (0) (1)\n0: const #-12"
    );
}

#[test]
fn an_empty_list_is_written_as_empty() {
    let (insts, blocks, tokenizer) = stores();
    assert_eq!(insts.generate_graph(&[], &insts, &blocks, &tokenizer), "\\<empty\\>");
    assert_eq!(insts.generate_instructions(&[], &insts, &blocks, &tokenizer), "\\<empty\\>");
}

#[test]
fn a_list_of_markers_is_written_as_nothing() {
    let (insts, blocks, tokenizer) = stores();
    assert_eq!(insts.generate_graph(&[2], &insts, &blocks, &tokenizer), "");
    assert_eq!(insts.generate_instructions(&[2, 4], &insts, &blocks, &tokenizer), "");
}

#[test]
fn node_and_edges_of_a_block() {
    let (insts, blocks, tokenizer) = stores();
    assert_eq!(
        blocks.get(0).generate_graph(&insts, &blocks, &tokenizer),
        "\tbb0 [shape=record, label=\"<b>BB0 | { 0: const #-12 | 1: read }\"];\n\n"
    );
    assert_eq!(
        blocks.get(1).generate_graph(&insts, &blocks, &tokenizer),
        "\tbb1 [shape=record, label=\"<b>BB1 | { 3: add (0) (1) | 4: \\<empty\\> }\"];\n\
         \tbb0:b -> bb1:b [color=blue, style=dotted, label=\"dom\"];\n\n"
    );
}

#[test]
fn edges_to_the_successors_of_a_block() {
    let (insts, mut blocks, tokenizer) = stores();
    blocks.get_mut(1).set_fall_through(0);
    assert_eq!(
        blocks.get(1).generate_graph(&insts, &blocks, &tokenizer),
        "\tbb1 [shape=record, label=\"<b>BB1 | { 3: add (0) (1) | 4: \\<empty\\> }\"];\n\
         \tbb1:s -> bb0:n ;\n\
         \tbb0:b -> bb1:b [color=blue, style=dotted, label=\"dom\"];\n\n"
    );
    blocks.get_mut(1).set_follow(1);
    assert_eq!(
        blocks.get(1).generate_graph(&insts, &blocks, &tokenizer),
        "\tbb1 [shape=record, label=\"<b>BB1 | { 3: add (0) (1) | 4: \\<empty\\> }\"];\n\
         \tbb1:s -> bb0:n [label=\"fall-through\"];\n\
         \tbb1:s -> bb1:n [label=\"branch\"];\n\
         \tbb0:b -> bb1:b [color=blue, style=dotted, label=\"dom\"];\n\n"
    );
    // A branch target alone is no edge.
    let mut lone = Block::from(1, blocks.get(0));
    lone.add_inst(3, IType::Add { inst1: slot(0), inst2: slot(1) });
    lone.set_follow(0);
    assert_eq!(
        lone.generate_graph(&insts, &blocks, &tokenizer),
        "\tbb1 [shape=record, label=\"<b>BB1 | { 3: add (0) (1) }\"];\n\
         \tbb0:b -> bb1:b [color=blue, style=dotted, label=\"dom\"];\n\n"
    );
}

#[test]
fn a_block_that_ends_in_a_return_has_no_edge_to_a_successor() {
    let mut parser = Parser::new(
        b"main function f(a); { if a < 1 then return 1 fi; return 2 }; { call f(3) } .",
    );
    assert_eq!(parser.computation(), Some(()));
    // Block 3 is the fall-through arm: its successor is the join, block 4,
    // but it ends in a return.
    assert_eq!(parser.blocks().get(3).get_next(), (Some(4), None));
    let node = parser.blocks().get(3).generate_graph(
        parser.insts(),
        parser.blocks(),
        parser.tokenizer(),
    );
    assert!(!node.contains("bb3:s"));
    assert!(node.contains("bb2:b -> bb3:b"));
    let graph = parser.generate_graph();
    assert!(graph.contains("\tbb2:s -> bb3:n [label=\"fall-through\"];\n"));
    assert!(graph.ends_with("\tbb0:s -> bb1:n\n\tbb0:s -> bb2:n\n}"));
}

#[test]
fn the_entries_of_functions_come_in_the_order_of_their_names() {
    // g is interned before f, so its entry edge comes first although its
    // block is created later.
    let mut parser = Parser::new(
        b"main var g; function f(); { return }; function g(); { return }; { call g } .",
    );
    assert_eq!(parser.computation(), Some(()));
    assert!(parser
        .generate_graph()
        .ends_with("\tbb0:s -> bb1:n\n\tbb0:s -> bb3:n\n\tbb0:s -> bb2:n\n}"));
}

#[test]
fn a_use_can_outlive_its_instruction() {
    // d = p + q is merged into a first. Only then c = a + y is merged into
    // b, and e = d + y, which has become a + y, is merged into c on the
    // next pass: into an instruction that no block holds any more.
    let mut parser = Parser::new(
        b"main var p, q, y, a, b, c, d, e; { let p <- call InputNum(); let q <- call InputNum(); let y <- call InputNum(); let a <- p + q; let b <- a + y; let c <- a + y; let d <- p + q; let e <- d + y; call OutputNum(e) }.",
    );
    assert_eq!(parser.computation(), Some(()));
    let write = parser
        .insts()
        .instructions
        .iter()
        .find(|inst| matches!(inst.itype(), IType::Write { .. }))
        .unwrap();
    let operand = match write.itype() {
        IType::Write { inst } => inst.0,
        _ => unreachable!(),
    };
    assert_eq!(parser.insts().get(operand).block(), None);
    assert_eq!(operand, 10);
}
