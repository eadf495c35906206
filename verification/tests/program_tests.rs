use ssa_builder::itype::IType;
use ssa_builder::parser::Parser;

fn built(input: &[u8]) -> Parser {
    let mut parser = Parser::new(input);
    assert_eq!(parser.build(), Some(()));
    parser
}

fn compiled(input: &[u8]) -> Parser {
    let mut parser = Parser::new(input);
    assert_eq!(parser.computation(), Some(()));
    parser
}

fn kinds(parser: &Parser, block: usize) -> Vec<IType> {
    parser
        .blocks()
        .get(block)
        .iter()
        .iter()
        .map(|&id| parser.insts().get(id).itype())
        .filter(|itype| !matches!(itype, IType::Assignment { .. }))
        .collect()
}

fn slot(id: usize) -> (usize, Option<usize>) {
    (id, None)
}

const COPY_LOOP: &[u8] = b"
main
var fa, fb, n, t;
{
    let fa <- 0;
    let fb <- 1;
    let t <- fa + fb;
    let n <- call InputNum();
    let t <- n - 1;
    while n > 0 do
        let t <- fb;
        let fb <- fa + fb;
        let fa <- t;
        let n <- n - 1;
    od;
    call OutputNum(fa);
    call OutputNewLine();
}
.";

const NESTED_IFS: &[u8] = b"
main
var a, b;
{
    let a <- call InputNum();
    let b <- call InputNum();
    if a > 0 then
        if b > 0 then
            call OutputNum(0)
        else
            call OutputNum(1)
        fi
    else
        if b > 0 then
            call OutputNum(1)
        else
            call OutputNum(0)
        fi
    fi
}.
";

const TEST_CSE: &[u8] = b"
main
var a,b,c,d,e;
{
    let a <- call InputNum();
    let b <- a;
    let c <- b;
    let d <- b + c;
    let e <- a + b;
    if a < 0 then
        let d <-  d + e;
        let a <- d
    else
        let d <- e
    fi;
    call OutputNum(a)
}.
";

const BASIC_FUNC: &[u8] = b"
main
var x;

function add(a, b); {
    return a + b
};

void function println(n); {
    call OutputNum(n);
    call OutputNewLine
};

{
    let x <- call add(1, 1);
    call println(x)
}
.
";

#[test]
fn constant_fold() {
    let parser = compiled(b"main var x; { let x <- 1 + 2 * 3 } .");
    assert_eq!(parser.insts().instructions.len(), 3);
    assert_eq!(parser.insts().get(0).itype(), IType::Const(7));
    assert_eq!(parser.insts().get(0).block(), Some(0));
    assert!(matches!(
        parser.insts().get(1).itype(),
        IType::Assignment { var: 3, dep_var: None }
    ));
    assert_eq!(parser.insts().get(2).itype(), IType::End);
    assert_eq!(kinds(&parser, 0), vec![IType::Const(7)]);
    assert_eq!(kinds(&parser, 1), vec![IType::End]);
    assert_eq!(parser.blocks().get(1).get_var_inst(3), Some(0));
    assert!(parser
        .insts()
        .instructions
        .iter()
        .all(|inst| !matches!(inst.itype(), IType::Add { .. } | IType::Mul { .. })));
    assert_eq!(parser.generate_instructions(), "0: const #7\n\n2: end");
}

#[test]
fn uninitialized_variable_is_reported_and_reads_zero() {
    let parser = compiled(b"main var x,y; { let x <- y } .");
    assert_eq!(parser.warnings(), &vec![4]);
    assert_eq!(parser.tokenizer().get_var(4), "y");
    assert_eq!(parser.insts().get(0).itype(), IType::Const(0));
    assert_eq!(parser.insts().get(0).block(), Some(0));
    assert_eq!(parser.blocks().get(1).get_var_inst(3), Some(0));
    assert_eq!(parser.blocks().get(1).get_var_inst(4), Some(0));
    assert_eq!(parser.blocks().get(1).get_var_def(3), Some((0, Some(4))));
    assert_eq!(parser.blocks().get(1).get_var_def(4), Some((0, None)));
}

#[test]
fn a_variable_is_reported_once_per_block() {
    let parser = compiled(b"main var x,y; { let x <- y + y; let x <- y } .");
    assert_eq!(parser.warnings(), &vec![4]);
}

#[test]
fn an_undeclared_variable_is_reported_and_reads_zero() {
    let parser = compiled(b"main { call OutputNum(z) } .");
    assert_eq!(parser.warnings(), &vec![3]);
    assert_eq!(parser.insts().get(0).itype(), IType::Const(0));
    assert!(matches!(parser.insts().get(1).itype(), IType::Write { inst: (0, Some(3)) }));
    assert_eq!(parser.blocks().get(1).get_var_inst(3), Some(0));
}

#[test]
fn common_subexpressions_across_if() {
    let parser = compiled(TEST_CSE);
    // b and c are copies of a, so b + c and a + b are the same addition.
    assert_eq!(parser.insts().get(4).itype(), IType::Add { inst1: slot(0), inst2: slot(0) });
    assert_eq!(parser.insts().get(4).block(), Some(1));
    assert_eq!(parser.insts().get(6).block(), None);
    assert_eq!(parser.blocks().get(1).iter(), &[0, 1, 2, 3, 4, 5, 7, 9, 23]);
    // d + e in the fall-through arm uses the surviving addition twice.
    assert_eq!(parser.insts().get(20).itype(), IType::Add { inst1: slot(4), inst2: slot(4) });
    assert_eq!(parser.insts().get(20).block(), Some(2));
    // The join keeps the phis of a and d; those of b, c and e were trivial.
    assert_eq!(
        kinds(&parser, 3),
        vec![
            IType::Phi { inst1: (20, None), inst2: (4, None), var: 6 },
            IType::Phi { inst1: (20, None), inst2: (0, None), var: 3 },
            IType::Write { inst: slot(10) },
            IType::End,
        ]
    );
    assert_eq!(
        parser.generate_instructions(),
        // The last block holds only its placeholder, which is left out.
        "8: const #0\n\n\
         0: read\n4: add (0) (0)\n9: cmp (0) (8)\n23: bge (9) (28)\n\n\
         20: add (4) (4)\n24: bra (16)\n\n\
         16: (d) phi (20) (4)\n10: (a) phi (20) (0)\n26: write (10)\n27: end\n\n"
    );
}

#[test]
fn at_most_one_addition_per_operand_pair_and_chain() {
    let parser = compiled(TEST_CSE);
    let insts = &parser.insts().instructions;
    for inst in insts.iter().filter(|inst| inst.block().is_some()) {
        let mut link = inst.dom();
        while let Some(earlier) = link {
            let other = parser.insts().get(earlier);
            if other.block().is_some() {
                assert_ne!(other.itype(), inst.itype());
            }
            link = other.dom();
        }
    }
}

#[test]
fn while_phis_after_construction() {
    let parser = built(COPY_LOOP);
    // fa = 3, fb = 4, n = 5, t = 6; block 2 is the loop header.
    let header = parser.blocks().get(2);
    assert_eq!(header.dom(), Some(1));
    assert_eq!(header.get_phi(3), Some(10));
    assert_eq!(header.get_phi(4), Some(12));
    assert_eq!(header.get_phi(5), Some(14));
    assert_eq!(header.get_phi(6), Some(16));
    assert_eq!(header.iter(), &[16, 17, 14, 15, 12, 13, 10, 11, 18, 26]);
    // The first operand is the value before the loop, the second the one
    // that comes along the back edge.
    assert!(matches!(
        parser.insts().get(10).itype(),
        IType::Phi { inst1: (0, None), inst2: (12, None), var: 3 }
    ));
    assert!(matches!(
        parser.insts().get(12).itype(),
        IType::Phi { inst1: (2, None), inst2: (20, None), var: 4 }
    ));
    assert!(matches!(
        parser.insts().get(14).itype(),
        IType::Phi { inst1: (6, None), inst2: (23, None), var: 5 }
    ));
    assert!(matches!(
        parser.insts().get(16).itype(),
        IType::Phi { inst1: (8, None), inst2: (12, None), var: 6 }
    ));
    // The condition and the body read the phis.
    assert!(matches!(
        parser.insts().get(18).itype(),
        IType::Cmp { inst1: (14, Some(5)), inst2: (0, None) }
    ));
    assert!(matches!(
        parser.insts().get(20).itype(),
        IType::Add { inst1: (10, Some(3)), inst2: (12, Some(4)) }
    ));
    assert!(matches!(
        parser.insts().get(23).itype(),
        IType::Sub { inst1: (14, Some(5)), inst2: (2, None) }
    ));
    // The back edge ends the body.
    let body = parser.blocks().get(3);
    assert_eq!(body.dom(), Some(2));
    assert_eq!(body.get_last_inst(), Some(25));
    assert_eq!(parser.insts().get(25).itype(), IType::Bra { block: 2 });
    assert_eq!(body.get_next(), (Some(2), None));
    // The header branches to the follow block, which inherits the phis.
    assert_eq!(parser.insts().get(26).itype(), IType::Ble { inst: 18, block: Some(4) });
    assert_eq!(header.get_next(), (Some(3), Some(4)));
    let follow = parser.blocks().get(4);
    assert_eq!(follow.dom(), Some(2));
    assert_eq!(follow.get_var_inst(3), Some(10));
    assert_eq!(follow.get_var_inst(4), Some(12));
    assert_eq!(follow.get_var_inst(5), Some(14));
    assert_eq!(follow.get_var_inst(6), Some(16));
    assert_eq!(
        kinds(&parser, 4),
        vec![IType::Write { inst: slot(10) }, IType::WriteNL, IType::End]
    );
    assert_eq!(parser.blocks().get(1).get_next(), (Some(2), None));
}

#[test]
fn while_listing() {
    let parser = compiled(COPY_LOOP);
    assert_eq!(
        parser.generate_instructions(),
        "0: const #0\n2: const #1\n\n\
         4: add (0) (2)\n6: read\n8: sub (6) (2)\n\n\
         16: (t) phi (8) (12)\n14: (n) phi (6) (23)\n12: (fb) phi (2) (20)\n\
         10: (fa) phi (0) (12)\n18: cmp (14) (0)\n26: ble (18) (27)\n\n\
         20: add (10) (12)\n23: sub (14) (2)\n25: bra (16)\n\n\
         27: write (10)\n28: writeNL\n29: end"
    );
}

#[test]
fn nested_ifs_have_four_output_blocks_and_one_join_chain() {
    let parser = compiled(NESTED_IFS);
    let writes: Vec<(usize, IType)> = parser
        .insts()
        .instructions
        .iter()
        .filter(|inst| matches!(inst.itype(), IType::Write { .. }))
        .map(|inst| (inst.block().unwrap(), inst.itype()))
        .collect();
    // Constant 0 is instruction 4 and constant 1 is instruction 18.
    assert_eq!(
        writes,
        vec![
            (4, IType::Write { inst: slot(4) }),
            (6, IType::Write { inst: slot(18) }),
            (8, IType::Write { inst: slot(18) }),
            (10, IType::Write { inst: slot(4) }),
        ]
    );
    // Inner joins 5 and 9 fall through to the outer join 3.
    assert_eq!(parser.blocks().get(4).get_next(), (Some(5), None));
    assert_eq!(parser.blocks().get(6).get_next(), (Some(5), None));
    assert_eq!(parser.blocks().get(5).get_next(), (Some(3), None));
    assert_eq!(parser.blocks().get(8).get_next(), (Some(9), None));
    assert_eq!(parser.blocks().get(10).get_next(), (Some(9), None));
    assert_eq!(parser.blocks().get(9).get_next(), (Some(3), None));
    assert_eq!(parser.blocks().get(1).get_next(), (Some(2), Some(7)));
    assert_eq!(parser.blocks().get(2).get_next(), (Some(4), Some(6)));
    assert_eq!(parser.blocks().get(7).get_next(), (Some(8), Some(10)));
    assert_eq!(kinds(&parser, 3), vec![IType::End]);
    // No variable is assigned in any arm: every phi was trivial.
    for block in parser.blocks().iter() {
        for itype in kinds(&parser, block.id()) {
            assert!(!matches!(itype, IType::Phi { .. }));
        }
    }
}

#[test]
fn function_call() {
    let parser = compiled(BASIC_FUNC);
    // The entry blocks are children of block 0.
    assert_eq!(parser.blocks().get(2).dom(), Some(0));
    assert_eq!(parser.blocks().get(3).dom(), Some(0));
    assert_eq!(
        kinds(&parser, 2),
        vec![
            IType::GetPar1,
            IType::GetPar2,
            IType::Add { inst1: slot(0), inst2: slot(1) },
            IType::Ret { inst: Some(slot(2)) },
        ]
    );
    assert_eq!(
        kinds(&parser, 3),
        vec![IType::GetPar1, IType::Write { inst: slot(4) }, IType::WriteNL, IType::Ret { inst: None }]
    );
    assert_eq!(
        kinds(&parser, 1),
        vec![
            IType::SetPar1 { inst: slot(8) },
            IType::SetPar2 { inst: slot(8) },
            IType::Jsr { block: 2 },
            IType::SetPar1 { inst: slot(11) },
            IType::Jsr { block: 3 },
            IType::End,
        ]
    );
    assert_eq!(parser.insts().get(8).itype(), IType::Const(1));
    // The value of the call is the jump.
    assert_eq!(parser.blocks().get(1).get_var_inst(3), Some(11));
    assert_eq!(
        parser.generate_instructions(),
        "8: const #1\n\n\
         9: setpar1 (8)\n10: setpar2 (8)\n11: jsr 0\n13: setpar1 (11)\n14: jsr 4\n15: end\n\n\
         0: getpar1\n1: getpar2\n2: add (0) (1)\n3: ret (2)\n\n\
         4: getpar1\n5: write (4)\n6: writeNL\n7: ret"
    );
}

#[test]
fn function_call_graph() {
    let parser = compiled(BASIC_FUNC);
    let expected = "digraph G {\n\
\tbb0 [shape=record, label=\"<b>BB0 | { 8: const #1 }\"];\n\
\n\
\n\
\tbb1 [shape=record, label=\"<b>BB1 | { 9: setpar1 (8) | 10: setpar2 (8) | 11: jsr 0 | 13: setpar1 (11) | 14: jsr 4 | 15: end }\"];\n\
\tbb0:b -> bb1:b [color=blue, style=dotted, label=\"dom\"];\n\
\n\
\n\
\tbb2 [shape=record, label=\"<b>BB2 | { 0: getpar1 | 1: getpar2 | 2: add (0) (1) | 3: ret (2) }\"];\n\
\tbb0:b -> bb2:b [color=blue, style=dotted, label=\"dom\"];\n\
\n\
\n\
\tbb3 [shape=record, label=\"<b>BB3 | { 4: getpar1 | 5: write (4) | 6: writeNL | 7: ret }\"];\n\
\tbb0:b -> bb3:b [color=blue, style=dotted, label=\"dom\"];\n\
\n\
\n\
\tbb0:s -> bb1:n\n\
\tbb0:s -> bb2:n\n\
\tbb0:s -> bb3:n\n\
}";
    assert_eq!(parser.generate_graph(), expected);
}

#[test]
fn if_else_graph() {
    let parser = compiled(TEST_CSE);
    let expected = "digraph G {\n\
\tbb0 [shape=record, label=\"<b>BB0 | { 8: const #0 }\"];\n\
\n\
\n\
\tbb1 [shape=record, label=\"<b>BB1 | { 0: read | 4: add (0) (0) | 9: cmp (0) (8) | 23: bge (9) (28) }\"];\n\
\tbb1:s -> bb2:n [label=\"fall-through\"];\n\
\tbb1:s -> bb4:n [label=\"branch\"];\n\
\tbb0:b -> bb1:b [color=blue, style=dotted, label=\"dom\"];\n\
\n\
\n\
\tbb2 [shape=record, label=\"<b>BB2 | { 20: add (4) (4) | 24: bra (16) }\"];\n\
\tbb2:s -> bb3:n ;\n\
\tbb1:b -> bb2:b [color=blue, style=dotted, label=\"dom\"];\n\
\n\
\n\
\tbb3 [shape=record, label=\"<b>BB3 | { 16: (d) phi (20) (4) | 10: (a) phi (20) (0) | 26: write (10) | 27: end }\"];\n\
\tbb1:b -> bb3:b [color=blue, style=dotted, label=\"dom\"];\n\
\n\
\n\
\tbb4 [shape=record, label=\"<b>BB4 | { 28: \\<empty\\> }\"];\n\
\tbb4:s -> bb3:n ;\n\
\tbb1:b -> bb4:b [color=blue, style=dotted, label=\"dom\"];\n\
\n\
\n\
\tbb0:s -> bb1:n\n\
}";
    assert_eq!(parser.generate_graph(), expected);
}
