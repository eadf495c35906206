use ssa_builder::itype::IType;
use ssa_builder::parser::Parser;

const PROGRAMS: [&[u8]; 6] = [
    b"main var x; { let x <- 1 + 2 * 3 } .",
    b"
main
var a,b,c,d,e;
{
    let a <- call InputNum();
    let b <- a;
    let c <- b;
    let d <- b + c;
    let e <- a + b;
    if a < 0 then
        let d <-  d + e;
        let a <- d
    else
        let d <- e
    fi;
    call OutputNum(a)
}.
",
    b"
main
var x,k,j,m;
{
let x <- call InputNum;
let k <- call InputNum();
while x < 10 do
    let j <- 0;
    let m <- 1;

    let x <- x + 1;
    call OutputNum(111);
    call OutputNewLine();
    if k > 5 then
        while j < 15 do
            let j <- j + k;
            while m < 20 do
                let k <- k * 1;
                let m <- m + 1
            od
        od;
        let k <- k - 1;
        call OutputNum(k);
        call OutputNewLine
    else
        while m < 20 do
            let m <- m + k
        od;
        let k <- k + 1;
        call OutputNum(k);
        call OutputNewLine
    fi;
    call OutputNum(k);
    call OutputNewLine
od;
call OutputNum(x);
call OutputNewLine;
call OutputNum(k);
call OutputNewLine
}
.
",
    b"
main
function mod(x,y); {
    if y == 0 then
        return x;
    fi;
    while x < 0 do
        let x <- x + y;
    od;
    while x >= y do
        let x <- x - y;
    od;
    return x;
};
function gcd(x,y); {
    if x == 0 then
        return y;
    fi;
    return call gcd(y, call mod(x,y));
};
{
    call OutputNum(call gcd(110,121));
    call OutputNewLine();
}
.
",
    b"
main
var a, b;
{
    let a <- call InputNum();
    let b <- call InputNum();
    if a > 0 then
        if b > 0 then
            call OutputNum(0)
        else
            call OutputNum(1)
        fi
    else
        if b > 0 then
            call OutputNum(1)
        else
            call OutputNum(0)
        fi
    fi
}.
",
    b"main var u; { let u <- u + 1; while u < 3 do let u <- u * 2 od } .",
];

fn operands(itype: IType) -> Vec<usize> {
    match itype {
        IType::Add { inst1, inst2 }
        | IType::Sub { inst1, inst2 }
        | IType::Mul { inst1, inst2 }
        | IType::Div { inst1, inst2 }
        | IType::Cmp { inst1, inst2 }
        | IType::Phi { inst1, inst2, .. } => vec![inst1.0, inst2.0],
        IType::Ret { inst: Some(inst) }
        | IType::SetPar1 { inst }
        | IType::SetPar2 { inst }
        | IType::SetPar3 { inst }
        | IType::Write { inst } => vec![inst.0],
        IType::Bne { inst, .. }
        | IType::Beq { inst, .. }
        | IType::Ble { inst, .. }
        | IType::Blt { inst, .. }
        | IType::Bge { inst, .. }
        | IType::Bgt { inst, .. } => vec![inst],
        _ => vec![],
    }
}

fn dominates(parser: &Parser, a: usize, b: usize) -> bool {
    let mut block = b;
    loop {
        if block == a {
            return true;
        }
        match parser.blocks().get(block).dom() {
            Some(parent) => block = parent,
            None => return false,
        }
    }
}

#[test]
fn the_dominator_tree_is_well_formed() {
    for program in PROGRAMS {
        let mut parser = Parser::new(program);
        assert_eq!(parser.computation(), Some(()));
        assert_eq!(parser.blocks().get(0).dom(), None);
        for block in parser.blocks().iter().iter().skip(1) {
            let parent = block.dom().unwrap();
            assert!(parent < block.id());
            assert!(dominates(&parser, 0, block.id()));
        }
    }
}

#[test]
fn operands_dominate_their_uses_after_construction() {
    for program in PROGRAMS {
        let mut parser = Parser::new(program);
        assert_eq!(parser.build(), Some(()));
        for inst in parser.insts().instructions.iter() {
            let block = inst.block().unwrap();
            if matches!(inst.itype(), IType::Phi { .. }) {
                continue;
            }
            for operand in operands(inst.itype()) {
                let owner = parser.insts().get(operand).block().unwrap();
                assert!(dominates(&parser, owner, block));
            }
            if let Some(link) = inst.dom() {
                let owner = parser.insts().get(link).block().unwrap();
                assert!(dominates(&parser, owner, block));
            }
        }
        for block in parser.blocks().iter() {
            for def in block.var_map.values() {
                if let Some((inst, _)) = def {
                    let owner = parser.insts().get(*inst).block().unwrap();
                    assert!(dominates(&parser, owner, block.id()));
                }
            }
        }
    }
}

#[test]
fn every_instruction_is_defined_once() {
    for program in PROGRAMS {
        let mut parser = Parser::new(program);
        assert_eq!(parser.computation(), Some(()));
        for (position, inst) in parser.insts().instructions.iter().enumerate() {
            assert_eq!(inst.id(), position);
        }
        assert_eq!(parser.insts().inst_count, parser.insts().instructions.len());
        // An instruction is listed by the block that owns it, once.
        for block in parser.blocks().iter() {
            let mut seen = Vec::new();
            for &id in block.iter() {
                assert!(!seen.contains(&id));
                seen.push(id);
                assert_eq!(parser.insts().get(id).block(), Some(block.id()));
            }
        }
    }
}

#[test]
fn a_rename_leaves_no_use_of_the_old_id() {
    for program in PROGRAMS {
        let mut parser = Parser::new(program);
        assert_eq!(parser.build(), Some(()));
        let mut insts = parser.insts().clone();
        let count = insts.instructions.len();
        for from in 0..count {
            let to = (from + 1) % count;
            if from == to {
                continue;
            }
            insts.rename_inst(from, to);
            for (position, inst) in insts.instructions.iter().enumerate() {
                assert!(!operands(inst.itype()).contains(&from));
                assert_eq!(inst.id(), position);
            }
        }
    }
}

#[test]
fn constants_are_not_duplicated() {
    for program in PROGRAMS {
        let mut parser = Parser::new(program);
        assert_eq!(parser.computation(), Some(()));
        let mut values = Vec::new();
        for inst in parser.insts().instructions.iter() {
            if let IType::Const(value) = inst.itype() {
                assert!(!values.contains(&value));
                values.push(value);
                assert_eq!(inst.block(), Some(0));
            }
        }
        for &id in parser.blocks().get(0).iter() {
            assert!(matches!(parser.insts().get(id).itype(), IType::Const(_) | IType::Empty));
        }
    }
}

#[test]
fn a_literal_that_is_used_has_one_constant() {
    let mut parser = Parser::new(
        b"main var x; { let x <- call InputNum(); let x <- x + 4; let x <- x * 4; if x < 4 then let x <- 4 fi } .",
    );
    assert_eq!(parser.computation(), Some(()));
    let fours = parser
        .insts()
        .instructions
        .iter()
        .filter(|inst| inst.itype() == IType::Const(4))
        .count();
    assert_eq!(fours, 1);
}

#[test]
fn a_third_pass_over_common_subexpressions_changes_nothing() {
    for program in PROGRAMS {
        let mut parser = Parser::new(program);
        assert_eq!(parser.build(), Some(()));
        parser.common_subexpression_elimination();
        parser.remove_phis();
        parser.common_subexpression_elimination();
        let insts = parser.insts().clone();
        let blocks = parser.blocks().clone();
        parser.common_subexpression_elimination();
        assert_eq!(parser.insts(), &insts);
        assert_eq!(parser.blocks(), &blocks);
    }
}

#[test]
fn a_chain_of_three_equal_pairs_takes_three_passes() {
    let mut parser = Parser::new(
        b"main var x, y, a, b, c, d, e, f; { let x <- call InputNum(); let y <- call InputNum(); let a <- x + y; let b <- a + 1; let c <- b + 1; let d <- x + y; let e <- d + 1; let f <- e + 1; call OutputNum(c); call OutputNum(f) }.",
    );
    assert_eq!(parser.build(), Some(()));
    let owned = |parser: &Parser, id: usize| parser.insts().get(id).block().is_some();
    // The additions: a = 4, b = 7, c = 9, d = 11, e = 13, f = 15.
    assert!(owned(&parser, 11) && owned(&parser, 13) && owned(&parser, 15));
    parser.common_subexpression_elimination();
    assert!(!owned(&parser, 11) && owned(&parser, 13) && owned(&parser, 15));
    parser.remove_phis();
    parser.common_subexpression_elimination();
    assert!(!owned(&parser, 11) && !owned(&parser, 13) && owned(&parser, 15));
    parser.common_subexpression_elimination();
    assert!(!owned(&parser, 11) && !owned(&parser, 13) && !owned(&parser, 15));
    assert!(matches!(parser.insts().get(17).itype(), IType::Write { inst: (9, _) }));
    assert!(matches!(parser.insts().get(18).itype(), IType::Write { inst: (9, _) }));
}

#[test]
fn no_trivial_phi_is_left() {
    for program in PROGRAMS {
        let mut parser = Parser::new(program);
        assert_eq!(parser.computation(), Some(()));
        for block in parser.blocks().iter() {
            for &id in block.iter() {
                if let IType::Phi { inst1, inst2, .. } = parser.insts().get(id).itype() {
                    assert_ne!(inst1.0, inst2.0);
                }
            }
        }
    }
}

#[test]
fn a_phi_that_becomes_trivial_behind_the_pass_stays() {
    let mut parser = Parser::new(
        b"main var x; { let x <- 5; if 1 < 2 then call OutputNewLine() fi; if 1 < 2 then let x <- 5 fi; call OutputNum(x) }.",
    );
    assert_eq!(parser.computation(), Some(()));
    // The phi of the first join, instruction 5, was replaced by the
    // constant; that made the phi of the second join trivial after the
    // pass had visited it.
    assert_eq!(parser.insts().get(0).itype(), IType::Const(5));
    assert_eq!(parser.blocks().get(3).get_phi(3), Some(5));
    assert!(!parser.blocks().get(3).iter().contains(&5));
    let second = parser.blocks().get(5).get_phi(3).unwrap();
    assert!(parser.blocks().get(5).iter().contains(&second));
    assert!(matches!(
        parser.insts().get(second).itype(),
        IType::Phi { inst1: (0, None), inst2: (0, None), var: 3 }
    ));
}

#[test]
fn every_block_emits_an_instruction() {
    for program in PROGRAMS {
        let mut parser = Parser::new(program);
        assert_eq!(parser.computation(), Some(()));
        for block in parser.blocks().iter() {
            assert!(block.get_first_inst(parser.insts()).is_some());
            let emitted = block
                .iter()
                .iter()
                .filter(|&&id| !matches!(parser.insts().get(id).itype(), IType::Assignment { .. }))
                .count();
            assert!(emitted >= 1);
        }
    }
}

#[test]
fn only_empty_blocks_get_a_placeholder() {
    let mut parser = Parser::new(b"main { if 1 < 2 then call OutputNewLine fi } .");
    assert_eq!(parser.build(), Some(()));
    let before: Vec<Vec<usize>> =
        parser.blocks().iter().iter().map(|block| block.iter().to_vec()).collect();
    assert_eq!(before, vec![vec![0, 1], vec![2, 4], vec![3], vec![5]]);
    parser.fill_empty();
    let after: Vec<Vec<usize>> =
        parser.blocks().iter().iter().map(|block| block.iter().to_vec()).collect();
    assert_eq!(after, before);
    let mut parser = Parser::new(b"main function f(); { }; { call f } .");
    assert_eq!(parser.build(), Some(()));
    parser.fill_empty();
    // The empty body holds its return; only block 0 is empty.
    assert_eq!(parser.insts().get(0).itype(), IType::Ret { inst: None });
    assert_eq!(parser.insts().get(0).block(), Some(2));
    assert_eq!(parser.insts().instructions.len(), 4);
    assert_eq!(parser.insts().get(3).itype(), IType::Empty);
    assert_eq!(parser.insts().get(3).block(), Some(0));
    assert_eq!(parser.blocks().get(1).iter(), &[1, 2]);
    assert_eq!(parser.blocks().get(2).iter(), &[0]);
}
