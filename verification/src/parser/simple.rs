//! The rules of the statements that hold no other statement.
use vstd::prelude::*;
use crate::itype::{IType, Operand};
use crate::parser::Parser;
use crate::state::{lemma_holds_settled, lemma_reaches_settled, reversed_branch};
use crate::tokenizer_data::{RelOp, Token};

verus! {

impl Parser {
    /// relation = expression relOp expression
    ///
    /// Emits the comparison of the two values into the current block, as
    /// its last instruction, and returns the branch on it that is taken
    /// when the relation does not hold. The branch has no target yet.
    pub(crate) fn relation(&mut self) -> (r: Option<IType>)
        requires
            old(self).wf(),
        ensures
            old(self)@.links_same(final(self)@),
            (final(self)@, r) == crate::grammar::relation(old(self)@),
            old(self)@.placed() ==> final(self)@.placed(),
            final(self).wf(),
            old(self)@.grows_to(final(self)@),
            old(self)@.same_cursor(final(self)@),
            r is Some ==> final(self)@.tokens.measure() < old(self)@.tokens.measure(),
            r matches Some(branch) ==> {
                &&& final(self)@.insts.len() > 0
                &&& final(self)@.insts.last().itype is Cmp
                &&& final(self)@.insts.last().block == Some(final(self)@.curr)
                &&& final(self)@.blocks[final(self)@.curr as int].insts.len() > 0
                &&& final(self)@.blocks[final(self)@.curr as int].insts.last()
                    == final(self)@.insts.len() - 1
                &&& branch.is_cond_branch()
                &&& branch.target() is None
                &&& branch.cond() == Some((final(self)@.insts.len() - 1) as usize)
            },
        decreases old(self)@.tokens.measure(), 4nat,
    {
        proof {
            reveal(crate::grammar::relation);
        }
        let expr1 = match self.expression() {
            Some(expr) => expr,
            None => {
                return None;
            },
        };
        let rel_op = match self.peek() {
            Some(Token::RelOp(rel_op)) => rel_op,
            _ => {
                return None;
            },
        };
        let ghost s1 = self@;
        self.advance();
        let expr2 = match self.expression() {
            Some(expr) => expr,
            None => {
                return None;
            },
        };
        let ghost s2 = self@;
        proof {
            if s1.placed() && s1.holds(expr1) {
                lemma_holds_settled(s1, s2, expr1);
            }
        }
        let inst1 = self.op_to_inst(expr1);
        let ghost s3 = self@;
        proof {
            if s2.placed() && s2.holds(expr2) {
                lemma_holds_settled(s2, s3, expr2);
            }
        }
        let inst2 = self.op_to_inst(expr2);
        proof {
            if s3.placed() && s3.reaches(inst1.0, s3.curr as int) {
                lemma_reaches_settled(s3, self@, inst1.0, s3.curr as int);
            }
        }
        let compare_inst = self.add_inst(self.curr(), IType::Cmp { inst1, inst2 });
        let instruction = match rel_op {
            RelOp::Equal => IType::Bne { inst: compare_inst, block: None },
            RelOp::NotEqual => IType::Beq { inst: compare_inst, block: None },
            RelOp::LessThan => IType::Bge { inst: compare_inst, block: None },
            RelOp::LessThanOrEqual => IType::Bgt { inst: compare_inst, block: None },
            RelOp::GreaterThan => IType::Ble { inst: compare_inst, block: None },
            RelOp::GreaterThanOrEqual => IType::Blt { inst: compare_inst, block: None },
        };
        assert(instruction == reversed_branch(rel_op, compare_inst));
        Some(instruction)
    }

    /// assignment = 'let' ident '<-' expression
    ///
    /// Materialises the value, emits an assignment marker into the current
    /// block, propagates the new definition to the joins of the open
    /// frames and binds the variable in the current block.
    pub(crate) fn assignment(&mut self) -> (r: Option<()>)
        requires
            old(self).wf(),
        ensures
            old(self)@.links_same(final(self)@),
            (final(self)@, r) == crate::grammar::assignment(old(self)@),
            old(self)@.placed() ==> final(self)@.placed(),
            final(self).wf(),
            old(self)@.grows_to(final(self)@),
            old(self)@.same_cursor(final(self)@),
            r is Some ==> final(self)@.tokens.measure() < old(self)@.tokens.measure(),
        decreases old(self)@.tokens.measure(), 5nat,
    {
        proof {
            reveal(crate::grammar::assignment);
        }
        if self.consume(Token::Let).is_none() {
            return None;
        }
        let var = match self.peek() {
            Some(Token::Ident(var)) => var,
            _ => {
                return None;
            },
        };
        self.advance();
        if self.consume(Token::Assignment).is_none() {
            return None;
        }
        let expr = match self.expression() {
            Some(expr) => expr,
            None => {
                return None;
            },
        };
        let dep_var = match expr {
            Operand::Var(dep_var) => Some(dep_var),
            _ => None,
        };
        let assignment = IType::Assignment { var, dep_var };
        let inst = self.op_to_inst(expr);
        let ghost s1 = self@;
        self.add_inst(self.curr(), assignment);
        if self.has_frame() {
            self.add_phi(var, inst.0);
        }
        proof {
            if s1.placed() && s1.reaches(inst.0, s1.curr as int) {
                lemma_reaches_settled(s1, self@, inst.0, s1.curr as int);
            }
        }
        self.assign_var(var, inst.0, dep_var);
        Some(())
    }

    /// returnStmt = 'return' [expression]
    ///
    /// Emits the return, with the value when an expression follows. An
    /// expression follows when the next token can start one; it is then
    /// required.
    pub(crate) fn return_statement(&mut self) -> (r: Option<()>)
        requires
            old(self).wf(),
        ensures
            old(self)@.links_same(final(self)@),
            (final(self)@, r) == crate::grammar::return_statement(old(self)@),
            old(self)@.placed() ==> final(self)@.placed(),
            final(self).wf(),
            old(self)@.grows_to(final(self)@),
            old(self)@.same_cursor(final(self)@),
            r is Some ==> final(self)@.tokens.measure() < old(self)@.tokens.measure(),
            r is Some ==> final(self)@.insts.len() > 0 && final(self)@.insts.last().itype is Ret,
        decreases old(self)@.tokens.measure(), 5nat,
    {
        proof {
            reveal(crate::grammar::return_statement);
        }
        if self.consume(Token::Return).is_none() {
            return None;
        }
        let inst = match self.peek() {
            Some(Token::Ident(_)) | Some(Token::Number(_)) | Some(Token::OpenParen) | Some(
                Token::Call,
            ) => {
                let op = match self.expression() {
                    Some(op) => op,
                    None => {
                        return None;
                    },
                };
                Some(self.op_to_inst(op))
            },
            _ => None,
        };
        self.add_inst(self.curr(), IType::Ret { inst });
        Some(())
    }
}

} // verus!
