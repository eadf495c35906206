//! The rules of expressions.
use vstd::prelude::*;
use crate::itype::{Operand, Slot};
use crate::parser::Parser;
use crate::state::{lemma_all_reach_settled, lemma_holds_settled};
use crate::tokenizer_data::Token;

verus! {

impl Parser {
    // Parsers
    /// factor = number | ident | '(' expression ')' | funcCall
    ///
    /// A number gives a literal operand and an identifier a variable
    /// operand, and nothing is emitted for them.
    pub(crate) fn factor(&mut self) -> (r: Option<Operand>)
        requires
            old(self).wf(),
        ensures
            old(self)@.links_same(final(self)@),
            (final(self)@, r) == crate::grammar::factor(old(self)@),
            old(self)@.placed() ==> final(self)@.placed() && (r matches Some(operand)
                ==> final(self)@.holds(operand)),
            r matches Some(operand) ==> final(self)@.knows(operand),
            final(self).wf(),
            old(self)@.grows_to(final(self)@),
            old(self)@.same_cursor(final(self)@),
            r is Some ==> final(self)@.tokens.measure() < old(self)@.tokens.measure(),
        decreases old(self)@.tokens.measure(), 1nat,
    {
        proof {
            reveal(crate::grammar::factor);
            reveal(crate::grammar::expression);
            reveal(crate::grammar::func_call);
        }
        match self.peek() {
            Some(Token::Number(num)) => {
                self.advance();
                Some(Operand::Const(num))
            },
            Some(Token::OpenParen) => {
                self.advance();
                let res = match self.expression() {
                    Some(res) => res,
                    None => {
                        return None;
                    },
                };
                if self.consume(Token::CloseParen).is_none() {
                    return None;
                }
                Some(res)
            },
            Some(Token::Ident(var)) => {
                self.advance();
                Some(Operand::Var(var))
            },
            Some(Token::Call) => self.func_call(),
            _ => None,
        }
    }

    /// term = factor {('*'|'/') factor}
    ///
    /// The text must go on after the last factor: at the end of the input
    /// there is no term.
    pub(crate) fn term(&mut self) -> (r: Option<Operand>)
        requires
            old(self).wf(),
        ensures
            old(self)@.links_same(final(self)@),
            (final(self)@, r) == crate::grammar::term(old(self)@),
            old(self)@.placed() ==> final(self)@.placed() && (r matches Some(operand)
                ==> final(self)@.holds(operand)),
            r matches Some(operand) ==> final(self)@.knows(operand),
            final(self).wf(),
            old(self)@.grows_to(final(self)@),
            old(self)@.same_cursor(final(self)@),
            r is Some ==> final(self)@.tokens.measure() < old(self)@.tokens.measure(),
            r is Some ==> final(self)@.tokens.curr is Some,
        decreases old(self)@.tokens.measure(), 2nat,
    {
        proof {
            reveal(crate::grammar::term);
            reveal(crate::grammar::term_rest);
            reveal(crate::grammar::factor);
        }
        match self.peek() {
            Some(Token::Ident(_)) | Some(Token::Number(_)) | Some(Token::OpenParen) | Some(
                Token::Call,
            ) => {},
            _ => {
                return None;
            },
        }
        let mut res = match self.factor() {
            Some(res) => res,
            None => {
                return None;
            },
        };
        loop
            invariant
                self.wf(),
                old(self)@.grows_to(self@),
                old(self)@.same_cursor(self@),
                old(self)@.links_same(self@),
                self@.tokens.measure() < old(self)@.tokens.measure(),
                self@.knows(res),
                old(self)@.placed() ==> self@.placed() && self@.holds(res),
                crate::grammar::term(old(self)@) == crate::grammar::term_rest(self@, res),
            ensures
                self.wf(),
                self@.knows(res),
                old(self)@.placed() ==> self@.placed() && self@.holds(res),
                old(self)@.grows_to(self@),
                old(self)@.same_cursor(self@),
                old(self)@.links_same(self@),
                self@.tokens.measure() < old(self)@.tokens.measure(),
                self@.tokens.curr is Some,
                crate::grammar::term(old(self)@) == (self@, Some(res)),
            decreases self@.tokens.measure(),
        {
            proof {
                reveal(crate::grammar::term_rest);
                reveal(crate::grammar::factor);
            }
            let op = match self.peek() {
                Some(op) => op,
                None => {
                    return None;
                },
            };
            match op {
                Token::Times | Token::Divide => {
                    let ghost before = self@;
                    self.advance();
                    let factor = match self.factor() {
                        Some(factor) => factor,
                        None => {
                            return None;
                        },
                    };
                    proof {
                        if before.placed() && before.holds(res) {
                            lemma_holds_settled(before, self@, res);
                        }
                    }
                    res = self.compute(op, res, factor);
                },
                _ => {
                    break ;
                },
            }
        }
        Some(res)
    }

    /// expression = term {('+'|'-') term}
    ///
    /// The text must go on after the last term: at the end of the input
    /// there is no expression.
    pub(crate) fn expression(&mut self) -> (r: Option<Operand>)
        requires
            old(self).wf(),
        ensures
            old(self)@.links_same(final(self)@),
            (final(self)@, r) == crate::grammar::expression(old(self)@),
            old(self)@.placed() ==> final(self)@.placed() && (r matches Some(operand)
                ==> final(self)@.holds(operand)),
            r matches Some(operand) ==> final(self)@.knows(operand),
            final(self).wf(),
            old(self)@.grows_to(final(self)@),
            old(self)@.same_cursor(final(self)@),
            r is Some ==> final(self)@.tokens.measure() < old(self)@.tokens.measure(),
            r is Some ==> final(self)@.tokens.curr is Some,
        decreases old(self)@.tokens.measure(), 3nat,
    {
        proof {
            reveal(crate::grammar::expression);
            reveal(crate::grammar::expression_rest);
            reveal(crate::grammar::term);
        }
        match self.peek() {
            Some(Token::Ident(_)) | Some(Token::Number(_)) | Some(Token::OpenParen) | Some(
                Token::Call,
            ) => {},
            _ => {
                return None;
            },
        }
        let mut res = match self.term() {
            Some(res) => res,
            None => {
                return None;
            },
        };
        loop
            invariant
                self.wf(),
                old(self)@.grows_to(self@),
                old(self)@.same_cursor(self@),
                old(self)@.links_same(self@),
                self@.tokens.measure() < old(self)@.tokens.measure(),
                self@.knows(res),
                old(self)@.placed() ==> self@.placed() && self@.holds(res),
                crate::grammar::expression(old(self)@) == crate::grammar::expression_rest(self@, res),
            ensures
                self.wf(),
                self@.knows(res),
                old(self)@.placed() ==> self@.placed() && self@.holds(res),
                old(self)@.grows_to(self@),
                old(self)@.same_cursor(self@),
                old(self)@.links_same(self@),
                self@.tokens.measure() < old(self)@.tokens.measure(),
                self@.tokens.curr is Some,
                crate::grammar::expression(old(self)@) == (self@, Some(res)),
            decreases self@.tokens.measure(),
        {
            proof {
                reveal(crate::grammar::expression_rest);
                reveal(crate::grammar::term);
            }
            let op = match self.peek() {
                Some(op) => op,
                None => {
                    return None;
                },
            };
            match op {
                Token::Plus | Token::Minus => {
                    let ghost before = self@;
                    self.advance();
                    let term = match self.term() {
                        Some(term) => term,
                        None => {
                            return None;
                        },
                    };
                    proof {
                        if before.placed() && before.holds(res) {
                            lemma_holds_settled(before, self@, res);
                        }
                    }
                    res = self.compute(op, res, term);
                },
                _ => {
                    break ;
                },
            }
        }
        Some(res)
    }

    /// funcCall = 'call' ident [ '(' [expression {',' expression}] ')' ]
    ///
    /// The arguments are materialised in source order. `InputNum` reads,
    /// `OutputNum` writes its first argument and `OutputNewLine` writes a
    /// line end. A declared function gets each argument passed and then the
    /// jump to its entry block, whose id is the call's value. There is no
    /// call when the function is not declared, when `OutputNum` has no
    /// argument, or when a declared function gets more than three
    /// arguments, which is also recorded as unsupported.
    pub(crate) fn func_call(&mut self) -> (r: Option<Operand>)
        requires
            old(self).wf(),
        ensures
            old(self)@.links_same(final(self)@),
            (final(self)@, r) == crate::grammar::func_call(old(self)@),
            old(self)@.placed() ==> final(self)@.placed() && (r matches Some(operand)
                ==> final(self)@.holds(operand)),
            r matches Some(operand) ==> final(self)@.knows(operand),
            final(self).wf(),
            old(self)@.grows_to(final(self)@),
            old(self)@.same_cursor(final(self)@),
            r is Some ==> final(self)@.tokens.measure() < old(self)@.tokens.measure(),
            r matches Some(operand) ==> operand == Operand::Inst(
                (final(self)@.insts.len() - 1) as usize,
            ) && final(self)@.insts.len() > 0 && final(self)@.insts.last().block == Some(
                final(self)@.curr,
            ),
        decreases old(self)@.tokens.measure(), 0nat,
    {
        proof {
            reveal(crate::grammar::func_call);
            reveal(crate::grammar::call_args);
        }
        if self.consume(Token::Call).is_none() {
            return None;
        }
        let id = match self.peek() {
            Some(Token::Ident(id)) => id,
            _ => {
                return None;
            },
        };
        self.advance();
        let args = match self.call_args() {
            Some(args) => args,
            None => {
                return None;
            },
        };
        self.emit_call(id, args)
    }

    /// The arguments of a call, each materialised in the current block:
    /// `Some(None)` without a list or with an empty one, `None` when the
    /// list does not parse.
    pub(crate) fn call_args(&mut self) -> (r: Option<Option<Vec<Slot>>>)
        requires
            old(self).wf(),
        ensures
            old(self)@.links_same(final(self)@),
            (final(self)@, slots_of(r)) == crate::grammar::call_args(old(self)@),
            final(self).wf(),
            old(self)@.grows_to(final(self)@),
            old(self)@.same_cursor(final(self)@),
            r matches Some(Some(args)) ==> forall|k: int|
                0 <= k < args@.len() ==> (#[trigger] args@[k]).0 < final(self)@.insts.len(),
            old(self)@.placed() ==> final(self)@.placed() && (r matches Some(Some(args))
                ==> final(self)@.all_reach(args@)),
        decreases old(self)@.tokens.measure(), 0nat,
    {
        proof {
            reveal(crate::grammar::call_args);
            reveal(crate::grammar::args_rest);
            reveal(crate::grammar::expression);
        }
        if self.consume(Token::OpenParen).is_none() {
            return Some(None);
        }
        if self.consume(Token::CloseParen).is_some() {
            return Some(None);
        }
        let mut args: Vec<Slot> = Vec::new();
        loop
            invariant_except_break
                crate::grammar::call_args(old(self)@) == crate::grammar::args_rest(self@, args@),
            invariant
                self.wf(),
                old(self)@.grows_to(self@),
                old(self)@.same_cursor(self@),
                old(self)@.links_same(self@),
                self@.tokens.measure() < old(self)@.tokens.measure(),
                forall|k: int| 0 <= k < args@.len() ==> (#[trigger] args@[k]).0 < self@.insts.len(),
                old(self)@.placed() ==> self@.placed() && self@.all_reach(args@),
            ensures
                self.wf(),
                old(self)@.grows_to(self@),
                old(self)@.same_cursor(self@),
                old(self)@.links_same(self@),
                forall|k: int| 0 <= k < args@.len() ==> (#[trigger] args@[k]).0 < self@.insts.len(),
                old(self)@.placed() ==> self@.placed() && self@.all_reach(args@),
                crate::grammar::call_args(old(self)@) == (if self@.tokens.curr == Some(
                    Token::CloseParen,
                ) {
                    (self@.advance(), Some(Some(args@)))
                } else {
                    (self@, None::<Option<Seq<Slot>>>)
                }),
            decreases self@.tokens.measure(),
        {
            proof {
                reveal(crate::grammar::args_rest);
                reveal(crate::grammar::expression);
            }
            let ghost before = self@;
            let expr = match self.expression() {
                Some(expr) => expr,
                None => {
                    return None;
                },
            };
            let inst = self.op_to_inst(expr);
            proof {
                if before.placed() && before.all_reach(args@) {
                    lemma_all_reach_settled(before, self@, args@);
                }
            }
            args.push(inst);
            if !self.consume(Token::Comma).is_some() {
                break ;
            }
        }
        if self.consume(Token::CloseParen).is_none() {
            return None;
        }
        Some(Some(args))
    }
}

/// The arguments of a call as mathematical values.
pub open spec fn slots_of(args: Option<Option<Vec<Slot>>>) -> Option<Option<Seq<Slot>>> {
    match args {
        Some(Some(slots)) => Some(Some(slots@)),
        Some(None) => Some(None),
        None => None,
    }
}

} // verus!
