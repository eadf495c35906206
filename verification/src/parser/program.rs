//! The rules of declarations and of the whole program.
use vstd::prelude::*;
use crate::itype::IType;
use crate::parser::Parser;
use crate::tokenizer_data::Token;

verus! {

impl Parser {
    /// varDecl = ident {',' ident} ';'
    ///
    /// Declares each variable, without a value, in the current block.
    pub(crate) fn var_decl(&mut self) -> (r: Option<()>)
        requires
            old(self).wf(),
        ensures
            (final(self)@, r) == crate::grammar::var_decl(old(self)@),
            old(self)@.placed() ==> final(self)@.placed(),
            final(self).wf(),
            old(self)@.grows_to(final(self)@),
            old(self)@.same_cursor(final(self)@),
            final(self)@.insts == old(self)@.insts,
            r is Some ==> final(self)@.tokens.measure() < old(self)@.tokens.measure(),
    {
        proof {
            reveal(crate::grammar::var_decl);
        }
        loop
            invariant_except_break
                crate::grammar::var_decl(old(self)@) == crate::grammar::var_decl(self@),
            invariant
                self.wf(),
                old(self)@.grows_to(self@),
                old(self)@.same_cursor(self@),
                self@.insts == old(self)@.insts,
                old(self)@.placed() ==> self@.placed(),
                self@ == old(self)@ || self@.tokens.measure() < old(self)@.tokens.measure(),
            ensures
                self.wf(),
                old(self)@.grows_to(self@),
                old(self)@.same_cursor(self@),
                self@.insts == old(self)@.insts,
                old(self)@.placed() ==> self@.placed(),
                self@.tokens.measure() < old(self)@.tokens.measure(),
                crate::grammar::var_decl(old(self)@) == (if self@.tokens.curr == Some(
                    Token::Semicolon,
                ) {
                    (self@.advance(), Some(()))
                } else {
                    (self@, None::<()>)
                }),
            decreases self@.tokens.measure(),
        {
            proof {
                reveal(crate::grammar::var_decl);
            }
            match self.peek() {
                Some(Token::Ident(var)) => {
                    self.advance();
                    self.declare_var(var);
                },
                _ => {
                    return None;
                },
            }
            if !self.consume(Token::Comma).is_some() {
                break ;
            }
        }
        if self.consume(Token::Semicolon).is_none() {
            return None;
        }
        Some(())
    }

    /// funcDecl = ['void'] 'function' ident formalParam ';' funcBody ';'
    ///
    /// The function gets an entry block that is a child of block 0, and
    /// its identifier names that block from now on. After the body the
    /// cursor goes back to block 1.
    pub(crate) fn func_decl(&mut self) -> (r: Option<()>)
        requires
            old(self).wf(),
        ensures
            (final(self)@, r) == crate::grammar::func_decl(old(self)@),
            old(self)@.placed() ==> final(self)@.placed(),
            final(self).wf(),
            old(self)@.grows_to(final(self)@),
            r is Some ==> final(self)@.tokens.measure() < old(self)@.tokens.measure(),
            r is Some ==> final(self)@.curr == 1 && final(self)@.curr_init == 1,
    {
        proof {
            reveal(crate::grammar::func_decl);
        }
        self.consume(Token::Void);
        if self.consume(Token::Function).is_none() {
            return None;
        }
        let id = match self.peek() {
            Some(Token::Ident(id)) => id,
            _ => {
                return None;
            },
        };
        self.advance();
        // Create new block
        let start_block = self.new_block(0);
        self.register(id, start_block);
        self.set_entry(start_block);
        if self.formal_param().is_none() {
            return None;
        }
        if self.consume(Token::Semicolon).is_none() {
            return None;
        }
        if self.func_body().is_none() {
            return None;
        }
        self.set_entry(1);
        if self.consume(Token::Semicolon).is_none() {
            return None;
        }
        Some(())
    }

    /// formalParam = '(' [ident {',' ident}] ')'
    ///
    /// Each parameter, in order, is received by an instruction in the
    /// current block and bound to it. A fourth parameter is recorded as
    /// unsupported, and there is no parameter list then.
    pub(crate) fn formal_param(&mut self) -> (r: Option<()>)
        requires
            old(self).wf(),
        ensures
            (final(self)@, r) == crate::grammar::formal_param(old(self)@),
            old(self)@.placed() ==> final(self)@.placed(),
            final(self).wf(),
            old(self)@.grows_to(final(self)@),
            old(self)@.same_cursor(final(self)@),
            r is Some ==> final(self)@.tokens.measure() < old(self)@.tokens.measure(),
    {
        proof {
            reveal(crate::grammar::formal_param);
            reveal(crate::grammar::params_rest);
        }
        if self.consume(Token::OpenParen).is_none() {
            return None;
        }
        let mut argnum: usize = 0;
        match self.peek() {
            Some(Token::Ident(id)) => {
                self.advance();
                let getpar_inst = self.declare_arg(argnum);
                argnum = argnum + 1;
                self.assign_var(id, getpar_inst, None);
                loop
                    invariant_except_break
                        crate::grammar::formal_param(old(self)@) == crate::grammar::params_rest(
                            self@,
                            argnum,
                        ),
                    invariant
                        self.wf(),
                        old(self)@.grows_to(self@),
                        old(self)@.same_cursor(self@),
                        self@.tokens.measure() < old(self)@.tokens.measure(),
                        old(self)@.placed() ==> self@.placed(),
                        1 <= argnum <= 3,
                    ensures
                        self.wf(),
                        old(self)@.grows_to(self@),
                        old(self)@.same_cursor(self@),
                        self@.tokens.measure() < old(self)@.tokens.measure(),
                        old(self)@.placed() ==> self@.placed(),
                        crate::grammar::formal_param(old(self)@) == crate::grammar::params_end(self@),
                    decreases self@.tokens.measure(),
                {
                    proof {
                        reveal(crate::grammar::params_rest);
                    }
                    if self.consume(Token::Comma).is_none() {
                        break ;
                    }
                    match self.peek() {
                        Some(Token::Ident(id)) => {
                            self.advance();
                            if argnum >= 3 {
                                self.mark_unsupported();
                                return None;
                            }
                            let getpar_inst = self.declare_arg(argnum);
                            argnum = argnum + 1;
                            self.assign_var(id, getpar_inst, None);
                        },
                        _ => {
                            return None;
                        },
                    }
                }
            },
            _ => {},
        }
        assert(crate::grammar::formal_param(old(self)@) == crate::grammar::params_end(self@));
        if self.consume(Token::CloseParen).is_none() {
            return None;
        }
        Some(())
    }

    /// funcBody = ['var' varDecl] '{' [statSeq] '}'
    ///
    /// A body whose current block does not end in a return when the
    /// closing brace is reached, an empty body too, gets one without a
    /// value.
    pub(crate) fn func_body(&mut self) -> (r: Option<()>)
        requires
            old(self).wf(),
        ensures
            (final(self)@, r) == crate::grammar::func_body(old(self)@),
            old(self)@.placed() ==> final(self)@.placed(),
            final(self).wf(),
            old(self)@.grows_to(final(self)@),
            r is Some ==> final(self)@.tokens.measure() < old(self)@.tokens.measure(),
    {
        proof {
            reveal(crate::grammar::func_body);
        }
        if self.consume(Token::Var).is_some() {
            if self.var_decl().is_none() {
                return None;
            }
        }
        if self.consume(Token::OpenBrace).is_none() {
            return None;
        }
        match self.peek() {
            Some(Token::CloseBrace) => {},
            Some(_) => {
                if self.stat_sequence().is_none() {
                    return None;
                }
            },
            None => {
                return None;
            },
        }
        if !self.ends_in_return() {
            self.add_inst(self.curr(), IType::Ret { inst: None });
        }
        if self.consume(Token::CloseBrace).is_none() {
            return None;
        }
        Some(())
    }

    /// computation = 'main' ['var' varDecl] {funcDecl} '{' statSeq '}' '.'
    ///
    /// Parses the program, builds its instructions and blocks, and runs the
    /// passes on them: `build`, then `optimize` when the program parsed.
    /// When it succeeds every block emits at least one instruction, and the
    /// program can be written out. The program that the passes start from
    /// has every operand defined in a block that dominates its use.
    pub fn computation(&mut self) -> (r: Option<()>)
        requires
            old(self).wf(),
        ensures
            (final(self)@, r) == crate::grammar::compiled(old(self)@),
            old(self)@.placed() ==> crate::grammar::program(old(self)@).0.placed(),
            final(self).wf(),
            old(self)@.tokens.curr != Some(Token::Main) ==> r is None && final(self)@ == old(self)@,
            r is Some ==> forall|b: int| 0 <= b < final(self)@.blocks.len() ==> final(self)@.emits(b),
            r is Some ==> final(self)@.renderable(),
            r is Some ==> final(self)@.tokens.measure() < old(self)@.tokens.measure(),
            r is None ==> old(self)@.grows_to(final(self)@) && (old(self)@.placed() ==> final(self)@.placed()),
            old(self)@.warnings.len() <= final(self)@.warnings.len(),
            old(self)@.unsupported ==> final(self)@.unsupported,
            old(self)@.insts.len() <= final(self)@.insts.len(),
            old(self)@.blocks.len() <= final(self)@.blocks.len(),
    {
        match self.build() {
            Some(()) => {
                self.optimize();
                Some(())
            },
            None => None,
        }
    }

    /// Parses the program and builds its instructions and blocks, without
    /// running any pass on them. After the final period the end
    /// instruction is emitted into the current block.
    ///
    /// Construction keeps values defined before they are used along the
    /// dominator tree: when that held before, it holds after, whether the
    /// program parsed or not.
    pub fn build(&mut self) -> (r: Option<()>)
        requires
            old(self).wf(),
        ensures
            (final(self)@, r) == crate::grammar::program(old(self)@),
            final(self).wf(),
            old(self)@.grows_to(final(self)@),
            old(self)@.placed() ==> final(self)@.placed(),
            old(self)@.tokens.curr != Some(Token::Main) ==> r is None && final(self)@ == old(self)@,
            r is Some ==> final(self)@.tokens.measure() < old(self)@.tokens.measure(),
            r is Some ==> final(self)@.insts.len() > 0 && final(self)@.insts.last().itype is End
                && final(self)@.insts.last().block == Some(final(self)@.curr),
    {
        proof {
            reveal(crate::grammar::program);
            reveal(crate::grammar::program_rest);
        }
        if self.consume(Token::Main).is_none() {
            return None;
        }
        match self.peek() {
            Some(Token::Var) => {
                self.advance();
                if self.var_decl().is_none() {
                    return None;
                }
            },
            Some(_) => {},
            None => {
                return None;
            },
        }
        loop
            invariant
                self.wf(),
                old(self)@.tokens.curr == Some(Token::Main),
                old(self)@.grows_to(self@),
                old(self)@.placed() ==> self@.placed(),
                self@.tokens.measure() < old(self)@.tokens.measure(),
                crate::grammar::program(old(self)@) == crate::grammar::program_rest(self@),
            ensures
                self.wf(),
                old(self)@.grows_to(self@),
                old(self)@.placed() ==> self@.placed(),
                self@.tokens.measure() < old(self)@.tokens.measure(),
                crate::grammar::program(old(self)@) == crate::grammar::program_rest(self@),
                self@.tokens.curr is Some,
                self@.tokens.curr != Some(Token::Void),
                self@.tokens.curr != Some(Token::Function),
            decreases self@.tokens.measure(),
        {
            proof {
                reveal(crate::grammar::program_rest);
            }
            match self.peek() {
                Some(Token::Void) | Some(Token::Function) => {
                    if self.func_decl().is_none() {
                        return None;
                    }
                },
                Some(_) => {
                    break ;
                },
                None => {
                    return None;
                },
            }
        }
        if self.consume(Token::OpenBrace).is_none() {
            return None;
        }
        if self.stat_sequence().is_none() {
            return None;
        }
        if self.consume(Token::CloseBrace).is_none() {
            return None;
        }
        if self.consume(Token::Period).is_none() {
            return None;
        }
        self.add_inst(self.curr(), IType::End);
        Some(())
    }
}

} // verus!
