//! What the parser makes of a program: for every rule of the grammar, the
//! state that the rule leaves and the value that it yields, as a function
//! of the state in which the rule starts.
//!
//! A rule that reads the text again after another rule asks that the other
//! rule moved the scanner on; that is what makes these definitions well
//! founded. The parser shows, rule by rule, that on its states a rule that
//! succeeds has read at least one token, so there the question is always
//! answered with yes.
use vstd::prelude::*;
use crate::frame::{BlockFrame, FrameState, FrameStatus};
use crate::itype::{IType, Operand, Slot};
use crate::state::{
    get_par, reversed_branch, set_par, starts_factor, starts_statement, ParserView,
};
use crate::tokenizer_data::{
    Token, PREDEFINED_INPUTNUM_ID, PREDEFINED_OUTPUTNEWLINE_ID, PREDEFINED_OUTPUTNUM_ID,
};

verus! {

/// Whether less text is left to read in `later` than in `s`.
pub open spec fn progressed(s: ParserView, later: ParserView) -> bool {
    later.tokens.measure() < s.tokens.measure()
}

impl ParserView {
    /// The token ahead.
    pub open spec fn token(self) -> Option<Token> {
        self.tokens.curr
    }

    /// The state once the token ahead was read if it is `token`.
    pub open spec fn skip(self, token: Token) -> ParserView {
        if self.token() == Some(token) {
            self.advance()
        } else {
            self
        }
    }

    /// The state with the cursor at `block`.
    pub open spec fn at(self, block: usize) -> ParserView {
        ParserView { curr: block, ..self }
    }

    /// The state with the cursor at `block`, which is also the current
    /// entry block.
    pub open spec fn entering(self, block: usize) -> ParserView {
        ParserView { curr: block, curr_init: block, ..self }
    }

    /// The state with one more open frame.
    pub open spec fn open(self, frame: BlockFrame) -> ParserView {
        ParserView { frames: self.frames.push(frame), ..self }
    }

    /// The state with the innermost frame closed, if one is open.
    pub open spec fn close(self) -> ParserView {
        ParserView {
            frames: if self.frames.len() > 0 {
                self.frames.drop_last()
            } else {
                self.frames
            },
            ..self
        }
    }

    /// The state with the innermost frame replaced.
    pub open spec fn reframe(self, frame: BlockFrame) -> ParserView {
        ParserView { frames: self.frames.drop_last().push(frame), ..self }
    }

    /// The state once the follow block of the innermost frame was recorded.
    pub open spec fn top_follow(self, follow: usize) -> ParserView {
        self.reframe(BlockFrame { follow: Some(follow), ..self.frames.last() })
    }

    /// The state once the fall-through block of the innermost frame was
    /// recorded.
    pub open spec fn top_fall_through(self, fall_through: usize) -> ParserView {
        self.reframe(BlockFrame { fall_through: Some(fall_through), ..self.frames.last() })
    }

    /// The state once the arm of the innermost frame was recorded.
    pub open spec fn top_status(self, status: FrameStatus) -> ParserView {
        self.reframe(BlockFrame { status: Some(status), ..self.frames.last() })
    }

    /// The state once the fall-through successor of `block` was set.
    pub open spec fn fall_to(self, block: usize, to: usize) -> ParserView {
        self.with_next(block, (Some(to), self.blocks[block as int].next.1))
    }

    /// The state once the follow successor of `block` was set.
    pub open spec fn branch_to(self, block: usize, to: usize) -> ParserView {
        self.with_next(block, (self.blocks[block as int].next.0, Some(to)))
    }

    /// The state once more than three parameters were met.
    pub open spec fn flagged(self) -> ParserView {
        ParserView { unsupported: true, ..self }
    }

    /// The state once `block` became the entry block of the function `id`.
    pub open spec fn registered(self, id: usize, block: usize) -> ParserView {
        ParserView { funcs: self.funcs.insert(id, block), ..self }
    }

    /// The id that the next instruction gets.
    pub open spec fn next_id(self) -> usize {
        self.insts.len() as usize
    }

    /// The id that the next block gets.
    pub open spec fn next_block(self) -> usize {
        self.blocks.len() as usize
    }

    /// The state once `var` was assigned the value of `expr`: the value is
    /// materialised, an assignment marker is emitted, the new definition is
    /// propagated to the joins of the open frames, and the variable is
    /// bound in the current block.
    pub open spec fn assign(self, var: usize, expr: Operand) -> ParserView {
        let dep_var = match expr {
            Operand::Var(dep_var) => Some(dep_var),
            _ => None,
        };
        let inst = self.operand_slot(expr);
        let s1 = self.with_operand(expr);
        let s2 = s1.emit(s1.curr, IType::Assignment { var, dep_var });
        let s3 = s2.propagate(s2.frames.len() as int, var, inst.0);
        s3.bind(s3.curr, var, inst.0, dep_var)
    }

    /// The state once the first `k` arguments of a call were passed.
    pub open spec fn load_args(self, args: Seq<Slot>, k: int) -> ParserView
        decreases k,
    {
        if k <= 0 {
            self
        } else {
            let s1 = self.load_args(args, k - 1);
            s1.emit(s1.curr, set_par(args[k - 1], (k - 1) as usize))
        }
    }

    /// The state once parameter number `argnum`, named `id`, was received
    /// and bound.
    pub open spec fn receive(self, id: usize, argnum: usize) -> ParserView {
        let s1 = self.emit(self.curr, get_par(argnum));
        s1.bind(s1.curr, id, self.next_id(), None)
    }
}

/// The frame that an `if` opens.
pub open spec fn if_frame(root: usize, fall_through: usize, join: usize) -> BlockFrame {
    BlockFrame {
        state: Some(FrameState::Conditional),
        follow: None,
        fall_through: Some(fall_through),
        join: Some(join),
        root: Some(root),
        status: Some(FrameStatus::FallThrough),
    }
}

/// The frame that a `while` opens.
pub open spec fn while_frame(root: usize, fall_through: usize, join: usize) -> BlockFrame {
    BlockFrame {
        state: Some(FrameState::While),
        follow: None,
        fall_through: Some(fall_through),
        join: Some(join),
        root: Some(root),
        status: Some(FrameStatus::FallThrough),
    }
}

/// The call of the function `id` on materialised arguments.
#[verifier::opaque]
pub open spec fn emit_call(s: ParserView, id: usize, args: Option<Seq<Slot>>) -> (
    ParserView,
    Option<Operand>,
) {
    if id == PREDEFINED_INPUTNUM_ID {
        (s.emit(s.curr, IType::Read), Some(Operand::Inst(s.next_id())))
    } else if id == PREDEFINED_OUTPUTNUM_ID {
        match args {
            Some(args) => if args.len() > 0 {
                (s.emit(s.curr, IType::Write { inst: args[0] }), Some(Operand::Inst(s.next_id())))
            } else {
                (s, None)
            },
            None => (s, None),
        }
    } else if id == PREDEFINED_OUTPUTNEWLINE_ID {
        (s.emit(s.curr, IType::WriteNL), Some(Operand::Inst(s.next_id())))
    } else if !s.funcs.contains_key(id) {
        (s, None)
    } else {
        let block = s.funcs[id];
        match args {
            Some(args) => if args.len() > 3 {
                (s.flagged(), None)
            } else {
                let s1 = s.load_args(args, args.len() as int);
                (s1.emit(s1.curr, IType::Jsr { block }), Some(Operand::Inst(s1.next_id())))
            },
            None => (s.emit(s.curr, IType::Jsr { block }), Some(Operand::Inst(s.next_id()))),
        }
    }
}

/// factor = number | ident | '(' expression ')' | funcCall
#[verifier::opaque]
pub open spec fn factor(s: ParserView) -> (ParserView, Option<Operand>)
    decreases s.tokens.measure(), 1nat,
{
    match s.token() {
        Some(Token::Number(num)) => (s.advance(), Some(Operand::Const(num))),
        Some(Token::OpenParen) => {
            let s1 = s.advance();
            if progressed(s, s1) {
                let (s2, r) = expression(s1);
                match r {
                    Some(res) => if s2.token() == Some(Token::CloseParen) {
                        (s2.advance(), Some(res))
                    } else {
                        (s2, None)
                    },
                    None => (s2, None),
                }
            } else {
                (s1, None)
            }
        },
        Some(Token::Ident(var)) => (s.advance(), Some(Operand::Var(var))),
        Some(Token::Call) => func_call(s),
        _ => (s, None),
    }
}

/// term = factor {('*'|'/') factor}
#[verifier::opaque]
pub open spec fn term(s: ParserView) -> (ParserView, Option<Operand>)
    decreases s.tokens.measure(), 2nat,
{
    if !starts_factor(s.token()) {
        (s, None)
    } else {
        let (s1, r) = factor(s);
        match r {
            Some(res) => if progressed(s, s1) {
                term_rest(s1, res)
            } else {
                (s1, None)
            },
            None => (s1, None),
        }
    }
}

/// What follows the first factor of a term, `res` being the value so far.
#[verifier::opaque]
pub open spec fn term_rest(s: ParserView, res: Operand) -> (ParserView, Option<Operand>)
    decreases s.tokens.measure(), 0nat,
{
    match s.token() {
        None => (s, None),
        Some(op) => if op == Token::Times || op == Token::Divide {
            let s1 = s.advance();
            if progressed(s, s1) {
                let (s2, r) = factor(s1);
                match r {
                    Some(next) => {
                        let s3 = s2.with_computed(op, res, next);
                        if progressed(s, s3) {
                            term_rest(s3, s2.computed(op, res, next))
                        } else {
                            (s3, None)
                        }
                    },
                    None => (s2, None),
                }
            } else {
                (s1, None)
            }
        } else {
            (s, Some(res))
        },
    }
}

/// expression = term {('+'|'-') term}
#[verifier::opaque]
pub open spec fn expression(s: ParserView) -> (ParserView, Option<Operand>)
    decreases s.tokens.measure(), 3nat,
{
    if !starts_factor(s.token()) {
        (s, None)
    } else {
        let (s1, r) = term(s);
        match r {
            Some(res) => if progressed(s, s1) {
                expression_rest(s1, res)
            } else {
                (s1, None)
            },
            None => (s1, None),
        }
    }
}

/// What follows the first term of an expression, `res` being the value so
/// far.
#[verifier::opaque]
pub open spec fn expression_rest(s: ParserView, res: Operand) -> (ParserView, Option<Operand>)
    decreases s.tokens.measure(), 0nat,
{
    match s.token() {
        None => (s, None),
        Some(op) => if op == Token::Plus || op == Token::Minus {
            let s1 = s.advance();
            if progressed(s, s1) {
                let (s2, r) = term(s1);
                match r {
                    Some(next) => {
                        let s3 = s2.with_computed(op, res, next);
                        if progressed(s, s3) {
                            expression_rest(s3, s2.computed(op, res, next))
                        } else {
                            (s3, None)
                        }
                    },
                    None => (s2, None),
                }
            } else {
                (s1, None)
            }
        } else {
            (s, Some(res))
        },
    }
}

/// relation = expression relOp expression
///
/// Both values are materialised after both expressions were read, the
/// left one first. The comparison is emitted into the current block, and
/// the branch that is taken when the relation does not hold is yielded.
#[verifier::opaque]
pub open spec fn relation(s: ParserView) -> (ParserView, Option<IType>)
    decreases s.tokens.measure(), 4nat,
{
    let (s1, r1) = expression(s);
    match r1 {
        Some(expr1) => match s1.token() {
            Some(Token::RelOp(rel_op)) => {
                let s2 = s1.advance();
                if progressed(s, s2) {
                    let (s3, r2) = expression(s2);
                    match r2 {
                        Some(expr2) => {
                            let s4 = s3.with_operand(expr1);
                            let s5 = s4.with_operand(expr2);
                            let inst1 = s3.operand_slot(expr1);
                            let inst2 = s4.operand_slot(expr2);
                            (
                                s5.emit(s5.curr, IType::Cmp { inst1, inst2 }),
                                Some(reversed_branch(rel_op, s5.next_id())),
                            )
                        },
                        None => (s3, None),
                    }
                } else {
                    (s2, None)
                }
            },
            _ => (s1, None),
        },
        None => (s1, None),
    }
}

/// assignment = 'let' ident '<-' expression
#[verifier::opaque]
pub open spec fn assignment(s: ParserView) -> (ParserView, Option<()>)
    decreases s.tokens.measure(), 5nat,
{
    if s.token() != Some(Token::Let) {
        (s, None)
    } else {
        let s1 = s.advance();
        match s1.token() {
            Some(Token::Ident(var)) => {
                let s2 = s1.advance();
                if s2.token() != Some(Token::Assignment) {
                    (s2, None)
                } else {
                    let s3 = s2.advance();
                    if progressed(s, s3) {
                        let (s4, r) = expression(s3);
                        match r {
                            Some(expr) => (s4.assign(var, expr), Some(())),
                            None => (s4, None),
                        }
                    } else {
                        (s3, None)
                    }
                }
            },
            _ => (s1, None),
        }
    }
}

/// funcCall = 'call' ident [ '(' [expression {',' expression}] ')' ]
#[verifier::opaque]
pub open spec fn func_call(s: ParserView) -> (ParserView, Option<Operand>)
    decreases s.tokens.measure(), 0nat,
{
    if s.token() != Some(Token::Call) {
        (s, None)
    } else {
        let s1 = s.advance();
        match s1.token() {
            Some(Token::Ident(id)) => {
                let s2 = s1.advance();
                if progressed(s, s2) {
                    let (s3, r) = call_args(s2);
                    match r {
                        Some(args) => emit_call(s3, id, args),
                        None => (s3, None),
                    }
                } else {
                    (s2, None)
                }
            },
            _ => (s1, None),
        }
    }
}

/// The list of arguments of a call: `Some(None)` without a list or with an
/// empty one, `None` when the list does not parse.
#[verifier::opaque]
pub open spec fn call_args(s: ParserView) -> (ParserView, Option<Option<Seq<Slot>>>)
    decreases s.tokens.measure(), 5nat,
{
    if s.token() != Some(Token::OpenParen) {
        (s, Some(None))
    } else {
        let s1 = s.advance();
        if s1.token() == Some(Token::CloseParen) {
            (s1.advance(), Some(None))
        } else if progressed(s, s1) {
            args_rest(s1, Seq::empty())
        } else {
            (s1, None)
        }
    }
}

/// The arguments of a call after `args`, up to the closing parenthesis.
#[verifier::opaque]
pub open spec fn args_rest(s: ParserView, args: Seq<Slot>) -> (
    ParserView,
    Option<Option<Seq<Slot>>>,
)
    decreases s.tokens.measure(), 4nat,
{
    let (s1, r) = expression(s);
    match r {
        Some(expr) => {
            let s2 = s1.with_operand(expr);
            let more = args.push(s1.operand_slot(expr));
            if s2.token() == Some(Token::Comma) {
                let s3 = s2.advance();
                if progressed(s, s3) {
                    args_rest(s3, more)
                } else {
                    (s3, None)
                }
            } else if s2.token() == Some(Token::CloseParen) {
                (s2.advance(), Some(Some(more)))
            } else {
                (s2, None)
            }
        },
        None => (s1, None),
    }
}

/// What an `if` does between its condition and its fall-through arm: the
/// fall-through block and the join block are created under the block of
/// the condition, the join gets its phis, and the frame is opened.
pub open spec fn if_opened(s: ParserView, header: usize) -> ParserView {
    let fall_through = s.next_block();
    let s1 = s.with_block(header).fall_to(header, fall_through);
    let join = s1.next_block();
    s1.with_block(header).seed_join(join).open(if_frame(header, fall_through, join))
}

/// What an `if` does between its arms when an `else` follows: the follow
/// block is created under the block of the condition, whose branch goes
/// there; the fall-through arm, which ended in `arm_end`, jumps to the
/// join; and the follow arm starts.
pub open spec fn else_opened(s: ParserView, header: usize, arm_end: usize, join: usize, branch: IType)
    -> ParserView {
    let follow = s.next_block();
    let s1 = s.with_block(header).branch_to(header, follow).top_follow(follow);
    let s2 = s1.emit(header, branch.spec_branch_block(follow));
    s2.emit(arm_end, IType::Bra { block: join }).at(follow).top_status(FrameStatus::Follow)
}

/// What an `if` without `else` does after its arm: the branch of the
/// condition goes to the join.
pub open spec fn else_skipped(s: ParserView, header: usize, join: usize, branch: IType)
    -> ParserView {
    let s1 = s.top_follow(join).branch_to(header, join);
    s1.emit(header, branch.spec_branch_block(join))
}

/// ifStmt = 'if' relation 'then' statSeq ['else' statSeq] 'fi'
#[verifier::opaque]
pub open spec fn if_statement(s: ParserView) -> (ParserView, Option<()>)
    decreases s.tokens.measure(), 5nat,
{
    if s.token() != Some(Token::If) {
        (s, None)
    } else {
        let s1 = s.advance();
        if !progressed(s, s1) {
            (s1, None)
        } else {
            let (s2, r) = relation(s1);
            match r {
                Some(branch) => {
                    let header = s1.curr;
                    let fall_through = s2.next_block();
                    let join = (s2.blocks.len() + 1) as usize;
                    let s3 = if_opened(s2, header);
                    if s3.token() != Some(Token::Then) {
                        (s3, None)
                    } else {
                        let s4 = s3.advance().at(fall_through);
                        if !progressed(s, s4) {
                            (s4, None)
                        } else {
                            let (s5, r) = stat_sequence(s4);
                            match r {
                                Some(_) => {
                                    let arm_end = s5.curr;
                                    let s6 = s5.fall_to(arm_end, join);
                                    if s6.token() == Some(Token::Else) {
                                        let s7 = else_opened(
                                            s6.advance(),
                                            header,
                                            arm_end,
                                            join,
                                            branch,
                                        );
                                        if !progressed(s, s7) {
                                            (s7, None)
                                        } else {
                                            let (s8, r) = stat_sequence(s7);
                                            match r {
                                                Some(_) => {
                                                    let s9 = s8.top_follow(s8.curr).fall_to(
                                                        s8.curr,
                                                        join,
                                                    );
                                                    if_closed(s9, join)
                                                },
                                                None => (s8, None),
                                            }
                                        }
                                    } else {
                                        if_closed(else_skipped(s6, header, join, branch), join)
                                    }
                                },
                                None => (s5, None),
                            }
                        }
                    }
                },
                None => (s2, None),
            }
        }
    }
}

/// The end of an `if`: after `fi` the frame is closed and the join is the
/// current block.
pub open spec fn if_closed(s: ParserView, join: usize) -> (ParserView, Option<()>) {
    if s.token() != Some(Token::Fi) {
        (s, None)
    } else {
        (s.advance().close().at(join), Some(()))
    }
}

/// What a `while` does after its body, which ended in `body_end`: the body
/// jumps back to the header, the follow block is created under the header,
/// whose branch goes there, and the frame is closed.
pub open spec fn while_closed(s: ParserView, header: usize, body_end: usize, branch: IType)
    -> ParserView {
    let s1 = s.emit(body_end, IType::Bra { block: header });
    let follow = s1.next_block();
    let s2 = s1.with_block(header).branch_to(header, follow);
    s2.emit(header, branch.spec_branch_block(follow)).at(follow).close()
}

/// whileStmt = 'while' relation 'do' statSeq 'od'
#[verifier::opaque]
pub open spec fn while_statement(s: ParserView) -> (ParserView, Option<()>)
    decreases s.tokens.measure(), 5nat,
{
    if s.token() != Some(Token::While) {
        (s, None)
    } else {
        let s1 = s.advance();
        let before = s1.curr;
        let header = s1.next_block();
        let s2 = s1.with_block(before).seed_join(header).at(header);
        if !progressed(s, s2) {
            (s2, None)
        } else {
            let (s3, r) = relation(s2);
            match r {
                Some(branch) => {
                    let body = s3.next_block();
                    let s4 = s3.with_block(header).fall_to(before, header).fall_to(header, body).open(
                        while_frame(before, body, header),
                    );
                    if s4.token() != Some(Token::Do) {
                        (s4, None)
                    } else {
                        let s5 = s4.advance().at(body);
                        if !progressed(s, s5) {
                            (s5, None)
                        } else {
                            let (s6, r) = stat_sequence(s5);
                            match r {
                                Some(_) => {
                                    let body_end = s6.curr;
                                    let s7 = s6.top_fall_through(body_end).fall_to(body_end, header);
                                    if s7.token() != Some(Token::Od) {
                                        (s7, None)
                                    } else {
                                        (
                                            while_closed(s7.advance(), header, body_end, branch),
                                            Some(()),
                                        )
                                    }
                                },
                                None => (s6, None),
                            }
                        }
                    }
                },
                None => (s3, None),
            }
        }
    }
}

/// returnStmt = 'return' [expression]
///
/// An expression follows when the token after `return` can start one; it
/// is then required.
#[verifier::opaque]
pub open spec fn return_statement(s: ParserView) -> (ParserView, Option<()>)
    decreases s.tokens.measure(), 5nat,
{
    if s.token() != Some(Token::Return) {
        (s, None)
    } else {
        let s1 = s.advance();
        if !starts_factor(s1.token()) {
            (s1.emit(s1.curr, IType::Ret { inst: None }), Some(()))
        } else if !progressed(s, s1) {
            (s1, None)
        } else {
            let (s2, r) = expression(s1);
            match r {
                Some(expr) => {
                    let s3 = s2.with_operand(expr);
                    (
                        s3.emit(s3.curr, IType::Ret { inst: Some(s2.operand_slot(expr)) }),
                        Some(()),
                    )
                },
                None => (s2, None),
            }
        }
    }
}

/// statement = assignment | funcCall | ifStmt | whileStmt | returnStmt
#[verifier::opaque]
pub open spec fn statement(s: ParserView) -> (ParserView, Option<()>)
    decreases s.tokens.measure(), 6nat,
{
    match s.token() {
        Some(Token::Let) => assignment(s),
        Some(Token::Call) => {
            let (s1, r) = func_call(s);
            match r {
                Some(_) => (s1, Some(())),
                None => (s1, None),
            }
        },
        Some(Token::If) => if_statement(s),
        Some(Token::While) => while_statement(s),
        Some(Token::Return) => return_statement(s),
        _ => (s, None),
    }
}

/// statSeq = statement {';' statement}
#[verifier::opaque]
pub open spec fn stat_sequence(s: ParserView) -> (ParserView, Option<()>)
    decreases s.tokens.measure(), 7nat,
{
    let (s1, r) = statement(s);
    match r {
        Some(_) => if progressed(s, s1) {
            sequence_rest(s1)
        } else {
            (s1, None)
        },
        None => (s1, None),
    }
}

/// What follows the first statement of a sequence. The sequence ends where
/// no semicolon follows, and after a semicolon where the token ahead cannot
/// start a statement: so a semicolon may stand after the last statement.
/// Where a statement starts after a semicolon, the statement is required:
/// when it does not parse, the sequence does not parse.
#[verifier::opaque]
pub open spec fn sequence_rest(s: ParserView) -> (ParserView, Option<()>)
    decreases s.tokens.measure(), 0nat,
{
    if s.token() != Some(Token::Semicolon) {
        (s, Some(()))
    } else {
        let s1 = s.advance();
        if !starts_statement(s1.token()) {
            (s1, Some(()))
        } else if !progressed(s, s1) {
            (s1, None)
        } else {
            let (s2, r) = statement(s1);
            match r {
                Some(_) => if progressed(s, s2) {
                    sequence_rest(s2)
                } else {
                    (s2, None)
                },
                None => (s2, None),
            }
        }
    }
}

/// varDecl = ident {',' ident} ';'
#[verifier::opaque]
pub open spec fn var_decl(s: ParserView) -> (ParserView, Option<()>)
    decreases s.tokens.measure(),
{
    match s.token() {
        Some(Token::Ident(var)) => {
            let s1 = s.advance().declare(var);
            if s1.token() == Some(Token::Comma) {
                let s2 = s1.advance();
                if progressed(s, s2) {
                    var_decl(s2)
                } else {
                    (s2, None)
                }
            } else if s1.token() == Some(Token::Semicolon) {
                (s1.advance(), Some(()))
            } else {
                (s1, None)
            }
        },
        _ => (s, None),
    }
}

/// formalParam = '(' [ident {',' ident}] ')'
#[verifier::opaque]
pub open spec fn formal_param(s: ParserView) -> (ParserView, Option<()>) {
    if s.token() != Some(Token::OpenParen) {
        (s, None)
    } else {
        let s1 = s.advance();
        match s1.token() {
            Some(Token::Ident(id)) => params_rest(s1.advance().receive(id, 0), 1),
            _ => params_end(s1),
        }
    }
}

/// The parameters of a function after the first `argnum`, up to the
/// closing parenthesis.
#[verifier::opaque]
pub open spec fn params_rest(s: ParserView, argnum: usize) -> (ParserView, Option<()>)
    decreases s.tokens.measure(),
{
    if s.token() != Some(Token::Comma) {
        params_end(s)
    } else {
        let s1 = s.advance();
        match s1.token() {
            Some(Token::Ident(id)) => {
                let s2 = s1.advance();
                if argnum >= 3 {
                    (s2.flagged(), None)
                } else if progressed(s, s2) {
                    params_rest(s2.receive(id, argnum), (argnum + 1) as usize)
                } else {
                    (s2, None)
                }
            },
            _ => (s1, None),
        }
    }
}

/// The end of a parameter list.
pub open spec fn params_end(s: ParserView) -> (ParserView, Option<()>) {
    if s.token() != Some(Token::CloseParen) {
        (s, None)
    } else {
        (s.advance(), Some(()))
    }
}

/// Whether the last instruction of the current block is a return.
pub open spec fn ends_in_return(s: ParserView) -> bool {
    let list = s.blocks[s.curr as int].insts;
    list.len() > 0 && s.insts[list.last() as int].itype is Ret
}

/// funcBody = ['var' varDecl] '{' [statSeq] '}'
///
/// A body whose current block does not end in a return when the closing
/// brace is reached, an empty body too, gets a return without a value.
#[verifier::opaque]
pub open spec fn func_body(s: ParserView) -> (ParserView, Option<()>) {
    let (s1, r) = if s.token() == Some(Token::Var) {
        var_decl(s.advance())
    } else {
        (s, Some(()))
    };
    match r {
        Some(_) => if s1.token() != Some(Token::OpenBrace) {
            (s1, None)
        } else {
            let s2 = s1.advance();
            match s2.token() {
                Some(first) => {
                    let (s3, r) = if first == Token::CloseBrace {
                        (s2, Some(()))
                    } else {
                        stat_sequence(s2)
                    };
                    match r {
                        Some(_) => {
                            let s4 = if ends_in_return(s3) {
                                s3
                            } else {
                                s3.emit(s3.curr, IType::Ret { inst: None })
                            };
                            if s4.token() != Some(Token::CloseBrace) {
                                (s4, None)
                            } else {
                                (s4.advance(), Some(()))
                            }
                        },
                        None => (s3, None),
                    }
                },
                None => (s2, None),
            }
        },
        None => (s1, None),
    }
}

/// funcDecl = ['void'] 'function' ident formalParam ';' funcBody ';'
#[verifier::opaque]
pub open spec fn func_decl(s: ParserView) -> (ParserView, Option<()>) {
    let s1 = s.skip(Token::Void);
    if s1.token() != Some(Token::Function) {
        (s1, None)
    } else {
        let s2 = s1.advance();
        match s2.token() {
            Some(Token::Ident(id)) => {
                let s3 = s2.advance();
                let entry = s3.next_block();
                let s4 = s3.with_block(0).registered(id, entry).entering(entry);
                let (s5, r) = formal_param(s4);
                match r {
                    Some(_) => if s5.token() != Some(Token::Semicolon) {
                        (s5, None)
                    } else {
                        let (s6, r) = func_body(s5.advance());
                        match r {
                            Some(_) => {
                                let s7 = s6.entering(1);
                                if s7.token() != Some(Token::Semicolon) {
                                    (s7, None)
                                } else {
                                    (s7.advance(), Some(()))
                                }
                            },
                            None => (s6, None),
                        }
                    },
                    None => (s5, None),
                }
            },
            _ => (s2, None),
        }
    }
}

/// The function declarations of a program, and what follows them: the
/// body of `main`, the final period and the end instruction.
#[verifier::opaque]
pub open spec fn program_rest(s: ParserView) -> (ParserView, Option<()>)
    decreases s.tokens.measure(),
{
    match s.token() {
        Some(Token::Void) | Some(Token::Function) => {
            let (s1, r) = func_decl(s);
            match r {
                Some(_) => if progressed(s, s1) {
                    program_rest(s1)
                } else {
                    (s1, None)
                },
                None => (s1, None),
            }
        },
        Some(_) => if s.token() != Some(Token::OpenBrace) {
            (s, None)
        } else {
            let (s1, r) = stat_sequence(s.advance());
            match r {
                Some(_) => if s1.token() != Some(Token::CloseBrace) {
                    (s1, None)
                } else {
                    let s2 = s1.advance();
                    if s2.token() != Some(Token::Period) {
                        (s2, None)
                    } else {
                        let s3 = s2.advance();
                        (s3.emit(s3.curr, IType::End), Some(()))
                    }
                },
                None => (s1, None),
            }
        },
        None => (s, None),
    }
}

/// computation = 'main' ['var' varDecl] {funcDecl} '{' statSeq '}' '.'
///
/// What construction makes of a program, before any pass runs on it.
#[verifier::opaque]
pub open spec fn program(s: ParserView) -> (ParserView, Option<()>) {
    if s.token() != Some(Token::Main) {
        (s, None)
    } else {
        let s1 = s.advance();
        match s1.token() {
            Some(Token::Var) => {
                let (s2, r) = var_decl(s1.advance());
                match r {
                    Some(_) => program_rest(s2),
                    None => (s2, None),
                }
            },
            Some(_) => program_rest(s1),
            None => (s1, None),
        }
    }
}

/// What the parser makes of a program: what construction makes of it,
/// and, when the program parses, what the passes make of that.
pub open spec fn compiled(s: ParserView) -> (ParserView, Option<()>) {
    let (s1, r) = program(s);
    match r {
        Some(_) => (s1.finish(), Some(())),
        None => (s1, None),
    }
}

} // verus!
