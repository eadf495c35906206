//! The rules of the statements that hold other statements.
use vstd::prelude::*;
use crate::frame::{BlockFrame, FrameStatus};
use crate::grammar::{else_opened, else_skipped, if_frame, if_opened, while_closed, while_frame};
use crate::itype::IType;
use crate::parser::Parser;
use crate::state::ParserView;
use crate::tokenizer_data::Token;

verus! {

/// What a rule asks of the branch that it holds until the branch can be
/// emitted: it is a conditional branch without a target, and its condition
/// is an instruction of the block `header`.
pub open spec fn branch_held(s: ParserView, branch: IType, header: usize) -> bool {
    &&& branch.is_cond_branch()
    &&& branch.target() is None
    &&& (branch.cond() matches Some(c) && c < s.insts.len() && s.insts[c as int].block == Some(
        header,
    ))
}

/// A branch that is held stays held while construction goes on.
pub proof fn lemma_branch_held(s: ParserView, t: ParserView, branch: IType, header: usize)
    requires
        s.settled_in(t),
        branch_held(s, branch, header),
    ensures
        branch_held(t, branch, header),
{
    let c = branch.cond().unwrap();
    assert(t.insts[c as int].block == s.insts[c as int].block);
}

/// What a `while` that parsed has built, `s` being the state before it and
/// `t` the state after it.
///
/// The header is the first block that the loop created. Its immediate
/// dominator is the block in which the loop started, which falls through to
/// it. The follow block is the last block created and the current block;
/// its immediate dominator is the header, whose branch, the last
/// instruction emitted and the last of the header, goes there. The
/// instruction before it is the jump back to the header; it is the last
/// instruction of the block in which the body ended, which falls through to
/// the header. The frames are those that were open before.
pub open spec fn while_built(s: ParserView, t: ParserView) -> bool {
    let before = s.curr as int;
    let header = s.blocks.len() as int;
    let follow = t.curr as int;
    let n = t.insts.len() as int;
    &&& t.frames == s.frames
    &&& header < follow
    &&& follow == t.blocks.len() - 1
    &&& t.blocks[header].dom == Some(s.curr)
    &&& t.blocks[before].next.0 == Some(header as usize)
    &&& t.blocks[follow].dom == Some(header as usize)
    &&& t.blocks[header].next.1 == Some(t.curr)
    &&& n >= 2
    &&& t.insts[n - 1].itype.is_cond_branch()
    &&& t.insts[n - 1].itype.target() == Some(t.curr)
    &&& t.insts[n - 1].block == Some(header as usize)
    &&& t.blocks[header].insts.len() > 0
    &&& t.blocks[header].insts.last() == n - 1
    &&& t.insts[n - 2].itype == (IType::Bra { block: header as usize })
    &&& match t.insts[n - 2].block {
        Some(end) => header < end < follow && t.blocks[end as int].insts.len() > 0
            && t.blocks[end as int].insts.last() == n - 2 && t.blocks[end as int].next.0 == Some(
            header as usize,
        ),
        None => false,
    }
}

impl Parser {
    /// Creates the fall-through block and the join block of an `if` under
    /// the block of the condition, seeds the join and opens the frame.
    /// Returns the two blocks.
    fn open_if(&mut self, header: usize) -> (r: (usize, usize))
        requires
            old(self).wf(),
            header < old(self)@.blocks.len(),
        ensures
            forall|b: int|
                0 <= b < old(self)@.blocks.len() && b != header ==> (#[trigger] final(self)@.blocks[b]).next
                    == old(self)@.blocks[b].next,
            final(self)@.frames == old(self)@.frames.push(if_frame(header, r.0, r.1)),
            final(self)@.blocks[r.0 as int].dom == Some(header),
            final(self)@.blocks[r.1 as int].dom == Some(header),
            final(self)@.blocks[header as int].next.0 == Some(r.0),
            final(self).wf(),
            final(self)@ == if_opened(old(self)@, header),
            r.0 == old(self)@.blocks.len(),
            r.1 == old(self)@.blocks.len() + 1,
            final(self)@.blocks.len() == old(self)@.blocks.len() + 2,
            final(self)@.frames.len() == old(self)@.frames.len() + 1,
            final(self)@.tokens == old(self)@.tokens,
            final(self)@.curr == old(self)@.curr,
            old(self)@.grows_to(final(self)@),
            old(self)@.placed() ==> final(self)@.placed(),
    {
        let fall_through_block = self.new_block(header);
        self.link_fall_through(header, fall_through_block);
        let join_block = self.new_block(header);
        self.init_phi(join_block);
        let mut frame = BlockFrame::new();
        frame.conditional().root(header).fall_through(fall_through_block).join(join_block).status(
            FrameStatus::FallThrough,
        );
        assert(frame == if_frame(header, fall_through_block, join_block));
        self.push_frame(frame);
        (fall_through_block, join_block)
    }

    /// Starts the follow arm of an `if`: creates the follow block under the
    /// block of the condition, emits the branch there and the jump from the
    /// end of the fall-through arm to the join.
    fn open_else(&mut self, header: usize, arm_end: usize, join: usize, branch: IType)
        requires
            old(self).wf(),
            old(self)@.frames.len() > 0,
            header < old(self)@.blocks.len(),
            arm_end < old(self)@.blocks.len(),
            join < old(self)@.blocks.len(),
            branch_held(old(self)@, branch, header),
        ensures
            forall|b: int|
                0 <= b < old(self)@.blocks.len() && b != header ==> (#[trigger] final(self)@.blocks[b]).next
                    == old(self)@.blocks[b].next,
            final(self)@.blocks.len() == old(self)@.blocks.len() + 1,
            final(self)@.curr == old(self)@.blocks.len(),
            final(self)@.frames.drop_last() == old(self)@.frames.drop_last(),
            final(self).wf(),
            final(self)@ == else_opened(old(self)@, header, arm_end, join, branch),
            final(self)@.frames.len() == old(self)@.frames.len(),
            final(self)@.tokens == old(self)@.tokens,
            old(self)@.grows_to(final(self)@),
            old(self)@.placed() ==> final(self)@.placed(),
    {
        let ghost s0 = self@;
        let follow_block = self.new_block(header);
        self.link_follow(header, follow_block);
        self.frame_follow(follow_block);
        proof {
            lemma_branch_held(s0, self@, branch, header);
            crate::state::lemma_held_reaches(self@, branch.cond().unwrap(), header);
        }
        // Update branch block
        self.add_inst(header, branch.branch_block(follow_block));
        // Fall through block should skip else block
        self.add_inst(arm_end, IType::Bra { block: join });
        self.set_curr(follow_block);
        self.frame_status(FrameStatus::Follow);
    }

    /// Ends an `if` without `else`: the branch of the condition goes to the
    /// join.
    fn skip_else(&mut self, header: usize, join: usize, branch: IType)
        requires
            old(self).wf(),
            old(self)@.frames.len() > 0,
            header < old(self)@.blocks.len(),
            join < old(self)@.blocks.len(),
            branch_held(old(self)@, branch, header),
        ensures
            forall|b: int|
                0 <= b < old(self)@.blocks.len() && b != header ==> (#[trigger] final(self)@.blocks[b]).next
                    == old(self)@.blocks[b].next,
            final(self)@.blocks.len() == old(self)@.blocks.len(),
            final(self)@.curr == old(self)@.curr,
            final(self)@.frames.drop_last() == old(self)@.frames.drop_last(),
            final(self).wf(),
            final(self)@ == else_skipped(old(self)@, header, join, branch),
            final(self)@.frames.len() == old(self)@.frames.len(),
            final(self)@.tokens == old(self)@.tokens,
            old(self)@.grows_to(final(self)@),
            old(self)@.placed() ==> final(self)@.placed(),
    {
        let ghost s0 = self@;
        // Update branch block
        self.frame_follow(join);
        self.link_follow(header, join);
        proof {
            lemma_branch_held(s0, self@, branch, header);
            crate::state::lemma_held_reaches(self@, branch.cond().unwrap(), header);
        }
        self.add_inst(header, branch.branch_block(join));
    }

    /// Ends a `while`: the body jumps back to the header, the follow block
    /// is created under the header, whose branch goes there, and the frame
    /// is closed.
    fn close_while(&mut self, header: usize, body_end: usize, branch: IType)
        requires
            old(self).wf(),
            header < old(self)@.blocks.len(),
            body_end < old(self)@.blocks.len(),
            branch_held(old(self)@, branch, header),
        ensures
            forall|b: int|
                0 <= b < old(self)@.blocks.len() && b != header ==> (#[trigger] final(self)@.blocks[b]).next
                    == old(self)@.blocks[b].next,
            final(self)@.blocks.len() == old(self)@.blocks.len() + 1,
            final(self)@.curr == old(self)@.blocks.len(),
            final(self)@.blocks[final(self)@.curr as int].dom == Some(header),
            final(self)@.blocks[header as int].next == (
                old(self)@.blocks[header as int].next.0,
                Some(final(self)@.curr),
            ),
            old(self)@.frames.len() > 0 ==> final(self)@.frames == old(self)@.frames.drop_last(),
            final(self)@.insts.len() == old(self)@.insts.len() + 2,
            final(self)@.insts.last().itype == branch.spec_branch_block(final(self)@.curr),
            final(self)@.insts.last().block == Some(header),
            final(self)@.blocks[header as int].insts.len() > 0,
            final(self)@.blocks[header as int].insts.last() == final(self)@.insts.len() - 1,
            final(self)@.insts[final(self)@.insts.len() - 2].itype == (IType::Bra { block: header }),
            final(self)@.insts[final(self)@.insts.len() - 2].block == Some(body_end),
            body_end != header ==> final(self)@.blocks[body_end as int].insts.len() > 0
                && final(self)@.blocks[body_end as int].insts.last() == final(self)@.insts.len() - 2,
            final(self).wf(),
            final(self)@ == while_closed(old(self)@, header, body_end, branch),
            final(self)@.tokens == old(self)@.tokens,
            final(self)@.frames.len() + 1 >= old(self)@.frames.len(),
            final(self)@.blocks.len() >= old(self)@.blocks.len(),
            final(self)@.insts.len() >= old(self)@.insts.len(),
            final(self)@.warnings == old(self)@.warnings,
            final(self)@.unsupported == old(self)@.unsupported,
            old(self)@.settled_in(final(self)@),
            old(self)@.placed() ==> final(self)@.placed(),
    {
        let ghost s0 = self@;
        self.add_inst(body_end, IType::Bra { block: header });
        let follow_block = self.new_block(header);
        self.link_follow(header, follow_block);
        proof {
            lemma_branch_held(s0, self@, branch, header);
            crate::state::lemma_held_reaches(self@, branch.cond().unwrap(), header);
        }
        self.add_inst(header, branch.branch_block(follow_block));
        self.set_curr(follow_block);
        let ghost s1 = self@;
        self.pop_frame();
        assert(s0.settled_in(self@)) by {
            assert(s0.settled_in(s1));
        }
    }

    /// ifStmt = 'if' relation 'then' statSeq ['else' statSeq] 'fi'
    ///
    /// The fall-through block and the join block are children of the block
    /// that holds the condition; the join gets a phi for every variable of
    /// the entry block. With an `else` the follow block is a third child
    /// and the branch of the condition goes there, and the fall-through arm
    /// ends in a jump to the join; without one the branch goes to the join.
    /// On success the frame is closed and the join is the current block.
    #[verifier::rlimit(100)]
    pub(crate) fn if_statement(&mut self) -> (r: Option<()>)
        requires
            old(self).wf(),
        ensures
            old(self)@.links_kept(final(self)@),
            r is Some ==> final(self)@.frames == old(self)@.frames,
            (final(self)@, r) == crate::grammar::if_statement(old(self)@),
            old(self)@.placed() ==> final(self)@.placed(),
            final(self).wf(),
            old(self)@.grows_to(final(self)@),
            r is Some ==> final(self)@.tokens.measure() < old(self)@.tokens.measure(),
        decreases old(self)@.tokens.measure(), 5nat,
    {
        proof {
            reveal(crate::grammar::if_statement);
            reveal(crate::grammar::stat_sequence);
        }
        if self.consume(Token::If).is_none() {
            return None;
        }
        let curr_block = self.curr();
        let branch_itype = match self.relation() {
            Some(branch) => branch,
            None => {
                return None;
            },
        };
        let ghost s2 = self@;
        assert(branch_held(s2, branch_itype, curr_block));
        let (fall_through_block, join_block) = self.open_if(curr_block);
        if self.consume(Token::Then).is_none() {
            return None;
        }
        self.set_curr(fall_through_block);
        if self.stat_sequence().is_none() {
            return None;
        }
        let fall_through_block = self.curr();
        self.link_fall_through(fall_through_block, join_block);
        assert(self@.frames.drop_last() =~= old(self)@.frames);
        proof {
            lemma_branch_held(s2, self@, branch_itype, curr_block);
        }
        if self.consume(Token::Else).is_some() {
            proof {
                lemma_branch_held(s2, self@, branch_itype, curr_block);
            }
            self.open_else(curr_block, fall_through_block, join_block, branch_itype);
            if self.stat_sequence().is_none() {
                return None;
            }
            let follow_block = self.curr();
            self.frame_follow(follow_block);
            self.link_fall_through(follow_block, join_block);
            assert(self@.frames.drop_last() =~= old(self)@.frames);
        } else {
            self.skip_else(curr_block, join_block, branch_itype);
            assert(self@.frames.drop_last() =~= old(self)@.frames);
        }
        if self.consume(Token::Fi).is_none() {
            return None;
        }
        assert(self@.frames.drop_last() =~= old(self)@.frames);
        self.pop_frame();
        self.set_curr(join_block);
        Some(())
    }

    /// whileStmt = 'while' relation 'do' statSeq 'od'
    ///
    /// The join block, which is the loop's header, is a child of the
    /// current block and gets a phi for every variable of the entry block
    /// before the condition is read, so that the condition and the body
    /// read the phis. The body is a child of the header and ends in a jump
    /// back to it; the follow block is a second child, where the header's
    /// branch goes. On success the frame is closed and the follow block is
    /// the current block.
    #[verifier::rlimit(100)]
    pub(crate) fn while_statement(&mut self) -> (r: Option<()>)
        requires
            old(self).wf(),
        ensures
            r is Some ==> while_built(old(self)@, final(self)@),
            old(self)@.links_kept(final(self)@),
            r is Some ==> final(self)@.frames == old(self)@.frames,
            (final(self)@, r) == crate::grammar::while_statement(old(self)@),
            old(self)@.placed() ==> final(self)@.placed(),
            final(self).wf(),
            old(self)@.grows_to(final(self)@),
            r is Some ==> final(self)@.tokens.measure() < old(self)@.tokens.measure(),
        decreases old(self)@.tokens.measure(), 5nat,
    {
        proof {
            reveal(crate::grammar::while_statement);
            reveal(crate::grammar::stat_sequence);
        }
        if self.consume(Token::While).is_none() {
            return None;
        }
        let curr_block = self.curr();
        let join_block = self.new_block(curr_block);
        self.init_phi(join_block);
        self.set_curr(join_block);
        let branch_itype = match self.relation() {
            Some(branch) => branch,
            None => {
                return None;
            },
        };
        let ghost s3 = self@;
        assert(branch_held(s3, branch_itype, join_block));
        let fall_through_block = self.new_block(join_block);
        self.link_fall_through(curr_block, join_block);
        self.link_fall_through(join_block, fall_through_block);
        let mut frame = BlockFrame::new();
        frame.while_loop().root(curr_block).fall_through(fall_through_block).join(
            join_block,
        ).status(FrameStatus::FallThrough);
        assert(frame == while_frame(curr_block, fall_through_block, join_block));
        self.push_frame(frame);
        if self.consume(Token::Do).is_none() {
            return None;
        }
        self.set_curr(fall_through_block);
        if self.stat_sequence().is_none() {
            return None;
        }
        let fall_through_block = self.curr();
        self.frame_fall_through(fall_through_block);
        self.link_fall_through(fall_through_block, join_block);
        if self.consume(Token::Od).is_none() {
            return None;
        }
        proof {
            lemma_branch_held(s3, self@, branch_itype, join_block);
            assert(self@.frames.drop_last() =~= old(self)@.frames);
            assert(self@.blocks[join_block as int].dom == Some(curr_block));
            assert(self@.blocks[curr_block as int].next.0 == Some(join_block));
            assert(self@.blocks[fall_through_block as int].next.0 == Some(join_block));
            assert(fall_through_block != join_block);
        }
        self.close_while(join_block, fall_through_block, branch_itype);
        Some(())
    }

    /// statement = assignment | funcCall | ifStmt | whileStmt | returnStmt
    pub(crate) fn statement(&mut self) -> (r: Option<()>)
        requires
            old(self).wf(),
        ensures
            old(self)@.links_kept(final(self)@),
            r is Some ==> final(self)@.frames == old(self)@.frames,
            (final(self)@, r) == crate::grammar::statement(old(self)@),
            old(self)@.placed() ==> final(self)@.placed(),
            final(self).wf(),
            old(self)@.grows_to(final(self)@),
            r is Some ==> final(self)@.tokens.measure() < old(self)@.tokens.measure(),
        decreases old(self)@.tokens.measure(), 6nat,
    {
        proof {
            reveal(crate::grammar::statement);
            reveal(crate::grammar::if_statement);
            reveal(crate::grammar::while_statement);
        }
        match self.peek() {
            Some(Token::Let) => self.assignment(),
            Some(Token::Call) => {
                match self.func_call() {
                    Some(_) => Some(()),
                    None => None,
                }
            },
            Some(Token::If) => self.if_statement(),
            Some(Token::While) => self.while_statement(),
            Some(Token::Return) => self.return_statement(),
            _ => None,
        }
    }

    /// statSeq = statement {';' statement}
    ///
    /// The first statement is required. The sequence ends where no
    /// semicolon follows, and after a semicolon where the token ahead cannot
    /// start a statement: so a semicolon may stand after the last statement.
    /// A statement that starts after a semicolon is required.
    pub(crate) fn stat_sequence(&mut self) -> (r: Option<()>)
        requires
            old(self).wf(),
        ensures
            old(self)@.links_kept(final(self)@),
            r is Some ==> final(self)@.frames == old(self)@.frames,
            (final(self)@, r) == crate::grammar::stat_sequence(old(self)@),
            old(self)@.placed() ==> final(self)@.placed(),
            final(self).wf(),
            old(self)@.grows_to(final(self)@),
            r is Some ==> final(self)@.tokens.measure() < old(self)@.tokens.measure(),
        decreases old(self)@.tokens.measure(), 7nat,
    {
        proof {
            reveal(crate::grammar::stat_sequence);
            reveal(crate::grammar::sequence_rest);
            reveal(crate::grammar::statement);
        }
        if self.statement().is_none() {
            return None;
        }
        loop
            invariant_except_break
                crate::grammar::stat_sequence(old(self)@) == crate::grammar::sequence_rest(self@),
            invariant
                self.wf(),
                old(self)@.grows_to(self@),
                old(self)@.links_kept(self@),
                self@.frames == old(self)@.frames,
                self@.tokens.measure() < old(self)@.tokens.measure(),
                old(self)@.placed() ==> self@.placed(),
            ensures
                self.wf(),
                old(self)@.grows_to(self@),
                old(self)@.links_kept(self@),
                self@.frames == old(self)@.frames,
                self@.tokens.measure() < old(self)@.tokens.measure(),
                old(self)@.placed() ==> self@.placed(),
                crate::grammar::stat_sequence(old(self)@) == (self@, Some(())),
            decreases self@.tokens.measure(),
        {
            proof {
                reveal(crate::grammar::sequence_rest);
                reveal(crate::grammar::statement);
            }
            if self.consume(Token::Semicolon).is_none() {
                break ;
            }
            match self.peek() {
                Some(Token::Let) | Some(Token::Call) | Some(Token::If) | Some(Token::While) | Some(
                    Token::Return,
                ) => {},
                _ => {
                    break ;
                },
            }
            if self.statement().is_none() {
                return None;
            }
        }
        Some(())
    }
}

} // verus!
