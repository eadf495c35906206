//! Control-flow frames: what the builder remembers while it is inside an
//! `if` or a `while`.
use vstd::prelude::*;

verus! {

/// The construct that opened a frame.
#[derive(Debug, PartialEq, Eq, Clone, Copy, Structural)]
pub enum FrameState {
    Conditional,
    While,
}

/// The arm of an `if` that is being emitted.
#[derive(Debug, PartialEq, Eq, Clone, Copy, Structural)]
pub enum FrameStatus {
    FallThrough,
    Follow,
}

/// One open `if` or `while`: the blocks that belong to it. Every field is
/// unset until its builder method is called.
#[derive(Debug, PartialEq, Clone, Copy)]
pub struct BlockFrame {
    pub state: Option<FrameState>,
    pub follow: Option<usize>,
    pub fall_through: Option<usize>,
    pub join: Option<usize>,
    pub root: Option<usize>,
    pub status: Option<FrameStatus>,
}

impl BlockFrame {
    /// A frame with every field unset.
    pub fn new() -> (r: Self)
        ensures
            r == (BlockFrame {
                state: None,
                follow: None,
                fall_through: None,
                join: None,
                root: None,
                status: None,
            }),
    {
        BlockFrame {
            state: None,
            follow: None,
            fall_through: None,
            join: None,
            root: None,
            status: None,
        }
    }

    /// Marks the frame as that of an `if`.
    pub fn conditional(&mut self) -> (r: &mut Self)
        ensures
            *r == (BlockFrame { state: Some(FrameState::Conditional), ..*old(self) }),
            *final(self) == *final(r),
    {
        self.state = Some(FrameState::Conditional);
        self
    }

    /// Marks the frame as that of a `while`.
    pub fn while_loop(&mut self) -> (r: &mut Self)
        ensures
            *r == (BlockFrame { state: Some(FrameState::While), ..*old(self) }),
            *final(self) == *final(r),
    {
        self.state = Some(FrameState::While);
        self
    }

    /// Sets the follow block.
    pub fn follow(&mut self, follow: usize) -> (r: &mut Self)
        ensures
            *r == (BlockFrame { follow: Some(follow), ..*old(self) }),
            *final(self) == *final(r),
    {
        self.follow = Some(follow);
        self
    }

    /// Sets the join block.
    pub fn join(&mut self, join: usize) -> (r: &mut Self)
        ensures
            *r == (BlockFrame { join: Some(join), ..*old(self) }),
            *final(self) == *final(r),
    {
        self.join = Some(join);
        self
    }

    /// Sets the fall-through block.
    pub fn fall_through(&mut self, fall_through: usize) -> (r: &mut Self)
        ensures
            *r == (BlockFrame { fall_through: Some(fall_through), ..*old(self) }),
            *final(self) == *final(r),
    {
        self.fall_through = Some(fall_through);
        self
    }

    /// Sets the root block, the one that made the decision.
    pub fn root(&mut self, root: usize) -> (r: &mut Self)
        ensures
            *r == (BlockFrame { root: Some(root), ..*old(self) }),
            *final(self) == *final(r),
    {
        self.root = Some(root);
        self
    }

    /// Sets the arm that is being emitted.
    pub fn status(&mut self, status: FrameStatus) -> (r: &mut Self)
        ensures
            *r == (BlockFrame { status: Some(status), ..*old(self) }),
            *final(self) == *final(r),
    {
        self.status = Some(status);
        self
    }

    /// Whether the fall-through arm is being emitted.
    pub fn is_fall_through(&self) -> (r: bool)
        ensures
            r == (self.status == Some(FrameStatus::FallThrough)),
    {
        match self.status {
            Some(FrameStatus::FallThrough) => true,
            _ => false,
        }
    }
}

/// The builder's cursor: the block that instructions go to, and the stack
/// of open frames.
#[derive(Debug, PartialEq, Clone)]
pub struct BlockState {
    pub curr: usize,
    pub stack: Vec<BlockFrame>,
}

impl BlockState {
    /// The open frames, outermost first; the last one is the front.
    pub open spec fn frames(&self) -> Seq<BlockFrame> {
        self.stack@
    }

    /// A cursor at block `curr` with no open frame.
    pub fn new(curr: usize) -> (r: BlockState)
        ensures
            r.curr == curr,
            r.frames() == Seq::<BlockFrame>::empty(),
    {
        BlockState { curr, stack: Vec::new() }
    }

    /// The current block.
    pub fn curr(&self) -> (r: usize)
        ensures
            r == self.curr,
    {
        self.curr
    }

    /// Whether no frame is open.
    pub fn is_empty(&self) -> (r: bool)
        ensures
            r == (self.frames().len() == 0),
    {
        self.stack.len() == 0
    }

    /// The number of open frames.
    pub fn depth(&self) -> (r: usize)
        ensures
            r == self.frames().len(),
    {
        self.stack.len()
    }

    /// The innermost open frame.
    pub fn front(&self) -> (r: &BlockFrame)
        requires
            self.frames().len() > 0,
        ensures
            *r == self.frames().last(),
    {
        &self.stack[self.stack.len() - 1]
    }

    /// The innermost open frame, to be changed in place.
    pub fn front_mut(&mut self) -> (r: &mut BlockFrame)
        requires
            old(self).frames().len() > 0,
        ensures
            *r == old(self).frames().last(),
            final(self).frames() == old(self).frames().drop_last().push(*final(r)),
            final(self).curr == old(self).curr,
    {
        let last: usize = self.stack.len() - 1;
        &mut self.stack[last]
    }

    /// Opens a frame.
    pub fn push(&mut self, blocks: BlockFrame)
        ensures
            final(self).frames() == old(self).frames().push(blocks),
            final(self).curr == old(self).curr,
    {
        self.stack.push(blocks);
    }

    /// Closes the innermost frame and returns it; `None` when none is open.
    pub fn pop(&mut self) -> (r: Option<BlockFrame>)
        ensures
            final(self).curr == old(self).curr,
            old(self).frames().len() == 0 ==> r is None && final(self).frames() == old(self).frames(),
            old(self).frames().len() > 0 ==> r == Some(old(self).frames().last())
                && final(self).frames() == old(self).frames().drop_last(),
    {
        self.stack.pop()
    }
}

} // verus!
