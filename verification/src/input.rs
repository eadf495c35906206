//! The byte source of the scanner: the source text with a read position.
use vstd::prelude::*;
use vstd::slice::slice_to_vec;

verus! {

/// The source text and how far it was read.
#[derive(Debug, PartialEq)]
pub struct Input {
    input: Vec<u8>,
    pos: usize,
}

impl Input {
    /// The bytes that were not read yet.
    pub closed spec fn rest(&self) -> Seq<u8> {
        if self.pos <= self.input@.len() {
            self.input@.skip(self.pos as int)
        } else {
            Seq::empty()
        }
    }

    /// An input positioned at the first byte of `input`.
    pub fn new(input: &[u8]) -> (r: Input)
        ensures
            r.rest() == input@,
    {
        let r = Input { input: slice_to_vec(input), pos: 0 };
        assert(r.input@.skip(0) =~= input@);
        r
    }

    /// The next byte, which stays unread; `None` at the end of the input.
    pub fn peek(&mut self) -> (r: Option<u8>)
        ensures
            *final(self) == *old(self),
            r == (if old(self).rest().len() > 0 {
                Some(old(self).rest()[0])
            } else {
                None
            }),
    {
        if self.pos < self.input.len() {
            Some(self.input[self.pos])
        } else {
            None
        }
    }

    /// Reads the next byte; `None` at the end of the input.
    pub fn next(&mut self) -> (r: Option<u8>)
        ensures
            r == (if old(self).rest().len() > 0 {
                Some(old(self).rest()[0])
            } else {
                None
            }),
            final(self).rest() == (if old(self).rest().len() > 0 {
                old(self).rest().drop_first()
            } else {
                old(self).rest()
            }),
    {
        if self.pos < self.input.len() {
            let old: u8 = self.input[self.pos];
            self.pos = self.pos + 1;
            assert(self.input@.skip(self.pos as int) =~= self.input@.skip(self.pos - 1).drop_first());
            Some(old)
        } else {
            None
        }
    }
}

} // verus!
