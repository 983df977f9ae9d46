//! A reusable output buffer for assembling one log line.

use vstd::prelude::*;

verus! {

/// Owns the byte buffer one rendered line is assembled in.
pub struct Cursor {
    inner: Vec<u8>,
}

impl View for Cursor {
    type V = Seq<u8>;

    closed spec fn view(&self) -> Seq<u8> {
        self.inner@
    }
}

impl Cursor {
    /// Wraps a buffer.
    pub fn new(inner: Vec<u8>) -> (c: Cursor)
        ensures
            c@ == inner@,
    {
        Cursor { inner }
    }

    /// Borrows the buffer mutably.
    pub fn inner_mut(&mut self) -> (r: &mut Vec<u8>)
        ensures
            r@ == old(self)@,
            final(self)@ == final(r)@,
    {
        &mut self.inner
    }

    /// Borrows the assembled bytes.
    pub fn bytes(&self) -> (b: &Vec<u8>)
        ensures
            b@ == self@,
    {
        &self.inner
    }

    /// Empties the buffer for reuse.
    pub fn clear(&mut self)
        ensures
            final(self)@ == Seq::<u8>::empty(),
    {
        self.inner.clear();
    }

    /// Hands the buffer back.
    pub fn into_inner(self) -> (v: Vec<u8>)
        ensures
            v@ == self@,
    {
        self.inner
    }
}

} // verus!
