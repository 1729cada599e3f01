//! Sequential writer over an in-memory byte buffer.
//!
//! Used when encoding wire messages into a fixed-size buffer: each `put`
//! appends bytes at the current position and fails, leaving the buffer
//! untouched, when the remaining space is too small.

use vstd::prelude::*;

verus! {

/// Returned by [`Cursor::put`] when the remaining space in the underlying
/// buffer cannot hold the bytes to be written.
#[derive(Debug, PartialEq, Eq, Structural)]
pub struct BufferTooSmall;

/// Wrapper of an in-memory buffer to facilitate sequential write operations.
pub struct Cursor {
    inner: Vec<u8>,
    position: usize,
}

impl Cursor {
    /// The buffer being written into.
    pub closed spec fn buf(&self) -> Seq<u8> {
        self.inner@
    }

    /// The write position; everything before it has been written.
    pub closed spec fn pos(&self) -> int {
        self.position as int
    }

    /// The position never runs past the end of the buffer.
    pub closed spec fn wf(&self) -> bool {
        self.position <= self.inner.len()
    }

    /// Create a new cursor wrapping the provided in-memory buffer.
    /// Initially the position is 0, the start of the buffer.
    pub fn new(inner: Vec<u8>) -> (c: Cursor)
        ensures
            c.wf(),
            c.buf() == inner@,
            c.pos() == 0,
    {
        Cursor { inner, position: 0 }
    }

    /// Return the current position of this cursor.
    pub fn position(&self) -> (p: usize)
        ensures
            p == self.pos(),
    {
        self.position
    }

    /// Give the underlying buffer back.
    pub fn into_inner(self) -> (v: Vec<u8>)
        ensures
            v@ == self.buf(),
    {
        self.inner
    }

    /// Write the bytes to self and advance the cursor by the number of bytes
    /// written. If there isn't enough space left in the underlying buffer, it
    /// is left untouched and `Err(BufferTooSmall)` is returned.
    pub fn put(&mut self, buffer: &[u8]) -> (r: Result<(), BufferTooSmall>)
        requires
            old(self).wf(),
        ensures
            final(self).wf(),
            final(self).buf().len() == old(self).buf().len(),
            buffer@.len() > old(self).buf().len() - old(self).pos() ==> (r
                matches Err(BufferTooSmall) && *final(self) == *old(self)),
            buffer@.len() <= old(self).buf().len() - old(self).pos() ==> (r matches Ok(())
                && final(self).pos() == old(self).pos() + buffer@.len()
                && final(self).buf() == old(self).buf().subrange(0, old(self).pos()).add(
                buffer@).add(
                old(self).buf().subrange(old(self).pos() + buffer@.len(),
                old(self).buf().len() as int))),
    {
        if buffer.len() > self.inner.len() - self.position {
            return Err(BufferTooSmall);
        }

        let mut i: usize = 0;
        while i < buffer.len()
            invariant
                old(self).wf(),
                i <= buffer@.len(),
                buffer@.len() <= old(self).buf().len() - old(self).pos(),
                self.position == old(self).position,
                self.inner@.len() == old(self).inner@.len(),
                forall|k: int| 0 <= k < old(self).pos() ==> self.inner@[k] == old(self).inner@[k],
                forall|k: int|
                    0 <= k < i ==> self.inner@[old(self).pos() + k] == buffer@[k],
                forall|k: int|
                    old(self).pos() + buffer@.len() <= k < old(self).inner@.len()
                        ==> self.inner@[k] == old(self).inner@[k],
            decreases buffer@.len() - i,
        {
            self.inner.set(self.position + i, buffer[i]);
            i = i + 1;
        }
        self.position = self.position + buffer.len();

        proof {
            assert(self.inner@ =~= old(self).buf().subrange(0, old(self).pos()).add(
                buffer@).add(old(self).buf().subrange(old(self).pos() + buffer@.len(),
                old(self).buf().len() as int)));
        }

        Ok(())
    }
}

} // verus!
