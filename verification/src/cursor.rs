//! Byte cursor and table-origin stack.
//!
//! Offsets inside a table are always relative to where that table began,
//! not to the buffer start, so the read position is paired with a stack of
//! "table origin" anchors: one entry per table nesting level currently
//! being decoded.  The cursor never reads past the buffer end and never
//! returns garbage: a short read fails with [`CodecError::OutOfData`].

use vstd::prelude::*;

use crate::errors::CodecError;

verus! {

/// Transient decode state: a read position in a borrowed buffer plus the
/// stack of table origins, innermost table last.  The buffer itself is
/// passed to each read, so one cursor can walk any byte slice the caller
/// owns.
pub struct Cursor {
    /// Absolute byte index of the next read.
    pub pos: usize,
    /// Absolute byte indices at which the enclosing tables' headers begin.
    pub origins: Vec<usize>,
}

impl Cursor {
    /// A cursor at the start of a buffer, with no table entered yet.
    pub fn new() -> (c: Cursor)
        ensures
            c.pos == 0,
            c.origins@ == Seq::<usize>::empty(),
    {
        Cursor { pos: 0, origins: Vec::new() }
    }

    /// Records the current position as the origin of the table whose
    /// decode is beginning.
    pub fn push(&mut self)
        ensures
            final(self).pos == old(self).pos,
            final(self).origins@ == old(self).origins@.push(old(self).pos),
    {
        let p = self.pos;
        self.origins.push(p);
    }

    /// Discards the most recently pushed origin, restoring the enclosing
    /// one (or none, if this was the outermost table).
    pub fn pop(&mut self)
        requires
            old(self).origins@.len() > 0,
        ensures
            final(self).pos == old(self).pos,
            final(self).origins@ == old(self).origins@.drop_last(),
    {
        self.origins.pop();
    }

    /// The origin of the table currently being decoded.  Calling this with
    /// no table entered is a programmer error, so it is ruled out by
    /// precondition rather than reported at run time.
    pub fn top_of_table(&self) -> (r: usize)
        requires
            self.origins@.len() > 0,
        ensures
            r == self.origins@.last(),
    {
        self.origins[self.origins.len() - 1]
    }

    /// Repositions the cursor for an out-of-line read, leaving the origin
    /// stack untouched.
    pub fn seek(&mut self, p: usize)
        ensures
            final(self).pos == p,
            final(self).origins == old(self).origins,
    {
        self.pos = p;
    }

    /// How many bytes remain between the read position and the buffer end.
    pub open spec fn spec_remaining(self, data: Seq<u8>) -> nat {
        if self.pos <= data.len() {
            (data.len() - self.pos) as nat
        } else {
            0
        }
    }

    /// Advances the cursor by exactly `n` bytes and returns them, or fails
    /// with `OutOfData` when fewer than `n` bytes remain.  On failure the
    /// cursor is left exactly as it was.
    pub fn read_counted(&mut self, data: &Vec<u8>, n: usize) -> (r: Result<Vec<u8>, CodecError>)
        ensures
            match r {
                Ok(b) => {
                    &&& old(self).pos + n <= data@.len()
                    &&& b@ == data@.subrange(old(self).pos as int, old(self).pos + n)
                    &&& final(self).pos == old(self).pos + n
                    &&& final(self).origins == old(self).origins
                },
                Err(e) => {
                    &&& old(self).pos + n > data@.len()
                    &&& e == (CodecError::OutOfData {
                        requested: n,
                        available: old(self).spec_remaining(data@) as usize,
                    })
                    &&& *final(self) == *old(self)
                },
            },
    {
        if self.pos > data.len() || n > data.len() - self.pos {
            let remaining = if self.pos <= data.len() {
                data.len() - self.pos
            } else {
                0
            };
            return Err(CodecError::OutOfData { requested: n, available: remaining });
        }
        let mut out: Vec<u8> = Vec::new();
        let mut i: usize = 0;
        while i < n
            invariant
                i <= n,
                self == old(self),
                self.pos + n <= data@.len(),
                data@.len() <= usize::MAX,
                out@ =~= data@.subrange(self.pos as int, self.pos + i),
            decreases n - i,
        {
            proof {
                assert(data@.subrange(self.pos as int, self.pos + i + 1) =~= data@.subrange(
                    self.pos as int,
                    self.pos + i,
                ).push(data@[self.pos + i]));
            }
            out.push(data[self.pos + i]);
            i = i + 1;
        }
        self.pos = self.pos + n;
        Ok(out)
    }

    /// Reads one fixed-width field of `width` bytes: the same contract as
    /// [`Cursor::read_counted`], named for its use on header fields.
    pub fn read_fixed(&mut self, data: &Vec<u8>, width: usize) -> (r: Result<Vec<u8>, CodecError>)
        ensures
            match r {
                Ok(b) => {
                    &&& old(self).pos + width <= data@.len()
                    &&& b@ == data@.subrange(old(self).pos as int, old(self).pos + width)
                    &&& final(self).pos == old(self).pos + width
                    &&& final(self).origins == old(self).origins
                },
                Err(e) => {
                    &&& old(self).pos + width > data@.len()
                    &&& e == (CodecError::OutOfData {
                        requested: width,
                        available: old(self).spec_remaining(data@) as usize,
                    })
                    &&& *final(self) == *old(self)
                },
            },
    {
        self.read_counted(data, width)
    }
}

} // verus!
