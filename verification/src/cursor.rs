//! A read position over a borrowed byte buffer.

use vstd::prelude::*;
use vstd::slice::slice_subrange;
use vstd::slice::slice_to_vec;

verus! {

/// A byte buffer together with the offset of the next unread byte.
///
/// The offset never passes the end of the buffer.
pub struct ByteCursor<'a> {
    data: &'a [u8],
    pos: usize,
}

impl<'a> ByteCursor<'a> {
    #[verifier::type_invariant]
    spec fn in_bounds(&self) -> bool {
        self.pos <= self.data@.len()
    }

    /// The whole buffer, read or not.
    pub closed spec fn bytes(&self) -> Seq<u8> {
        self.data@
    }

    /// The number of bytes already read.
    pub closed spec fn offset(&self) -> nat {
        if self.pos <= self.data@.len() {
            self.pos as nat
        } else {
            self.data@.len()
        }
    }

    /// The bytes from the offset to the end of the buffer.
    pub open spec fn unread(&self) -> Seq<u8> {
        self.bytes().skip(self.offset() as int)
    }

    /// The offset of a cursor lies within its buffer, whose length is that of
    /// a slice in memory.
    pub proof fn lemma_offset_in_bounds(&self)
        ensures
            self.offset() <= self.bytes().len() <= usize::MAX,
    {
        assert(self.data@.len() == self.data.len());
    }

    /// A cursor at the start of `data`.
    pub fn new(data: &'a [u8]) -> (cursor: Self)
        ensures
            cursor.bytes() == data@,
            cursor.offset() == 0,
    {
        ByteCursor { data, pos: 0 }
    }

    /// The offset of the next unread byte.
    pub fn position(&self) -> (p: usize)
        ensures
            p == self.offset(),
            p <= self.bytes().len(),
    {
        proof {
            use_type_invariant(self);
        }
        self.pos
    }

    /// The number of unread bytes.
    pub fn remaining(&self) -> (n: usize)
        ensures
            n == self.unread().len(),
            n == self.bytes().len() - self.offset(),
    {
        proof {
            use_type_invariant(self);
        }
        self.data.len() - self.pos
    }

    /// Reads one byte and steps past it, or returns `None` at the end of the
    /// buffer and leaves the cursor where it is.
    pub fn read_u8(&mut self) -> (byte: Option<u8>)
        ensures
            final(self).bytes() == old(self).bytes(),
            old(self).unread().len() == 0 ==> byte.is_none() && final(self).offset() == old(
                self,
            ).offset(),
            old(self).unread().len() > 0 ==> byte == Some(old(self).unread()[0])
                && final(self).offset() == old(self).offset() + 1,
    {
        proof {
            use_type_invariant(&*self);
        }
        if self.pos < self.data.len() {
            let b = self.data[self.pos];
            self.pos = self.pos + 1;
            Some(b)
        } else {
            None
        }
    }

    /// Steps back over the `count` bytes read last, or returns `false` and
    /// leaves the cursor where it is when fewer than `count` were read.
    pub fn rewind(&mut self, count: usize) -> (moved: bool)
        ensures
            final(self).bytes() == old(self).bytes(),
            moved == (count <= old(self).offset()),
            moved ==> final(self).offset() == old(self).offset() - count,
            !moved ==> final(self).offset() == old(self).offset(),
    {
        proof {
            use_type_invariant(&*self);
        }
        if count <= self.pos {
            self.pos = self.pos - count;
            true
        } else {
            false
        }
    }

    /// Copies out every unread byte and moves the cursor to the end.
    pub fn read_to_end(&mut self) -> (rest: Vec<u8>)
        ensures
            final(self).bytes() == old(self).bytes(),
            final(self).offset() == old(self).bytes().len(),
            rest@ == old(self).unread(),
    {
        proof {
            use_type_invariant(&*self);
        }
        let tail = slice_subrange(self.data, self.pos, self.data.len());
        let rest = slice_to_vec(tail);
        self.pos = self.data.len();
        rest
    }
}

} // verus!
