//! A stream of bytes held in memory, read once from front to back.

use crate::format::byte_at;
use vstd::prelude::*;
use vstd::slice::slice_subrange;

verus! {

/// What a [`Cursor`] stands for: the bytes of the stream, and how many of
/// them have been read.
pub struct CursorView {
    /// All the bytes of the stream, read or not.
    pub bytes: Seq<u8>,
    /// The number of bytes read so far.
    pub position: nat,
}

impl CursorView {
    /// The bytes not yet read.
    pub open spec fn remaining(self) -> Seq<u8> {
        self.bytes.skip(self.position as int)
    }
}

/// A one-pass reader over a slice of bytes. Reading moves its position
/// forward, one place for each byte read, and never back.
#[derive(Debug)]
pub struct Cursor<'a> {
    data: &'a [u8],
    pos: usize,
}

impl<'a> View for Cursor<'a> {
    type V = CursorView;

    closed spec fn view(&self) -> CursorView {
        CursorView { bytes: self.data@, position: self.pos as nat }
    }
}

impl<'a> Cursor<'a> {
    /// The position never lies beyond the end of the stream.
    #[verifier::type_invariant]
    pub open spec fn within(self) -> bool {
        self@.position <= self@.bytes.len()
    }

    /// A cursor at the front of `data`.
    pub fn new(data: &'a [u8]) -> (cursor: Cursor<'a>)
        ensures
            cursor@ == (CursorView { bytes: data@, position: 0 }),
    {
        Cursor { data, pos: 0 }
    }

    /// The number of bytes read so far.
    pub fn position(&self) -> (position: u64)
        ensures
            position == self@.position,
    {
        proof {
            use_type_invariant(self);
        }
        self.pos as u64
    }

    /// Reads one byte: the first of those not yet read, or `None`, with the
    /// position unchanged, where none is left.
    pub fn read_byte(&mut self) -> (byte: Option<u8>)
        ensures
            final(self)@.bytes == old(self)@.bytes,
            byte == byte_at(old(self)@.bytes, old(self)@.position),
            final(self)@.position == old(self)@.position + if byte.is_some() {
                1nat
            } else {
                0
            },
    {
        proof {
            use_type_invariant(&*self);
        }
        if self.pos < self.data.len() {
            let byte = self.data[self.pos];
            self.pos = self.pos + 1;
            Some(byte)
        } else {
            None
        }
    }

    /// Reads up to `limit` bytes and appends them to `buf`: the next `limit`
    /// bytes, or all that are left where they are fewer. Returns how many
    /// were read.
    pub fn read_up_to(&mut self, limit: u64, buf: &mut Vec<u8>) -> (count: u64)
        ensures
            final(self)@.bytes == old(self)@.bytes,
            count == if old(self)@.remaining().len() < limit {
                old(self)@.remaining().len()
            } else {
                limit as nat
            },
            final(self)@.position == old(self)@.position + count,
            final(buf)@ == old(buf)@ + old(self)@.remaining().take(count as int),
    {
        proof {
            use_type_invariant(&*self);
        }
        let left = self.data.len() - self.pos;
        let count: usize = if (left as u64) < limit {
            left
        } else {
            limit as usize
        };
        let chunk = slice_subrange(self.data, self.pos, self.pos + count);
        buf.extend_from_slice(chunk);
        self.pos = self.pos + count;
        assert(buf@ =~= old(buf)@ + old(self)@.remaining().take(count as int));
        count as u64
    }
}

} // verus!
