//! A read position in a borrowed byte buffer.

use crate::error::Error;
use vstd::prelude::*;
use vstd::slice::slice_subrange;

verus! {

/// A borrowed byte buffer and a position in it. Reading advances the
/// position on success only.
pub struct Cursor<'a> {
    bytes: &'a [u8],
    position: usize,
}

impl<'a> Cursor<'a> {
    /// The whole buffer.
    pub closed spec fn bytes(&self) -> Seq<u8> {
        self.bytes@
    }

    /// The number of bytes read so far.
    pub closed spec fn offset(&self) -> nat {
        self.position as nat
    }

    /// The position is inside the buffer or at its end.
    pub open spec fn wf(&self) -> bool {
        self.offset() <= self.bytes().len()
    }

    /// The bytes not read yet.
    pub open spec fn remaining(&self) -> Seq<u8> {
        self.bytes().subrange(self.offset() as int, self.bytes().len() as int)
    }

    /// A cursor at the start of `bytes`.
    pub fn new(bytes: &'a [u8]) -> (r: Self)
        ensures
            r.wf(),
            r.bytes() == bytes@,
            r.offset() == 0,
    {
        Cursor { bytes, position: 0 }
    }

    /// The number of bytes read so far.
    pub fn position(&self) -> (r: usize)
        ensures
            r == self.offset(),
    {
        self.position
    }

    /// Moves the cursor to `position`, or returns `DecodeShort`, changing
    /// nothing, when that is past the end of the buffer.
    pub fn set_position(&mut self, position: usize) -> (r: Result<(), Error>)
        requires
            old(self).wf(),
        ensures
            final(self).wf(),
            final(self).bytes() == old(self).bytes(),
            position <= old(self).bytes().len() ==> r is Ok && final(self).offset() == position,
            position > old(self).bytes().len() ==> r == Err::<(), Error>(Error::DecodeShort)
                && final(self).offset() == old(self).offset(),
    {
        if position > self.bytes.len() {
            Err(Error::DecodeShort)
        } else {
            self.position = position;
            Ok(())
        }
    }

    /// The number of bytes not read yet.
    pub fn remaining_len(&self) -> (r: usize)
        requires
            self.wf(),
        ensures
            r == self.remaining().len(),
    {
        self.bytes.len() - self.position
    }

    /// The next `n` bytes, or `DecodeShort`, with the cursor where it was,
    /// when fewer are left.
    pub fn take(&mut self, n: usize) -> (r: Result<&'a [u8], Error>)
        requires
            old(self).wf(),
        ensures
            final(self).wf(),
            final(self).bytes() == old(self).bytes(),
            n <= old(self).remaining().len() ==> {
                &&& r is Ok
                &&& r->Ok_0@ == old(self).remaining().subrange(0, n as int)
                &&& final(self).offset() == old(self).offset() + n
            },
            n > old(self).remaining().len() ==> r == Err::<&'a [u8], Error>(Error::DecodeShort)
                && final(self).offset() == old(self).offset(),
    {
        if n > self.bytes.len() - self.position {
            Err(Error::DecodeShort)
        } else {
            let start: usize = self.position;
            let taken = slice_subrange(self.bytes, start, start + n);
            self.position = start + n;
            Ok(taken)
        }
    }

    /// The next two bytes as a big-endian number, or `DecodeShort`, with the
    /// cursor where it was, when fewer are left.
    pub fn read_u16(&mut self) -> (r: Result<u16, Error>)
        requires
            old(self).wf(),
        ensures
            final(self).wf(),
            final(self).bytes() == old(self).bytes(),
            2 <= old(self).remaining().len() ==> {
                &&& r == Ok::<u16, Error>(
                    be16(old(self).remaining()[0], old(self).remaining()[1]),
                )
                &&& final(self).offset() == old(self).offset() + 2
            },
            2 > old(self).remaining().len() ==> r == Err::<u16, Error>(Error::DecodeShort)
                && final(self).offset() == old(self).offset(),
    {
        match self.take(2) {
            Ok(pair) => {
                let high: u8 = pair[0];
                let low: u8 = pair[1];
                assert(((high as u16) << 8) | (low as u16) == (high as u16) * 256 + (low as u16))
                    by (bit_vector);
                Ok(((high as u16) << 8) | (low as u16))
            },
            Err(e) => Err(e),
        }
    }
}

/// The number whose big-endian bytes are `high`, `low`.
pub open spec fn be16(high: u8, low: u8) -> u16 {
    (high * 256 + low) as u16
}

/// Appends the two big-endian bytes of `value` to `out`.
pub fn write_u16(out: &mut Vec<u8>, value: u16)
    ensures
        final(out)@ == old(out)@ + seq![(value / 256) as u8, (value % 256) as u8],
        be16((value / 256) as u8, (value % 256) as u8) == value,
{
    assert((value >> 8) as u8 == (value / 256) as u8 && (value & 0xff) as u8 == (value % 256) as u8)
        by (bit_vector);
    out.push((value >> 8) as u8);
    out.push((value & 0xff) as u8);
}

} // verus!
