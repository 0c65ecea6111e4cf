//! Writing values to bytes and reading them back from a cursor.

use crate::cursor::{be16, write_u16, Cursor};
use crate::error::Error;
use vstd::prelude::*;

verus! {

/// A value that can be written to bytes.
pub trait Encode {
    /// The bytes of the value on the wire.
    spec fn wire(&self) -> Seq<u8>;

    /// Appends the value's bytes to `out`.
    fn encode(&self, out: &mut Vec<u8>)
        ensures
            final(out)@ == old(out)@ + self.wire(),
    ;
}

/// A value that can be read from the front of a byte stream.
pub trait Decode: Sized {
    /// What reading from `input` gives: the value and the number of bytes it
    /// took, or the error.
    spec fn parse(input: Seq<u8>) -> Result<(Self, nat), Error>;

    /// Reads a value from the cursor. The cursor moves past the bytes of
    /// the value on success and stays where it was on failure.
    fn decode(cursor: &mut Cursor<'_>) -> (r: Result<Self, Error>)
        requires
            old(cursor).wf(),
        ensures
            final(cursor).wf(),
            final(cursor).bytes() == old(cursor).bytes(),
            match Self::parse(old(cursor).remaining()) {
                Ok((value, used)) => r == Ok::<Self, Error>(value) && final(cursor).offset()
                    == old(cursor).offset() + used,
                Err(e) => r == Err::<Self, Error>(e) && final(cursor).offset() == old(
                    cursor,
                ).offset(),
            },
    ;
}

impl Encode for u16 {
    /// Two bytes, the high one first.
    open spec fn wire(&self) -> Seq<u8> {
        seq![(*self / 256) as u8, (*self % 256) as u8]
    }

    fn encode(&self, out: &mut Vec<u8>) {
        write_u16(out, *self);
    }
}

impl Decode for u16 {
    /// Two bytes, the high one first; `DecodeShort` when fewer are there.
    open spec fn parse(input: Seq<u8>) -> Result<(Self, nat), Error> {
        if input.len() < 2 {
            Err(Error::DecodeShort)
        } else {
            Ok((be16(input[0], input[1]), 2))
        }
    }

    fn decode(cursor: &mut Cursor<'_>) -> (r: Result<Self, Error>) {
        cursor.read_u16()
    }
}

/// A number written and read back is the same number.
pub proof fn lemma_u16_round_trip(value: u16, rest: Seq<u8>)
    ensures
        u16::parse(value.wire() + rest) == Ok::<(u16, nat), Error>((value, 2)),
{
}

} // verus!
