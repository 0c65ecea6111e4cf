//! The container capability that paletted containers offer, and byte slabs
//! and half-byte arrays: the two array forms of a flat section.
//!
//! A half-byte array packs two 4-bit entries into each byte; entry `i` is
//! the low half of byte `i / 2` when `i` is even and the high half when `i`
//! is odd.

use crate::error::Error;
use vstd::prelude::*;

verus! {

/// A container of `N` values that can be read, written and swapped by index.
pub trait DataContainer<const N: usize> {
    /// Whether the container is valid.
    spec fn valid(&self) -> bool;

    /// The `N` values.
    spec fn entries(&self) -> Seq<u64>;

    /// The values after `value` was written at index `i`, or `None` when the
    /// container cannot take the value.
    spec fn entries_after(&self, i: int, value: u64) -> Option<Seq<u64>>;

    /// The value at index `i`, or `OutOfBounds` when `i` is not below `N`.
    fn get(&mut self, i: usize) -> (r: Result<u64, Error>)
        requires
            old(self).valid(),
        ensures
            final(self).valid(),
            final(self).entries() == old(self).entries(),
            i < N ==> r == Ok::<u64, Error>(old(self).entries()[i as int]),
            i >= N ==> r == Err::<u64, Error>(Error::OutOfBounds),
    ;

    /// The value at index `i`.
    fn get_unchecked(&mut self, i: usize) -> (r: u64)
        requires
            old(self).valid(),
            i < N,
        ensures
            final(self).valid(),
            final(self).entries() == old(self).entries(),
            r == old(self).entries()[i as int],
    ;

    /// Writes `v` at index `i`. Returns `OutOfBounds` when `i` is not below
    /// `N`, and otherwise `PaletteOverflow` when the container cannot take
    /// `v`; in both cases the values stay as they were.
    fn set(&mut self, i: usize, v: u64) -> (r: Result<(), Error>)
        requires
            old(self).valid(),
        ensures
            final(self).valid(),
            i >= N ==> r == Err::<(), Error>(Error::OutOfBounds) && final(self).entries() == old(self).entries(),
            i < N ==> match old(self).entries_after(i as int, v) {
                Some(entries) => r is Ok && final(self).entries() == entries,
                None => r == Err::<(), Error>(Error::PaletteOverflow) && final(self).entries()
                    == old(self).entries(),
            },
    ;

    /// Writes `v` at index `i`, or returns `PaletteOverflow`, with the
    /// values as they were, when the container cannot take `v`.
    fn set_unchecked(&mut self, i: usize, v: u64) -> (r: Result<(), Error>)
        requires
            old(self).valid(),
            i < N,
        ensures
            final(self).valid(),
            match old(self).entries_after(i as int, v) {
                Some(entries) => r is Ok && final(self).entries() == entries,
                None => r == Err::<(), Error>(Error::PaletteOverflow) && final(self).entries()
                    == old(self).entries(),
            },
    ;

    /// Writes `v` at index `i` and returns the value that was there, under
    /// the conditions of `set`.
    fn swap(&mut self, i: usize, v: u64) -> (r: Result<u64, Error>)
        requires
            old(self).valid(),
        ensures
            final(self).valid(),
            i >= N ==> r == Err::<u64, Error>(Error::OutOfBounds) && final(self).entries() == old(self).entries(),
            i < N ==> match old(self).entries_after(i as int, v) {
                Some(entries) => r == Ok::<u64, Error>(old(self).entries()[i as int]) && final(self).entries() == entries,
                None => r == Err::<u64, Error>(Error::PaletteOverflow) && final(self).entries()
                    == old(self).entries(),
            },
    ;

    /// Writes `v` at index `i` and returns the value that was there, under
    /// the conditions of `set_unchecked`.
    fn swap_unchecked(&mut self, i: usize, v: u64) -> (r: Result<u64, Error>)
        requires
            old(self).valid(),
            i < N,
        ensures
            final(self).valid(),
            match old(self).entries_after(i as int, v) {
                Some(entries) => r == Ok::<u64, Error>(old(self).entries()[i as int]) && final(self).entries() == entries,
                None => r == Err::<u64, Error>(Error::PaletteOverflow) && final(self).entries()
                    == old(self).entries(),
            },
    ;
}

/// Entry `i` of the half-byte array stored in `bytes`.
pub open spec fn half_byte(bytes: Seq<u8>, i: int) -> u8 {
    if i % 2 == 0 {
        bytes[i / 2] & 0x0f
    } else {
        bytes[i / 2] >> 4
    }
}

/// The entries of the half-byte array stored in `bytes`, two for each byte.
pub open spec fn half_bytes(bytes: Seq<u8>) -> Seq<u8> {
    Seq::new(2 * bytes.len(), |i: int| half_byte(bytes, i))
}

/// `byte` with one of its halves replaced by the low 4 bits of `value`: the
/// high half when `high` holds, the low half otherwise.
pub open spec fn with_half(byte: u8, high: bool, value: u8) -> u8 {
    if high {
        (byte & 0x0f) | ((value & 0x0f) << 4)
    } else {
        (byte & 0xf0) | (value & 0x0f)
    }
}

/// Byte `i` of a byte slab, or `OutOfBounds` when `i` is not below its length.
pub fn byte_array_get(bytes: &[u8], i: usize) -> (r: Result<u8, Error>)
    ensures
        i < bytes@.len() ==> r == Ok::<u8, Error>(bytes@[i as int]),
        i >= bytes@.len() ==> r == Err::<u8, Error>(Error::OutOfBounds),
{
    if i >= bytes.len() {
        Err(Error::OutOfBounds)
    } else {
        Ok(bytes[i])
    }
}

/// Writes `value` to byte `i` of a byte slab, or returns `OutOfBounds`,
/// changing nothing, when `i` is not below its length.
pub fn byte_array_set(bytes: &mut [u8], i: usize, value: u8) -> (r: Result<(), Error>)
    ensures
        i < old(bytes)@.len() ==> r is Ok && final(bytes)@ == old(bytes)@.update(i as int, value),
        i >= old(bytes)@.len() ==> r == Err::<(), Error>(Error::OutOfBounds) && final(bytes)@
            == old(bytes)@,
{
    if i >= bytes.len() {
        Err(Error::OutOfBounds)
    } else {
        bytes[i] = value;
        Ok(())
    }
}

/// Entry `i` of a half-byte array, or `OutOfBounds` when `i` is not below
/// the number of its entries, which is twice the number of its bytes.
pub fn half_byte_array_get(bytes: &[u8], i: usize) -> (r: Result<u8, Error>)
    ensures
        i < 2 * bytes@.len() ==> r == Ok::<u8, Error>(half_bytes(bytes@)[i as int]),
        i >= 2 * bytes@.len() ==> r == Err::<u8, Error>(Error::OutOfBounds),
{
    if i / 2 >= bytes.len() {
        Err(Error::OutOfBounds)
    } else {
        let byte: u8 = bytes[i / 2];
        if i % 2 == 0 {
            Ok(byte & 0x0f)
        } else {
            Ok(byte >> 4)
        }
    }
}

proof fn lemma_half_written(byte: u8, value: u8)
    by (bit_vector)
    ensures
        with_half(byte, false, value) & 0x0f == value & 0x0f,
        with_half(byte, false, value) >> 4 == byte >> 4,
        with_half(byte, true, value) >> 4 == value & 0x0f,
        with_half(byte, true, value) & 0x0f == byte & 0x0f,
{
}

/// Writes the low 4 bits of `value` to entry `i` of a half-byte array and
/// leaves every other entry as it was, or returns `OutOfBounds`, changing
/// nothing, when `i` is not below the number of its entries.
pub fn half_byte_array_set(bytes: &mut [u8], i: usize, value: u8) -> (r: Result<(), Error>)
    ensures
        i < 2 * old(bytes)@.len() ==> {
            &&& r is Ok
            &&& final(bytes)@ == old(bytes)@.update(
                i as int / 2,
                with_half(old(bytes)@[i as int / 2], i % 2 == 1, value),
            )
            &&& half_bytes(final(bytes)@) == half_bytes(old(bytes)@).update(
                i as int,
                value & 0x0f,
            )
        },
        i >= 2 * old(bytes)@.len() ==> r == Err::<(), Error>(Error::OutOfBounds) && final(bytes)@
            == old(bytes)@,
{
    if i / 2 >= bytes.len() {
        Err(Error::OutOfBounds)
    } else {
        let byte: u8 = bytes[i / 2];
        let written: u8 = if i % 2 == 1 {
            (byte & 0x0f) | ((value & 0x0f) << 4)
        } else {
            (byte & 0xf0) | (value & 0x0f)
        };
        bytes[i / 2] = written;
        proof {
            lemma_half_written(byte, value);
        }
        Ok(())
    }
}

} // verus!
