use vstd::prelude::*;

verus! {

/// The ways an operation of this crate can fail.
///
/// Every failure is handed to the caller; nothing is recovered from inside.
#[derive(Clone, Copy, Debug, PartialEq, Eq, Structural)]
pub enum Error {
    /// An index was not below the number of entries of the container.
    OutOfBounds,
    /// A bit width was outside the range the constructor accepts.
    PreconditionViolated,
    /// A biome palette was asked to hold more distinct values than it can.
    PaletteOverflow,
    /// The input ended before the value being decoded was complete.
    DecodeShort,
    /// The number of packed words does not fit the entry count and bit width.
    DecodeInvalid,
}

} // verus!
