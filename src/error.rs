//! Error kinds of the codecs and of schema construction.

use vstd::prelude::*;

verus! {

/// Failure of a decode or encode call.
#[derive(Clone, Copy, Debug, PartialEq, Eq, Structural)]
pub enum CodecError {
    /// No variant's bit string is consistent with the bits read.
    NoMatchingVariant,
    /// A resolved coordinate lies outside the grid.
    OutOfRange,
}

/// Failure of a schema construction step.
#[derive(Clone, Copy, Debug, PartialEq, Eq, Structural)]
pub enum SchemaError {
    /// A variant's bit string does not have one character per bit name.
    BitCountMismatch,
    /// A bit name is declared twice.
    DuplicateBitName,
    /// A placement names a bit that the pattern does not have.
    UnknownBitName,
    /// A bit of the pattern has no placement.
    MissingBitName,
    /// A coordinate has a different number of dimensions than the layout.
    DimensionMismatch,
    /// A composed coordinate does not fit in `isize`.
    CoordinateOverflow,
}

} // verus!
