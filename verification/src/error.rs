//! Why writing or reading fails.

use vstd::prelude::*;

verus! {

/// Why a value could not be written.
#[derive(Clone, Copy, Debug, PartialEq, Eq, Structural, Hash)]
pub enum SerializeError {
    /// A length or an offset does not fit the portable width.
    Overflow,
    /// The buffer's capacity does not hold the bytes.
    BufferExhausted,
}

/// Why bytes could not be read as a value.
#[derive(Clone, Copy, Debug, PartialEq, Eq, Structural, Hash)]
pub enum DeserializeError {
    /// Fewer bytes are there than the formula needs.
    OutOfBounds,
    /// More bytes are there than a value of the formula occupies.
    WrongLength,
    /// The discriminant names no variant.
    WrongVariant(u32),
    /// The portable size does not fit `usize`.
    InvalidUsize(u32),
    /// The portable signed size does not fit `isize`.
    InvalidIsize(i32),
}

} // verus!
