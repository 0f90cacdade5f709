//! The errors of the library.

use vstd::prelude::*;

verus! {

/// Why a decimal integer could not be read (the kinds of `std::num::IntErrorKind`
/// that an unsigned parse can produce).
#[derive(Debug, Clone, Copy, PartialEq, Eq, Structural)]
pub enum IntErrorKind {
    /// The text is empty.
    Empty,
    /// The text holds a character that is not a decimal digit where one is expected.
    InvalidDigit,
    /// The number does not fit in the target integer type.
    PosOverflow,
}

/// Why a decimal text could not be read as a 256-bit unsigned integer.
#[derive(Debug, Clone, Copy, PartialEq, Eq, Structural)]
pub enum DecStrError {
    /// A character is not a decimal digit.
    InvalidCharacter,
    /// The value does not fit in 256 bits.
    InvalidLength,
}

/// Why a Base64-URL text could not be decoded (the cases of `base64::DecodeError`).
#[derive(Debug, Clone, Copy, PartialEq, Eq, Structural)]
pub enum Base64DecodeError {
    /// A byte that is not in the alphabet, with its offset.
    InvalidByte(usize, u8),
    /// The length of the text is not that of any encoding.
    InvalidLength,
    /// The last symbol has bits set that the encoding would have left clear.
    InvalidLastSymbol(usize, u8),
}

/// The errors of the library.
#[derive(Debug, Clone, PartialEq, Eq, Structural)]
pub enum Error {
    BlockNotFound(u64),
    EmptyEndpoints,
    InvalidPath,
    InvalidRange,
    InvalidTimestamp,
    NoBlockExists,
    NoDataDirectory,
    NoLatestBlockRecord,
    ParseBlockFailed,
    ParseBlockPtrFailed,
    ParseInt(IntErrorKind),
    Base64Decode(Base64DecodeError),
    Uint(DecStrError),
}

/// result type
pub type Result<T> = std::result::Result<T, Error>;

} // verus!
