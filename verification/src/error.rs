//! The errors of this library.

use vstd::prelude::*;

verus! {

/// What went wrong while reading bytes from a source.
#[derive(Debug, Clone, Copy, PartialEq, Eq, Structural)]
pub enum IoErrorKind {
    /// The source ended before the requested number of bytes could be read.
    UnexpectedEof,
}

/// Why a text could not be read as an unsigned decimal integer.
#[derive(Debug, Clone, Copy, PartialEq, Eq, Structural)]
pub enum IntErrorKind {
    /// The text is empty.
    Empty,
    /// The text holds something else than an optional `+` followed by digits.
    InvalidDigit,
    /// The number does not fit in the integer type.
    PosOverflow,
}

/// The error of parsing an unsigned decimal integer.
#[derive(Debug, Clone, Copy, PartialEq, Eq, Structural)]
pub struct ParseIntError {
    pub kind: IntErrorKind,
}

/// Errors of reading and writing field values.
#[derive(Debug, Clone, Copy, PartialEq, Eq, Structural)]
pub enum Error {
    /// Reading the underlying bytes failed.
    IoError(IoErrorKind),
    /// A number stored as text could not be parsed.
    ParseIntError(ParseIntError),
    /// The character does not name a field type.
    InvalidFieldType(char),
    /// A memo field was read but no memo file was given.
    MissingMemoFile,
    /// The value cannot be written as the requested field type.
    IncompatibleType,
    /// The day or the month is out of range.
    InvalidDate,
}

} // verus!
