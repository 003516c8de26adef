//! The ways in which reading an operation can fail.

use vstd::prelude::*;

verus! {

/// Why a text was not accepted.
#[derive(Clone, Copy, Debug, PartialEq, Eq)]
pub enum ParseError {
    /// The text does not start with `r` and a decimal digit.
    ExpectedRegister,
    /// The digits after `r` denote a number that is no register index.
    RegisterOutOfRange,
    /// The text starts with neither a register nor a decimal digit.
    ExpectedOperand,
    /// The digits denote a number outside the arithmetic domain.
    LiteralOutOfRange,
    /// A field is not followed by exactly one space.
    MissingSeparator,
}

/// Why a byte sequence was not accepted.
#[derive(Clone, Copy, Debug, PartialEq, Eq)]
pub enum DecodeError {
    /// The bytes end before the value does.
    UnexpectedEof,
    /// The byte that tells a register from a literal is neither of the two.
    InvalidVariant,
    /// The bytes of a literal denote a number outside the arithmetic domain.
    LiteralOutOfRange,
}

/// What parsing gives: what follows the value in the text, and the value; or why
/// there is none.
pub type Parsed<T> = Result<(Seq<char>, T), ParseError>;

/// What decoding gives: what follows the value in the bytes, and the value; or
/// why there is none.
pub type Decoded<T> = Result<(Seq<u8>, T), DecodeError>;

} // verus!
