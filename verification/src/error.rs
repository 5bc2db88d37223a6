//! The ways in which reading an expression can fail.

use vstd::prelude::*;

verus! {

/// Why a read did not produce an expression.
#[derive(Debug, Clone, Copy, PartialEq, Eq, Structural)]
pub enum ReadError {
    /// The input ended while a token, an escape or a collection was incomplete.
    UnexpectedEof,
    /// A `)`, `]` or `}` stood where an expression was expected.
    UnexpectedCloseDelimiter,
    /// `#` was followed by a character other than `{`.
    UnknownReaderMacro,
    /// A backslash in a string literal was followed by an unsupported character.
    InvalidEscapeSequence,
    /// A string literal had no closing quote before the end of the input.
    UnterminatedString,
    /// The next characters are no integer that fits 64 bits, no float and no symbol.
    InvalidInput,
}

/// The words for each kind of failure.
pub open spec fn message_text(e: ReadError) -> Seq<char> {
    match e {
        ReadError::UnexpectedEof => "Unexpected end of input"@,
        ReadError::UnexpectedCloseDelimiter => "Unexpected closing delimiter"@,
        ReadError::UnknownReaderMacro => "Unknown reader macro char"@,
        ReadError::InvalidEscapeSequence => "Invalid escape sequence"@,
        ReadError::UnterminatedString => "Unterminated string literal"@,
        ReadError::InvalidInput => "Invalid input"@,
    }
}

impl ReadError {
    /// A short description of the failure, for display.
    pub fn message(&self) -> (m: &'static str)
        ensures
            m@ == message_text(*self),
    {
        match self {
            ReadError::UnexpectedEof => "Unexpected end of input",
            ReadError::UnexpectedCloseDelimiter => "Unexpected closing delimiter",
            ReadError::UnknownReaderMacro => "Unknown reader macro char",
            ReadError::InvalidEscapeSequence => "Invalid escape sequence",
            ReadError::UnterminatedString => "Unterminated string literal",
            ReadError::InvalidInput => "Invalid input",
        }
    }
}

} // verus!
