//! The reasons for which a parse fails.
use vstd::prelude::*;

verus! {

/// The kinds of token, without what a token holds.
#[derive(Clone, Copy, PartialEq, Eq, Debug, Structural)]
pub enum TokenKind {
    /// `,`
    Comma,
    /// A decimal literal.
    Number,
    /// `)`
    ParenClose,
    /// `(`
    ParenOpen,
    /// A run of letters.
    Word,
}

/// Why a text or a sequence of tokens is not a geometry.
///
/// Every failure ends the parse: none is recovered from, and no part of a
/// result is returned beside it.
#[derive(Clone, Copy, PartialEq, Eq, Debug, Structural)]
pub enum WktError {
    /// The text holds a byte that begins no token.
    InvalidToken,
    /// A keyword holds a byte outside ASCII.
    EncodingError,
    /// A keyword names no kind of geometry.
    UnknownGeometryType,
    /// A token of the given kind was expected, and another one was found.
    MalformedGroup(TokenKind),
    /// The tokens ended inside a geometry.
    UnexpectedEndOfInput,
    /// A coordinate ended before it had all its ordinates.
    TooFewOrdinates,
    /// A coordinate went on after it had all its ordinates.
    TooManyOrdinates,
}

} // verus!
