//! What can go wrong while parsing.

use crate::token::{TokenK, UnknownK};
use vstd::prelude::*;

verus! {

/// Why a declaration group does not parse.
#[derive(Debug, PartialEq, Eq)]
pub enum ParseError {
    /// The tokens ran out in the middle of a production.
    UnexpectedEndOfFile,
    /// The next token does not fit the production.
    UnexpectedToken(TokenK),
    /// An operator is used that no fixity declaration names.
    UnknownBindingPower(String),
    /// The binding power of a fixity declaration is not one of 0 to 9.
    MalformedDigit,
    /// The source ends inside a block comment.
    UnterminatedComment,
    /// A number ends in a period.
    UnfinishedFloat,
    /// A state that the grammar has no answer for.
    InternalError(String),
}

/// A parse error, with the text of its strings.
pub enum Failure {
    UnexpectedEndOfFile,
    UnexpectedToken(TokenK),
    UnknownBindingPower(Seq<char>),
    MalformedDigit,
    UnterminatedComment,
    UnfinishedFloat,
    InternalError(Seq<char>),
}

impl View for ParseError {
    type V = Failure;

    open spec fn view(&self) -> Failure {
        match *self {
            ParseError::UnexpectedEndOfFile => Failure::UnexpectedEndOfFile,
            ParseError::UnexpectedToken(kind) => Failure::UnexpectedToken(kind),
            ParseError::UnknownBindingPower(operator) => Failure::UnknownBindingPower(operator@),
            ParseError::MalformedDigit => Failure::MalformedDigit,
            ParseError::UnterminatedComment => Failure::UnterminatedComment,
            ParseError::UnfinishedFloat => Failure::UnfinishedFloat,
            ParseError::InternalError(message) => Failure::InternalError(message@),
        }
    }
}

/// The error for a token of `kind` that stands where it cannot: the
/// lexer's own error tokens are reported as what they are.
pub open spec fn unexpected(kind: TokenK) -> Failure {
    match kind {
        TokenK::Unknown(UnknownK::UnfinishedComment) => Failure::UnterminatedComment,
        TokenK::Unknown(UnknownK::UnfinishedFloat) => Failure::UnfinishedFloat,
        _ => Failure::UnexpectedToken(kind),
    }
}

impl ParseError {
    /// The error for a token of `kind` that stands where it cannot.
    pub fn unexpected_token(kind: TokenK) -> (error: ParseError)
        ensures
            error@ == unexpected(kind),
    {
        match kind {
            TokenK::Unknown(UnknownK::UnfinishedComment) => ParseError::UnterminatedComment,
            TokenK::Unknown(UnknownK::UnfinishedFloat) => ParseError::UnfinishedFloat,
            _ => ParseError::UnexpectedToken(kind),
        }
    }
}

} // verus!
