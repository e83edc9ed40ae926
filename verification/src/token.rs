//! The token alphabet of the calculator's lexer, together with the
//! mathematical view of each token used by the contracts.

use vstd::prelude::*;

verus! {

/// An integer literal as carried by a token: either a value that fits in
/// `i64`, or a human-readable message for a literal whose magnitude is too
/// large for `i64`.
#[derive(Debug, Clone, PartialEq)]
pub enum WrappedInt {
    Int(i64),
    Overflow(String),
}

/// A lexical unit of one input line.
///
/// `RawError` is the scanner's internal signal for a run of input that
/// matches no rule; the stream bridge replaces it with `Error`, which
/// carries the offending slice, before any consumer sees it.
#[derive(Debug, Clone, PartialEq)]
pub enum Token {
    LParen,
    RParen,
    Plus,
    Minus,
    Star,
    Slash,
    Integer(WrappedInt),
    RawError,
    Error(String),
}

/// Mathematical view of a `WrappedInt`.
pub enum IntLitV {
    Int(i64),
    Overflow(Seq<char>),
}

/// Mathematical view of a `Token`.
pub enum TokenV {
    LParen,
    RParen,
    Plus,
    Minus,
    Star,
    Slash,
    Integer(IntLitV),
    RawError,
    Error(Seq<char>),
}

impl View for WrappedInt {
    type V = IntLitV;

    open spec fn view(&self) -> IntLitV {
        match self {
            WrappedInt::Int(v) => IntLitV::Int(*v),
            WrappedInt::Overflow(s) => IntLitV::Overflow(s@),
        }
    }
}

impl View for Token {
    type V = TokenV;

    open spec fn view(&self) -> TokenV {
        match self {
            Token::LParen => TokenV::LParen,
            Token::RParen => TokenV::RParen,
            Token::Plus => TokenV::Plus,
            Token::Minus => TokenV::Minus,
            Token::Star => TokenV::Star,
            Token::Slash => TokenV::Slash,
            Token::Integer(w) => TokenV::Integer(w@),
            Token::RawError => TokenV::RawError,
            Token::Error(s) => TokenV::Error(s@),
        }
    }
}

} // verus!
