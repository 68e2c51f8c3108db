//! The two closed error taxonomies, one per pipeline stage.
//!
//! Every error carries the full original input as characters together with
//! the [`Span`] of the offending substring; rendering a human-readable
//! message (color, layout) is left to an external presentation layer.

use crate::tokens::Span;
use vstd::prelude::*;

verus! {

/// Errors reported by the lexer.
#[derive(Debug, Clone, PartialEq)]
pub enum LexicalError {
    InvalidToken(Vec<char>, Span),
    MissingColon(Vec<char>, Span),
    InvalidRange(Vec<char>, Span),
    UnexpectedEqual(Vec<char>, Span),
    MalformedNumber(Vec<char>, Span),
    MisplacedRngSyntax(Vec<char>, Span),
    NumberTooLarge(Vec<char>, Span),
}

/// The discriminant of a [`LexicalError`], used by contracts to speak about
/// which error is returned without repeating the carried input.
#[derive(Debug, PartialEq, Eq, Structural, Clone, Copy)]
pub enum LexErrKind {
    InvalidToken,
    MissingColon,
    InvalidRange,
    UnexpectedEqual,
    MalformedNumber,
    MisplacedRngSyntax,
    NumberTooLarge,
}

impl LexicalError {
    /// The carried input, discriminant and span of this error.
    pub open spec fn parts(self) -> (Seq<char>, LexErrKind, Span) {
        match self {
            LexicalError::InvalidToken(s, sp) => (s@, LexErrKind::InvalidToken, sp),
            LexicalError::MissingColon(s, sp) => (s@, LexErrKind::MissingColon, sp),
            LexicalError::InvalidRange(s, sp) => (s@, LexErrKind::InvalidRange, sp),
            LexicalError::UnexpectedEqual(s, sp) => (s@, LexErrKind::UnexpectedEqual, sp),
            LexicalError::MalformedNumber(s, sp) => (s@, LexErrKind::MalformedNumber, sp),
            LexicalError::MisplacedRngSyntax(s, sp) => (s@, LexErrKind::MisplacedRngSyntax, sp),
            LexicalError::NumberTooLarge(s, sp) => (s@, LexErrKind::NumberTooLarge, sp),
        }
    }
}

/// Errors reported by the parser and by the evaluation / materialization
/// stage (an evaluation-time fault is reported the same way as a
/// structural parser error).
#[derive(Debug, Clone, PartialEq)]
pub enum ParserError {
    EmptyParen(Vec<char>, Span),
    IncompleteInt(Vec<char>, Span),
    IncompleteMathExpr(Vec<char>, Span),
    InvalidInt(Vec<char>, Span),
    InvalidMathOp(Vec<char>, Span),
    InvalidMathExpr(Vec<char>, Span),
    UnmatchedParen(Vec<char>, Span),
    UnexpectedComma(Vec<char>, Span),
    UnexpectedMathOp(Vec<char>, Span),
    TooManyParen(Vec<char>, Span),
}

/// The discriminant of a [`ParserError`].
#[derive(Debug, PartialEq, Eq, Structural, Clone, Copy)]
pub enum ParseErrKind {
    EmptyParen,
    IncompleteInt,
    IncompleteMathExpr,
    InvalidInt,
    InvalidMathOp,
    InvalidMathExpr,
    UnmatchedParen,
    UnexpectedComma,
    UnexpectedMathOp,
    TooManyParen,
}

impl ParserError {
    /// The carried input, discriminant and span of this error.
    pub open spec fn parts(self) -> (Seq<char>, ParseErrKind, Span) {
        match self {
            ParserError::EmptyParen(s, sp) => (s@, ParseErrKind::EmptyParen, sp),
            ParserError::IncompleteInt(s, sp) => (s@, ParseErrKind::IncompleteInt, sp),
            ParserError::IncompleteMathExpr(s, sp) => (s@, ParseErrKind::IncompleteMathExpr, sp),
            ParserError::InvalidInt(s, sp) => (s@, ParseErrKind::InvalidInt, sp),
            ParserError::InvalidMathOp(s, sp) => (s@, ParseErrKind::InvalidMathOp, sp),
            ParserError::InvalidMathExpr(s, sp) => (s@, ParseErrKind::InvalidMathExpr, sp),
            ParserError::UnmatchedParen(s, sp) => (s@, ParseErrKind::UnmatchedParen, sp),
            ParserError::UnexpectedComma(s, sp) => (s@, ParseErrKind::UnexpectedComma, sp),
            ParserError::UnexpectedMathOp(s, sp) => (s@, ParseErrKind::UnexpectedMathOp, sp),
            ParserError::TooManyParen(s, sp) => (s@, ParseErrKind::TooManyParen, sp),
        }
    }
}

/// Build an owned copy of a character vector (errors carry the full
/// input).
pub(crate) fn clone_chars(v: &Vec<char>) -> (r: Vec<char>)
    ensures
        r@ == v@,
{
    let mut r: Vec<char> = Vec::new();
    let mut i: usize = 0;
    while i < v.len()
        invariant
            i <= v@.len(),
            r@ == v@.subrange(0, i as int),
        decreases v@.len() - i,
    {
        r.push(v[i]);
        i += 1;
    }
    assert(r@ =~= v@);
    r
}

} // verus!
