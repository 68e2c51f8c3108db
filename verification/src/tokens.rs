//! Spans, tokens and operator tags shared by the lexer and the parser.

use vstd::prelude::*;

verus! {

/// Arithmetic operator tag carried by a `TokenKind::Math` token.
///
/// `UnaryAdd` and `UnarySub` are never produced by the lexer; the parser
/// rewrites a leading `+`/`-` inside an arithmetic expression into them.
#[derive(Debug, PartialEq, Eq, Structural, Clone, Copy)]
pub enum Op {
    Add,
    Sub,
    Mul,
    Div,
    Pow,
    Mod,
    UnarySub,
    UnaryAdd,
}

/// Binding strength of an operator: unary sign (4) over `^` (3) over
/// `* / %` (2) over `+ -` (1).
pub open spec fn spec_precedence(op: Op) -> u8 {
    match op {
        Op::Add | Op::Sub => 1,
        Op::Mul | Op::Div | Op::Mod => 2,
        Op::Pow => 3,
        Op::UnaryAdd | Op::UnarySub => 4,
    }
}

/// Associativity of an operator: all binary operators group to the left,
/// the unary signs to the right.
pub open spec fn spec_associativity(op: Op) -> u8 {
    match op {
        Op::Add | Op::Sub | Op::Mul | Op::Div | Op::Mod | Op::Pow => LEFT_ASSOC,
        Op::UnaryAdd | Op::UnarySub => RIGHT_ASSOC,
    }
}

pub const LEFT_ASSOC: u8 = 0;

pub const RIGHT_ASSOC: u8 = 1;

impl Op {
    pub fn precedence(&self) -> (p: u8)
        ensures
            p == spec_precedence(*self),
    {
        match self {
            Op::Add | Op::Sub => 1,
            Op::Mul | Op::Div | Op::Mod => 2,
            Op::Pow => 3,
            Op::UnaryAdd | Op::UnarySub => 4,
        }
    }

    pub fn associativity(&self) -> (a: u8)
        ensures
            a == spec_associativity(*self),
    {
        match self {
            Op::Add | Op::Sub | Op::Mul | Op::Div | Op::Mod | Op::Pow => LEFT_ASSOC,
            Op::UnaryAdd | Op::UnarySub => RIGHT_ASSOC,
        }
    }
}

/// The closed set of token classes emitted by the lexer.
#[derive(Debug, PartialEq, Eq, Structural, Clone, Copy)]
pub enum TokenKind {
    // Misc
    Comma,

    // Numbers
    Int { value: i64 },

    // Math operations
    Math(Op),

    // Parentheses
    LParen,    // (
    RParen,    // )
    LSquiggly, // {
    RSquiggly, // }

    // Range
    RngInclusive, // ..=
    RngExclusive, // ..
    RngStep,      // s:
    RngMutation,  // m:
    RngMutArg,    // @
}

/// A 1-indexed, inclusive pair of character positions locating a token or
/// node in the original input.  Well-formed spans satisfy `start <= end`.
#[derive(Debug, Clone, Copy, PartialEq, Eq, Structural)]
pub struct Span {
    pub start: usize,
    pub end: usize,
}

impl Span {
    pub fn new(start: usize, end: usize) -> (s: Span)
        ensures
            s == (Span { start, end }),
    {
        Self { start, end }
    }
}

/// A token: its class together with the span of input characters it covers.
#[derive(Debug, PartialEq, Eq, Structural, Clone, Copy)]
pub struct Token {
    pub kind: TokenKind,
    pub span: Span,
}

impl Token {
    pub fn new(kind: TokenKind, span: Span) -> (t: Token)
        ensures
            t == (Token { kind, span }),
    {
        Self { kind, span }
    }
}

} // verus!
