//! The parser: consumes the token list once, left to right, and produces
//! one [`Node`] per top-level comma-separated item: a resolved signed
//! integer literal, an arithmetic sub-expression reduced to postfix
//! (shunting-yard) form, or a range expression.
//!
//! The whole grammar is specified by the recursive function
//! [`parse_items`] over spec-level node values ([`NodeV`], [`BoundV`]);
//! the executable [`Parser::parse`] is proved to return exactly its value.

use crate::errors::{clone_chars, ParseErrKind, ParserError};
use crate::tokens::{spec_associativity, spec_precedence, Op, Span, Token, TokenKind, LEFT_ASSOC};
use vstd::prelude::*;

verus! {

/// Maximum allowed nesting depth of parentheses inside one arithmetic
/// expression; exceeding it is reported rather than recursed into.
pub const MAX_PAREN_DEPTH: usize = 69;

/// An AST node: a fully resolved signed integer, an arithmetic expression
/// reduced to postfix (RPN) order, or a range with optional step and
/// per-element mutation.  Range bounds and steps are themselves `Int` or
/// `MathExpr` nodes; a mutation is always a `MathExpr` whose RPN may
/// contain the `RngMutArg` (`@`) placeholder for the element value.
#[derive(Debug, PartialEq)]
pub enum Node {
    Int { span: Span, value: i64 },
    MathExpr { span: Span, rpn: Vec<Token> },
    RangeExpr {
        span: Span,
        start: Box<Node>,
        end: Box<Node>,
        inclusive: bool,
        step: Option<Box<Node>>,
        mutation: Option<Box<Node>>,
    },
}

/// Spec-level value of a range bound, step or mutation: a resolved
/// integer or a postfix token sequence.
pub enum BoundV {
    Int { span: Span, value: i64 },
    Math { span: Span, rpn: Seq<Token> },
}

/// Spec-level value of an AST node.
pub enum NodeV {
    Int { span: Span, value: i64 },
    Math { span: Span, rpn: Seq<Token> },
    Range {
        span: Span,
        start: BoundV,
        end: BoundV,
        inclusive: bool,
        step: Option<BoundV>,
        mutation: Option<BoundV>,
    },
}

impl Node {
    /// Nodes standing where a bound may stand are `Int` or `MathExpr`;
    /// a nested range is mapped to a placeholder (ruled out by `wf`).
    pub open spec fn bound_view(self) -> BoundV {
        match self {
            Node::Int { span, value } => BoundV::Int { span, value },
            Node::MathExpr { span, rpn } => BoundV::Math { span, rpn: rpn@ },
            Node::RangeExpr { span, .. } => BoundV::Int { span, value: 0 },
        }
    }

    /// Structural well-formedness: range bounds and steps are `Int` or
    /// `MathExpr` nodes and a mutation is a `MathExpr` node, as the parser
    /// guarantees.
    pub open spec fn wf(self) -> bool {
        match self {
            Node::Int { .. } => true,
            Node::MathExpr { .. } => true,
            Node::RangeExpr { start, end, step, mutation, .. } => {
                &&& !((*start) is RangeExpr)
                &&& !((*end) is RangeExpr)
                &&& (step matches Some(b) ==> !((*b) is RangeExpr))
                &&& (mutation matches Some(b) ==> (*b) is MathExpr)
            },
        }
    }
}

impl View for Node {
    type V = NodeV;

    open spec fn view(&self) -> NodeV {
        match *self {
            Node::Int { span, value } => NodeV::Int { span, value },
            Node::MathExpr { span, rpn } => NodeV::Math { span, rpn: rpn@ },
            Node::RangeExpr { span, start, end, inclusive, step, mutation } => NodeV::Range {
                span,
                start: (*start).bound_view(),
                end: (*end).bound_view(),
                inclusive,
                step: opt_box_view(step),
                mutation: opt_box_view(mutation),
            },
        }
    }
}

/// A bound standing alone as a top-level item.
pub open spec fn bound_to_node(b: BoundV) -> NodeV {
    match b {
        BoundV::Int { span, value } => NodeV::Int { span, value },
        BoundV::Math { span, rpn } => NodeV::Math { span, rpn },
    }
}

/// Negation on `i64` values; only `i64::MIN` is its own negation.
pub open spec fn neg64(v: i64) -> i64 {
    if v == i64::MIN {
        i64::MIN
    } else {
        (-v) as i64
    }
}

/// First index at or after `i` whose token is not a `+`/`-` sign.
pub open spec fn int_run_end(toks: Seq<Token>, i: int) -> int
    decreases toks.len() - i,
        when 0 <= i <= toks.len()
{
    if i >= toks.len() {
        i
    } else if toks[i].kind == TokenKind::Math(Op::Add) || toks[i].kind == TokenKind::Math(Op::Sub) {
        int_run_end(toks, i + 1)
    } else {
        i
    }
}

/// Number of `-` signs among tokens `i..j`.
pub open spec fn minus_count(toks: Seq<Token>, i: int, j: int) -> int
    decreases j - i,
        when i <= j
{
    if i >= j {
        0
    } else {
        (if toks[i].kind == TokenKind::Math(Op::Sub) {
            1int
        } else {
            0int
        }) + minus_count(toks, i + 1, j)
    }
}

/// A signed integer literal at token index `i`: a run of leading `+`/`-`
/// signs followed by an `Int` token; the sign is the parity of the `-`
/// count.  A run followed by end of input is incomplete (reported at the
/// last sign); a run followed by any other token kind is invalid
/// (reported at that token).
pub open spec fn parse_signed_int(toks: Seq<Token>, i: int) -> Result<
    (BoundV, int),
    (ParseErrKind, Span),
> {
    let j = int_run_end(toks, i);
    if j >= toks.len() {
        Err((ParseErrKind::IncompleteInt, toks[j - 1].span))
    } else {
        match toks[j].kind {
            TokenKind::Int { value } => {
                let v = if minus_count(toks, i, j) % 2 == 1 {
                    neg64(value)
                } else {
                    value
                };
                Ok(
                    (
                        BoundV::Int {
                            span: Span { start: toks[i].span.start, end: toks[j].span.end },
                            value: v,
                        },
                        j + 1,
                    ),
                )
            },
            _ => Err((ParseErrKind::InvalidInt, toks[j].span)),
        }
    }
}

/// Pre-scan for structurally unmatched parentheses over the token region
/// beginning at `i`, stopping at the first token that cannot be part of an
/// arithmetic expression.  Returns the span of the first unmatched paren:
/// an excess `)` is reported at its own position; a leftover `(` once the
/// scan is exhausted is reported at the earliest one.
pub open spec fn paren_prescan(toks: Seq<Token>, i: int, stack: Seq<Span>) -> Option<Span>
    decreases toks.len() - i,
        when 0 <= i <= toks.len()
{
    if i >= toks.len() {
        if stack.len() > 0 {
            Some(stack[0])
        } else {
            None
        }
    } else {
        match toks[i].kind {
            TokenKind::LParen => paren_prescan(toks, i + 1, stack.push(toks[i].span)),
            TokenKind::RParen => if stack.len() == 0 {
                Some(toks[i].span)
            } else {
                paren_prescan(toks, i + 1, stack.drop_last())
            },
            TokenKind::Math(_) => paren_prescan(toks, i + 1, stack),
            TokenKind::Int { .. } => paren_prescan(toks, i + 1, stack),
            _ => if stack.len() > 0 {
                Some(stack[0])
            } else {
                None
            },
        }
    }
}

/// Pop operators with higher precedence (or equal, for a left-associative
/// incoming operator) from the operator stack onto the output queue.
pub open spec fn pop_higher(out: Seq<Token>, ops: Seq<Token>, op: Op) -> (Seq<Token>, Seq<Token>)
    decreases ops.len(),
{
    if ops.len() == 0 {
        (out, ops)
    } else {
        let top = ops.last();
        match top.kind {
            TokenKind::Math(top_op) => {
                if spec_precedence(top_op) > spec_precedence(op) || (spec_precedence(top_op)
                    == spec_precedence(op) && spec_associativity(op) == LEFT_ASSOC) {
                    pop_higher(out.push(top), ops.drop_last(), op)
                } else {
                    (out, ops)
                }
            },
            _ => (out, ops),
        }
    }
}

/// Pop operators onto the output queue until the matching `(` marker.
pub open spec fn pop_to_lparen(out: Seq<Token>, ops: Seq<Token>) -> (Seq<Token>, Seq<Token>)
    decreases ops.len(),
{
    if ops.len() == 0 {
        (out, ops)
    } else if ops.last().kind == TokenKind::LParen {
        (out, ops.drop_last())
    } else {
        pop_to_lparen(out.push(ops.last()), ops.drop_last())
    }
}

/// Pop all remaining operators at the end of an unparenthesized
/// expression; a leftover `(` marker is an unmatched paren.
pub open spec fn flush_ops(out: Seq<Token>, ops: Seq<Token>) -> Result<
    Seq<Token>,
    (ParseErrKind, Span),
>
    decreases ops.len(),
{
    if ops.len() == 0 {
        Ok(out)
    } else if ops.last().kind == TokenKind::LParen {
        Err((ParseErrKind::UnmatchedParen, ops.last().span))
    } else {
        flush_ops(out.push(ops.last()), ops.drop_last())
    }
}

/// One shunting-yard reduction to postfix form, specified as a scan over
/// the tokens from index `i` with the classic two-stack state: `out` is
/// the output queue, `ops` the operator stack (holding `Math` tokens and
/// `(` markers), `depth` the current paren nesting, `expect_operand`
/// whether a number, unary sign or sub-expression is expected next,
/// `just_opened` whether the previous token was `(`.
///
/// `start_char`/`last_end` delimit the expression's span so far.  In
/// mutation mode (`in_mutation`) the `@` placeholder is a legal operand
/// and the expression ends, unconsumed, at a top-level `,` or `}` (or at
/// the end of input); otherwise the expression began with `(` and ends
/// when its matching `)` is consumed.
///
/// Errors follow the grammar: a binary operator where a number was
/// expected is `UnexpectedMathOp`; a non-operator where an operator was
/// expected is `InvalidMathOp`; any other token where an operand was
/// expected is `InvalidMathExpr`; `()` is `EmptyParen`; a dangling
/// operator at the end is `IncompleteMathExpr`; nesting deeper than
/// [`MAX_PAREN_DEPTH`] is `TooManyParen`.
pub open spec fn sy(
    toks: Seq<Token>,
    i: int,
    out: Seq<Token>,
    ops: Seq<Token>,
    depth: int,
    expect_operand: bool,
    just_opened: bool,
    start_char: usize,
    last_end: usize,
    in_mutation: bool,
) -> Result<(Seq<Token>, int, usize), (ParseErrKind, Span)>
    decreases toks.len() - i,
        when 0 <= i <= toks.len() via sy_decreases
{
    if i >= toks.len() {
        if in_mutation && depth == 0 && !expect_operand {
            match flush_ops(out, ops) {
                Ok(out2) => Ok((out2, i, last_end)),
                Err(e) => Err(e),
            }
        } else {
            Err((ParseErrKind::IncompleteMathExpr, Span { start: start_char, end: last_end }))
        }
    } else {
        let t = toks[i];
        match t.kind {
            TokenKind::LParen => {
                if !expect_operand {
                    Err((ParseErrKind::InvalidMathOp, t.span))
                } else if depth + 1 > MAX_PAREN_DEPTH {
                    Err((ParseErrKind::TooManyParen, Span { start: start_char, end: t.span.end }))
                } else {
                    sy(
                        toks,
                        i + 1,
                        out,
                        ops.push(t),
                        depth + 1,
                        true,
                        true,
                        start_char,
                        t.span.end,
                        in_mutation,
                    )
                }
            },
            TokenKind::RParen => {
                if depth == 0 {
                    Err((ParseErrKind::UnmatchedParen, t.span))
                } else if just_opened {
                    let open_span = if ops.len() > 0 && ops.last().kind == TokenKind::LParen {
                        ops.last().span
                    } else {
                        t.span
                    };
                    Err((ParseErrKind::EmptyParen, Span { start: open_span.start, end: t.span.end }))
                } else if expect_operand {
                    Err((ParseErrKind::IncompleteMathExpr, Span { start: start_char, end: t.span.end }))
                } else {
                    let popped = pop_to_lparen(out, ops);
                    if depth == 1 && !in_mutation {
                        Ok((popped.0, i + 1, t.span.end))
                    } else {
                        sy(
                            toks,
                            i + 1,
                            popped.0,
                            popped.1,
                            depth - 1,
                            false,
                            false,
                            start_char,
                            t.span.end,
                            in_mutation,
                        )
                    }
                }
            },
            TokenKind::Int { .. } => {
                if !expect_operand {
                    Err((ParseErrKind::InvalidMathOp, t.span))
                } else {
                    sy(
                        toks,
                        i + 1,
                        out.push(t),
                        ops,
                        depth,
                        false,
                        false,
                        start_char,
                        t.span.end,
                        in_mutation,
                    )
                }
            },
            TokenKind::RngMutArg => {
                if !in_mutation {
                    if expect_operand {
                        Err((ParseErrKind::InvalidMathExpr, t.span))
                    } else {
                        Err((ParseErrKind::InvalidMathOp, t.span))
                    }
                } else if !expect_operand {
                    Err((ParseErrKind::InvalidMathOp, t.span))
                } else {
                    sy(
                        toks,
                        i + 1,
                        out.push(t),
                        ops,
                        depth,
                        false,
                        false,
                        start_char,
                        t.span.end,
                        in_mutation,
                    )
                }
            },
            TokenKind::Math(op) => {
                if expect_operand {
                    if op == Op::Add || op == Op::Sub {
                        // A sign where an operand is expected starts a signed
                        // literal, unless the sign run ends at `(`, in which
                        // case each sign is a unary operator on the stack.
                        let j = int_run_end(toks, i);
                        if j >= toks.len() {
                            Err((ParseErrKind::IncompleteInt, toks[j - 1].span))
                        } else {
                            match toks[j].kind {
                                TokenKind::Int { value } => {
                                    let v = if minus_count(toks, i, j) % 2 == 1 {
                                        neg64(value)
                                    } else {
                                        value
                                    };
                                    let lit = Token {
                                        kind: TokenKind::Int { value: v },
                                        span: Span {
                                            start: toks[i].span.start,
                                            end: toks[j].span.end,
                                        },
                                    };
                                    sy(
                                        toks,
                                        j + 1,
                                        out.push(lit),
                                        ops,
                                        depth,
                                        false,
                                        false,
                                        start_char,
                                        toks[j].span.end,
                                        in_mutation,
                                    )
                                },
                                TokenKind::LParen => {
                                    let u = Token {
                                        kind: TokenKind::Math(
                                            if op == Op::Add {
                                                Op::UnaryAdd
                                            } else {
                                                Op::UnarySub
                                            },
                                        ),
                                        span: t.span,
                                    };
                                    sy(
                                        toks,
                                        i + 1,
                                        out,
                                        ops.push(u),
                                        depth,
                                        true,
                                        false,
                                        start_char,
                                        t.span.end,
                                        in_mutation,
                                    )
                                },
                                _ => Err((ParseErrKind::InvalidInt, toks[j].span)),
                            }
                        }
                    } else {
                        Err((ParseErrKind::UnexpectedMathOp, t.span))
                    }
                } else {
                    let popped = pop_higher(out, ops, op);
                    sy(
                        toks,
                        i + 1,
                        popped.0,
                        popped.1.push(t),
                        depth,
                        true,
                        false,
                        start_char,
                        t.span.end,
                        in_mutation,
                    )
                }
            },
            TokenKind::Comma => {
                if in_mutation && depth == 0 {
                    if expect_operand {
                        Err((ParseErrKind::IncompleteMathExpr, Span { start: start_char, end: last_end }))
                    } else {
                        match flush_ops(out, ops) {
                            Ok(out2) => Ok((out2, i, last_end)),
                            Err(e) => Err(e),
                        }
                    }
                } else if expect_operand {
                    Err((ParseErrKind::InvalidMathExpr, t.span))
                } else {
                    Err((ParseErrKind::InvalidMathOp, t.span))
                }
            },
            TokenKind::RSquiggly => {
                if in_mutation && depth == 0 {
                    if expect_operand {
                        Err((ParseErrKind::IncompleteMathExpr, Span { start: start_char, end: last_end }))
                    } else {
                        match flush_ops(out, ops) {
                            Ok(out2) => Ok((out2, i, last_end)),
                            Err(e) => Err(e),
                        }
                    }
                } else if expect_operand {
                    Err((ParseErrKind::InvalidMathExpr, t.span))
                } else {
                    Err((ParseErrKind::InvalidMathOp, t.span))
                }
            },
            _ => {
                if expect_operand {
                    Err((ParseErrKind::InvalidMathExpr, t.span))
                } else {
                    Err((ParseErrKind::InvalidMathOp, t.span))
                }
            },
        }
    }
}

#[via_fn]
proof fn sy_decreases(
    toks: Seq<Token>,
    i: int,
    out: Seq<Token>,
    ops: Seq<Token>,
    depth: int,
    expect_operand: bool,
    just_opened: bool,
    start_char: usize,
    last_end: usize,
    in_mutation: bool,
) {
    if 0 <= i <= toks.len() {
        lemma_int_run_end_bounds(toks, i);
    }
}

/// A parenthesized arithmetic sub-expression at token index `i` (whose
/// token is `(`): first the unmatched-paren pre-scan over the remaining
/// region, then the shunting-yard reduction.
pub open spec fn parse_math_expr(toks: Seq<Token>, i: int) -> Result<
    (BoundV, int),
    (ParseErrKind, Span),
> {
    match paren_prescan(toks, i, Seq::empty()) {
        Some(sp) => Err((ParseErrKind::UnmatchedParen, sp)),
        None => match sy(
            toks,
            i,
            Seq::empty(),
            Seq::empty(),
            0,
            true,
            false,
            toks[i].span.start,
            toks[i].span.end,
            false,
        ) {
            Ok((rpn, next, end)) => Ok(
                (BoundV::Math { span: Span { start: toks[i].span.start, end }, rpn }, next),
            ),
            Err(e) => Err(e),
        },
    }
}

/// A mutation expression after an `m:` marker.  If it begins with an
/// operator, the range element is the implicit left operand (an `@`
/// placeholder is prepended to the output); inside, `@` may be used as an
/// operand denoting the element.  The expression ends, unconsumed, at a
/// top-level `,` or `}`.
pub open spec fn parse_mutation(toks: Seq<Token>, i: int, marker: Token) -> Result<
    (BoundV, int),
    (ParseErrKind, Span),
> {
    if i < toks.len() && toks[i].kind matches TokenKind::Math(_) {
        let sc = toks[i].span.start;
        match sy(
            toks,
            i,
            seq![Token { kind: TokenKind::RngMutArg, span: toks[i].span }],
            Seq::empty(),
            0,
            false,
            false,
            sc,
            toks[i].span.end,
            true,
        ) {
            Ok((rpn, next, end)) => Ok((BoundV::Math { span: Span { start: sc, end }, rpn }, next)),
            Err(e) => Err(e),
        }
    } else {
        let sc = if i < toks.len() {
            toks[i].span.start
        } else {
            marker.span.start
        };
        match sy(toks, i, Seq::empty(), Seq::empty(), 0, true, false, sc, marker.span.end, true) {
            Ok((rpn, next, end)) => Ok((BoundV::Math { span: Span { start: sc, end }, rpn }, next)),
            Err(e) => Err(e),
        }
    }
}

/// A range bound or step value at token index `i`: a signed integer
/// literal or a parenthesized arithmetic expression.  `prev` is the span
/// of the token that demanded the bound, used when the input ends first.
pub open spec fn parse_bound(toks: Seq<Token>, i: int, prev: Span) -> Result<
    (BoundV, int),
    (ParseErrKind, Span),
> {
    if i >= toks.len() {
        Err((ParseErrKind::IncompleteMathExpr, prev))
    } else if toks[i].kind == TokenKind::LParen {
        parse_math_expr(toks, i)
    } else {
        parse_signed_int(toks, i)
    }
}

/// The range arguments after `{start..end`: zero or more of `, s:<value>`
/// and `, m:<expression>`, in either order, each at most once, then `}`.
/// A duplicate argument, an unknown argument, or anything else where `}`
/// or `,` was expected is `InvalidMathExpr`; running out of tokens before
/// the closing `}` is `IncompleteMathExpr` over the whole range so far.
pub open spec fn parse_range_args(
    toks: Seq<Token>,
    i: int,
    bstart: usize,
    startb: BoundV,
    endb: BoundV,
    incl: bool,
    step: Option<BoundV>,
    mutation: Option<BoundV>,
) -> Result<(NodeV, int), (ParseErrKind, Span)>
    decreases toks.len() - i,
        when 0 <= i <= toks.len()
{
    if i >= toks.len() {
        Err(
            (
                ParseErrKind::IncompleteMathExpr,
                Span { start: bstart, end: toks[toks.len() - 1].span.end },
            ),
        )
    } else if toks[i].kind == TokenKind::RSquiggly {
        Ok(
            (
                NodeV::Range {
                    span: Span { start: bstart, end: toks[i].span.end },
                    start: startb,
                    end: endb,
                    inclusive: incl,
                    step,
                    mutation,
                },
                i + 1,
            ),
        )
    } else if toks[i].kind == TokenKind::Comma {
        let a = i + 1;
        if a >= toks.len() {
            Err(
                (
                    ParseErrKind::IncompleteMathExpr,
                    Span { start: bstart, end: toks[i].span.end },
                ),
            )
        } else if toks[a].kind == TokenKind::RngStep {
            if step is Some {
                Err((ParseErrKind::InvalidMathExpr, toks[a].span))
            } else {
                match parse_bound(toks, a + 1, toks[a].span) {
                    Ok((sb, k)) => if a + 1 < k <= toks.len() {
                        parse_range_args(toks, k, bstart, startb, endb, incl, Some(sb), mutation)
                    } else {
                        Err((ParseErrKind::InvalidMathExpr, toks[a].span))
                    },
                    Err(e) => Err(e),
                }
            }
        } else if toks[a].kind == TokenKind::RngMutation {
            if mutation is Some {
                Err((ParseErrKind::InvalidMathExpr, toks[a].span))
            } else {
                match parse_mutation(toks, a + 1, toks[a]) {
                    Ok((mb, k)) => if a + 1 < k <= toks.len() {
                        parse_range_args(toks, k, bstart, startb, endb, incl, step, Some(mb))
                    } else {
                        Err((ParseErrKind::InvalidMathExpr, toks[a].span))
                    },
                    Err(e) => Err(e),
                }
            }
        } else {
            Err((ParseErrKind::InvalidMathExpr, toks[a].span))
        }
    } else {
        Err((ParseErrKind::InvalidMathExpr, toks[i].span))
    }
}

/// A brace-delimited range expression at token index `i` (whose token is
/// `{`): a start bound, the range-direction token (`..` or `..=`, making
/// the end exclusive or inclusive), an end bound, then the optional
/// arguments and the closing `}`.
pub open spec fn parse_range(toks: Seq<Token>, i: int) -> Result<
    (NodeV, int),
    (ParseErrKind, Span),
> {
    let bstart = toks[i].span.start;
    match parse_bound(toks, i + 1, toks[i].span) {
        Err(e) => Err(e),
        Ok((startb, j)) => {
            if j >= toks.len() {
                Err(
                    (
                        ParseErrKind::IncompleteMathExpr,
                        Span { start: bstart, end: toks[toks.len() - 1].span.end },
                    ),
                )
            } else if toks[j].kind == TokenKind::RngInclusive || toks[j].kind
                == TokenKind::RngExclusive {
                let incl = toks[j].kind == TokenKind::RngInclusive;
                match parse_bound(toks, j + 1, toks[j].span) {
                    Err(e) => Err(e),
                    Ok((endb, k)) => parse_range_args(
                        toks,
                        k,
                        bstart,
                        startb,
                        endb,
                        incl,
                        None,
                        None,
                    ),
                }
            } else {
                Err((ParseErrKind::InvalidMathExpr, toks[j].span))
            }
        },
    }
}

/// One top-level item at token index `i` (with `i` in range): a signed
/// integer literal, a parenthesized arithmetic expression, or a range.
/// A leading comma is `UnexpectedComma`; a leading binary operator other
/// than a sign is `UnexpectedMathOp`; any other token that cannot begin
/// an item is `InvalidMathExpr`.
pub open spec fn parse_item(toks: Seq<Token>, i: int) -> Result<
    (NodeV, int),
    (ParseErrKind, Span),
> {
    match toks[i].kind {
        TokenKind::Int { .. } => match parse_signed_int(toks, i) {
            Ok((b, j)) => Ok((bound_to_node(b), j)),
            Err(e) => Err(e),
        },
        TokenKind::Math(op) => {
            if op == Op::Add || op == Op::Sub {
                match parse_signed_int(toks, i) {
                    Ok((b, j)) => Ok((bound_to_node(b), j)),
                    Err(e) => Err(e),
                }
            } else {
                Err((ParseErrKind::UnexpectedMathOp, toks[i].span))
            }
        },
        TokenKind::Comma => Err((ParseErrKind::UnexpectedComma, toks[i].span)),
        TokenKind::LParen => match parse_math_expr(toks, i) {
            Ok((b, j)) => Ok((bound_to_node(b), j)),
            Err(e) => Err(e),
        },
        TokenKind::LSquiggly => parse_range(toks, i),
        _ => Err((ParseErrKind::InvalidMathExpr, toks[i].span)),
    }
}

/// Prepend one node to a parsing outcome.
pub open spec fn node_cons(n: NodeV, r: Result<Seq<NodeV>, (ParseErrKind, Span)>) -> Result<
    Seq<NodeV>,
    (ParseErrKind, Span),
> {
    match r {
        Ok(ns) => Ok(seq![n] + ns),
        Err(e) => Err(e),
    }
}

/// Prepend already-parsed nodes to a parsing outcome.
pub open spec fn node_join(pre: Seq<NodeV>, r: Result<Seq<NodeV>, (ParseErrKind, Span)>) -> Result<
    Seq<NodeV>,
    (ParseErrKind, Span),
> {
    match r {
        Ok(ns) => Ok(pre + ns),
        Err(e) => Err(e),
    }
}

/// The parser, specified: one node per top-level comma-separated item
/// from token index `i` on.  After an item, at most one comma may follow
/// before the next item; a doubled comma is reported at the second one, a
/// trailing comma at itself, and a comma at the very start at itself.
pub open spec fn parse_items(toks: Seq<Token>, i: int) -> Result<
    Seq<NodeV>,
    (ParseErrKind, Span),
>
    decreases toks.len() - i,
        when 0 <= i <= toks.len()
{
    if i >= toks.len() {
        Ok(Seq::empty())
    } else {
        match parse_item(toks, i) {
            Err(e) => Err(e),
            Ok((node, j)) => {
                if j < toks.len() && toks[j].kind == TokenKind::Comma {
                    if j + 1 >= toks.len() {
                        Err((ParseErrKind::UnexpectedComma, toks[j].span))
                    } else if toks[j + 1].kind == TokenKind::Comma {
                        Err((ParseErrKind::UnexpectedComma, toks[j + 1].span))
                    } else if i < j + 1 <= toks.len() {
                        node_cons(node, parse_items(toks, j + 1))
                    } else {
                        Err((ParseErrKind::InvalidMathExpr, toks[i].span))
                    }
                } else {
                    if i < j <= toks.len() {
                        node_cons(node, parse_items(toks, j))
                    } else {
                        Err((ParseErrKind::InvalidMathExpr, toks[i].span))
                    }
                }
            },
        }
    }
}

/// The views of an optional bound node.
pub open spec fn opt_bound_view(o: Option<Node>) -> Option<BoundV> {
    match o {
        Some(n) => Some(n.bound_view()),
        None => None,
    }
}

/// The spec-level views of a node list.
pub open spec fn views_of(nodes: Seq<Node>) -> Seq<NodeV> {
    nodes.map_values(|n: Node| n@)
}

proof fn lemma_views_of_push(nodes: Seq<Node>, n: Node)
    ensures
        views_of(nodes.push(n)) == views_of(nodes).push(n@),
{
    assert(views_of(nodes.push(n)) =~= views_of(nodes).push(n@));
}

/// Associativity of appending one node view to a parsing outcome.
proof fn lemma_node_join_push(
    pre: Seq<NodeV>,
    n: NodeV,
    r: Result<Seq<NodeV>, (ParseErrKind, Span)>,
)
    ensures
        node_join(pre.push(n), r) == node_join(pre, node_cons(n, r)),
{
    match r {
        Ok(ns) => {
            assert(pre.push(n) + ns =~= pre + (seq![n] + ns));
        },
        Err(_) => {},
    }
}

/// Extending the scanned region by one token adds that token's sign.
proof fn lemma_minus_count_snoc(toks: Seq<Token>, i: int, j: int)
    requires
        i <= j < toks.len(),
    ensures
        minus_count(toks, i, j + 1) == minus_count(toks, i, j) + (
        if toks[j].kind == TokenKind::Math(Op::Sub) {
            1int
        } else {
            0int
        }),
    decreases j - i,
{
    if i < j {
        lemma_minus_count_snoc(toks, i + 1, j);
    } else {
        assert(minus_count(toks, j + 1, j + 1) == 0);
    }
}

/// True when the token at `i` (if any) still belongs to a sign run.
fn sign_run_continues(tokens: &Vec<Token>, i: usize) -> (b: bool)
    ensures
        b == (i < tokens@.len() && (tokens@[i as int].kind == TokenKind::Math(Op::Add)
            || tokens@[i as int].kind == TokenKind::Math(Op::Sub))),
{
    if i < tokens.len() {
        match tokens[i].kind {
            TokenKind::Math(Op::Add) => true,
            TokenKind::Math(Op::Sub) => true,
            _ => false,
        }
    } else {
        false
    }
}

/// True when the operator stack's top must be popped before pushing `op`.
fn should_pop(ops: &Vec<Token>, op: Op) -> (b: bool)
    ensures
        b == (ops@.len() > 0 && match ops@.last().kind {
            TokenKind::Math(top_op) => spec_precedence(top_op) > spec_precedence(op) || (
            spec_precedence(top_op) == spec_precedence(op) && spec_associativity(op) == LEFT_ASSOC),
            _ => false,
        }),
{
    if ops.len() > 0 {
        match ops[ops.len() - 1].kind {
            TokenKind::Math(top_op) => {
                let tp = top_op.precedence();
                let p = op.precedence();
                tp > p || (tp == p && op.associativity() == LEFT_ASSOC)
            },
            _ => false,
        }
    } else {
        false
    }
}

/// True when the operator stack still has entries above a `(` marker.
fn top_not_lparen(ops: &Vec<Token>) -> (b: bool)
    ensures
        b == (ops@.len() > 0 && ops@.last().kind != TokenKind::LParen),
{
    if ops.len() > 0 {
        match ops[ops.len() - 1].kind {
            TokenKind::LParen => false,
            _ => true,
        }
    } else {
        false
    }
}

/// The views of an optional boxed bound node.
pub open spec fn opt_box_view(o: Option<Box<Node>>) -> Option<BoundV> {
    match o {
        Some(b) => Some((*b).bound_view()),
        None => None,
    }
}

/// Box the payload of an optional node.
fn box_opt(o: Option<Node>) -> (r: Option<Box<Node>>)
    ensures
        opt_box_view(r) == opt_bound_view(o),
        (r is Some) == (o is Some),
        r matches Some(b) ==> o matches Some(nn) && *b == nn,
{
    match o {
        Some(nn) => Some(Box::new(nn)),
        None => None,
    }
}

/// Pop operators with higher precedence (or equal, for a left-associative
/// incoming operator) from the operator stack onto the output queue.
fn run_pop_higher(out: &mut Vec<Token>, ops: &mut Vec<Token>, op: Op)
    ensures
        (final(out)@, final(ops)@) == pop_higher(old(out)@, old(ops)@, op),
{
    while should_pop(ops, op)
        invariant
            pop_higher(old(out)@, old(ops)@, op) == pop_higher(out@, ops@, op),
        decreases ops@.len(),
    {
        let t = ops[ops.len() - 1];
        let _ = ops.pop();
        out.push(t);
    }
    proof {
        assert(pop_higher(out@, ops@, op) == (out@, ops@));
    }
}

/// Pop operators onto the output queue until the matching `(` marker,
/// dropping the marker itself.
fn run_pop_to_lparen(out: &mut Vec<Token>, ops: &mut Vec<Token>)
    ensures
        (final(out)@, final(ops)@) == pop_to_lparen(old(out)@, old(ops)@),
{
    while top_not_lparen(ops)
        invariant
            pop_to_lparen(old(out)@, old(ops)@) == pop_to_lparen(out@, ops@),
        decreases ops@.len(),
    {
        let t = ops[ops.len() - 1];
        let _ = ops.pop();
        out.push(t);
    }
    if ops.len() > 0 {
        proof {
            assert(pop_to_lparen(out@, ops@) == (out@, ops@.drop_last()));
        }
        let _ = ops.pop();
    } else {
        proof {
            assert(pop_to_lparen(out@, ops@) == (out@, ops@));
        }
    }
}

/// Pop all remaining operators at the end of an unparenthesized
/// expression, reporting a leftover `(` marker as unmatched.
fn run_flush(out: &mut Vec<Token>, ops: &mut Vec<Token>) -> (r: Option<Span>)
    ensures
        match flush_ops(old(out)@, old(ops)@) {
            Ok(o2) => r is None && final(out)@ == o2,
            Err((k, sp)) => r == Some(sp) && k == ParseErrKind::UnmatchedParen,
        },
{
    while top_not_lparen(ops)
        invariant
            flush_ops(old(out)@, old(ops)@) == flush_ops(out@, ops@),
        decreases ops@.len(),
    {
        let t = ops[ops.len() - 1];
        let _ = ops.pop();
        out.push(t);
    }
    if ops.len() > 0 {
        proof {
            assert(flush_ops(out@, ops@) == Err::<Seq<Token>, (ParseErrKind, Span)>(
                (ParseErrKind::UnmatchedParen, ops@.last().span),
            ));
        }
        Some(ops[ops.len() - 1].span)
    } else {
        proof {
            assert(flush_ops(out@, ops@) == Ok::<Seq<Token>, (ParseErrKind, Span)>(out@));
        }
        None
    }
}

/// The parser's state: the input characters (carried into every error),
/// the token list from the lexer over the same text, and the index of the
/// next token.
#[derive(Debug)]
pub struct Parser {
    pub input_chars: Vec<char>,
    pub tokens: Vec<Token>,
    pub position: usize,
}

impl Parser {
    /// A fresh parser over `input_chars` and the token list the lexer
    /// produced from them.
    pub fn new(input_chars: Vec<char>, tokens: &[Token]) -> (p: Parser)
        ensures
            p.input_chars@ == input_chars@,
            p.tokens@ == tokens@,
            p.position == 0,
    {
        let owned = vstd::slice::slice_to_vec(tokens);
        Parser { input_chars, tokens: owned, position: 0 }
    }

    /// Build an error value of the given kind, carrying the full input.
    fn err(&self, kind: ParseErrKind, span: Span) -> (e: ParserError)
        ensures
            e.parts() == (self.input_chars@, kind, span),
    {
        let chars = clone_chars(&self.input_chars);
        match kind {
            ParseErrKind::EmptyParen => ParserError::EmptyParen(chars, span),
            ParseErrKind::IncompleteInt => ParserError::IncompleteInt(chars, span),
            ParseErrKind::IncompleteMathExpr => ParserError::IncompleteMathExpr(chars, span),
            ParseErrKind::InvalidInt => ParserError::InvalidInt(chars, span),
            ParseErrKind::InvalidMathOp => ParserError::InvalidMathOp(chars, span),
            ParseErrKind::InvalidMathExpr => ParserError::InvalidMathExpr(chars, span),
            ParseErrKind::UnmatchedParen => ParserError::UnmatchedParen(chars, span),
            ParseErrKind::UnexpectedComma => ParserError::UnexpectedComma(chars, span),
            ParseErrKind::UnexpectedMathOp => ParserError::UnexpectedMathOp(chars, span),
            ParseErrKind::TooManyParen => ParserError::TooManyParen(chars, span),
        }
    }

    /// Scan a signed integer literal at token index `i`.
    fn parser_int(&self, i: usize) -> (r: Result<(Node, usize), ParserError>)
        requires
            i < self.tokens@.len(),
        ensures
            match r {
                Ok((n, j)) => parse_signed_int(self.tokens@, i as int) == Ok::<
                    (BoundV, int),
                    (ParseErrKind, Span),
                >((n.bound_view(), j as int)) && n is Int && i < j <= self.tokens@.len(),
                Err(e) => parse_signed_int(self.tokens@, i as int) == Err::<
                    (BoundV, int),
                    (ParseErrKind, Span),
                >((e.parts().1, e.parts().2)) && e.parts().0 == self.input_chars@,
            },
    {
        let ghost toks = self.tokens@;
        let n = self.tokens.len();
        let mut j = i;
        let mut negative = false;
        while sign_run_continues(&self.tokens, j)
            invariant
                self.tokens@ == toks,
                n == toks.len(),
                i <= j <= toks.len(),
                i < toks.len(),
                int_run_end(toks, i as int) == int_run_end(toks, j as int),
                negative == (minus_count(toks, i as int, j as int) % 2 == 1),
            decreases toks.len() - j,
        {
            proof {
                lemma_minus_count_snoc(toks, i as int, j as int);
                assert(int_run_end(toks, j as int) == int_run_end(toks, j + 1));
            }
            match self.tokens[j].kind {
                TokenKind::Math(Op::Sub) => {
                    negative = !negative;
                },
                _ => {},
            }
            j += 1;
        }
        assert(int_run_end(toks, i as int) == j as int);
        if j == self.tokens.len() {
            return Err(self.err(ParseErrKind::IncompleteInt, self.tokens[j - 1].span));
        }
        let t = self.tokens[j];
        match t.kind {
            TokenKind::Int { value } => {
                let v = if negative {
                    if value == i64::MIN {
                        i64::MIN
                    } else {
                        -value
                    }
                } else {
                    value
                };
                let span = Span::new(self.tokens[i].span.start, t.span.end);
                Ok((Node::Int { span, value: v }, j + 1))
            },
            _ => Err(self.err(ParseErrKind::InvalidInt, t.span)),
        }
    }

    /// Pre-scan the token region from `i` for unmatched parentheses.
    fn check_unmatched_paren(&self, i: usize) -> (r: Option<Span>)
        requires
            i <= self.tokens@.len(),
        ensures
            r == paren_prescan(self.tokens@, i as int, Seq::<Span>::empty()),
    {
        let ghost toks = self.tokens@;
        let mut stack: Vec<Span> = Vec::new();
        let mut k = i;
        while k < self.tokens.len()
            invariant
                self.tokens@ == toks,
                i <= k <= toks.len(),
                paren_prescan(toks, i as int, Seq::<Span>::empty()) == paren_prescan(
                    toks,
                    k as int,
                    stack@,
                ),
            decreases toks.len() - k,
        {
            let t = self.tokens[k];
            match t.kind {
                TokenKind::LParen => {
                    stack.push(t.span);
                },
                TokenKind::RParen => {
                    if stack.len() == 0 {
                        return Some(t.span);
                    }
                    stack.pop();
                },
                TokenKind::Math(_) => {},
                TokenKind::Int { .. } => {},
                _ => {
                    if stack.len() > 0 {
                        return Some(stack[0]);
                    }
                    return None;
                },
            }
            k += 1;
        }
        if stack.len() > 0 {
            return Some(stack[0]);
        }
        None
    }

    /// Run the shunting-yard reduction from token index `i` with initial
    /// output queue `out_init`, operand-expectation `expect0` and
    /// expression span `start_char..last_end0`; see [`sy`].
    fn infix_to_postfix(
        &self,
        i: usize,
        out_init: &Vec<Token>,
        expect0: bool,
        start_char: usize,
        last_end0: usize,
        in_mutation: bool,
    ) -> (r: Result<(Vec<Token>, usize, usize), ParserError>)
        requires
            i <= self.tokens@.len(),
            !expect0 ==> i < self.tokens@.len() && self.tokens@[i as int].kind matches
                TokenKind::Math(_),
        ensures
            ({
                let spec_r = sy(
                    self.tokens@,
                    i as int,
                    out_init@,
                    Seq::<Token>::empty(),
                    0,
                    expect0,
                    false,
                    start_char,
                    last_end0,
                    in_mutation,
                );
                match r {
                    Ok((rpn, next, end)) => spec_r == Ok::<
                        (Seq<Token>, int, usize),
                        (ParseErrKind, Span),
                    >((rpn@, next as int, end)) && next <= self.tokens@.len() && (i
                        < self.tokens@.len() ==> next > i),
                    Err(e) => spec_r == Err::<(Seq<Token>, int, usize), (ParseErrKind, Span)>(
                        (e.parts().1, e.parts().2),
                    ) && e.parts().0 == self.input_chars@,
                }
            }),
    {
        let ghost toks = self.tokens@;
        let ghost out0 = out_init@;
        let ghost target = sy(
            toks,
            i as int,
            out0,
            Seq::<Token>::empty(),
            0,
            expect0,
            false,
            start_char,
            last_end0,
            in_mutation,
        );
        let n = self.tokens.len();
        let mut out = clone_tokens(out_init);
        let mut ops: Vec<Token> = Vec::new();
        let mut k = i;
        let mut depth: usize = 0;
        let mut expect = expect0;
        let mut just_opened = false;
        let mut last_end = last_end0;
        loop
            invariant
                self.tokens@ == toks,
                n == toks.len(),
                i <= k <= toks.len(),
                depth <= MAX_PAREN_DEPTH,
                k == i ==> (out@ == out0 && ops@.len() == 0 && depth == 0 && expect == expect0
                    && !just_opened),
                !expect0 ==> i < toks.len() && toks[i as int].kind matches TokenKind::Math(_),
                out0 == out_init@,
                target == sy(
                    toks,
                    i as int,
                    out0,
                    Seq::<Token>::empty(),
                    0,
                    expect0,
                    false,
                    start_char,
                    last_end0,
                    in_mutation,
                ),
                target == sy(
                    toks,
                    k as int,
                    out@,
                    ops@,
                    depth as int,
                    expect,
                    just_opened,
                    start_char,
                    last_end,
                    in_mutation,
                ),
            decreases toks.len() - k,
        {
            let ghost g_k = k as int;
            let ghost g_out = out@;
            let ghost g_ops = ops@;
            let ghost g_depth = depth as int;
            let ghost g_expect = expect;
            let ghost g_jo = just_opened;
            let ghost g_le = last_end;
            let ghost sy_prev = sy(
                toks,
                g_k,
                g_out,
                g_ops,
                g_depth,
                g_expect,
                g_jo,
                start_char,
                g_le,
                in_mutation,
            );
            if k == n {
                if in_mutation && depth == 0 && !expect {
                    proof {
                        assert(sy_prev == (match flush_ops(g_out, g_ops) {
                            Ok(o2) => Ok::<(Seq<Token>, int, usize), (ParseErrKind, Span)>(
                                (o2, g_k, g_le),
                            ),
                            Err(e) => Err(e),
                        }));
                    }
                    let flush_r = run_flush(&mut out, &mut ops);
                    match flush_r {
                        Some(sp) => {
                            return Err(self.err(ParseErrKind::UnmatchedParen, sp));
                        },
                        None => {
                            return Ok((out, k, last_end));
                        },
                    }
                }
                proof {
                    assert(sy_prev == Err::<(Seq<Token>, int, usize), (ParseErrKind, Span)>(
                        (
                            ParseErrKind::IncompleteMathExpr,
                            Span { start: start_char, end: g_le },
                        ),
                    ));
                }
                return Err(self.err(
                    ParseErrKind::IncompleteMathExpr,
                    Span::new(start_char, last_end),
                ));
            }
            let t = self.tokens[k];
            match t.kind {
                TokenKind::LParen => {
                    if !expect {
                        proof {
                            assert(sy_prev == Err::<
                                (Seq<Token>, int, usize),
                                (ParseErrKind, Span),
                            >((ParseErrKind::InvalidMathOp, t.span)));
                        }
                        return Err(self.err(ParseErrKind::InvalidMathOp, t.span));
                    }
                    if depth >= MAX_PAREN_DEPTH {
                        proof {
                            assert(sy_prev == Err::<
                                (Seq<Token>, int, usize),
                                (ParseErrKind, Span),
                            >((
                                ParseErrKind::TooManyParen,
                                Span { start: start_char, end: t.span.end },
                            )));
                        }
                        return Err(self.err(
                            ParseErrKind::TooManyParen,
                            Span::new(start_char, t.span.end),
                        ));
                    }
                    proof {
                        assert(sy_prev == sy(
                            toks,
                            g_k + 1,
                            g_out,
                            g_ops.push(t),
                            g_depth + 1,
                            true,
                            true,
                            start_char,
                            t.span.end,
                            in_mutation,
                        ));
                    }
                    ops.push(t);
                    depth += 1;
                    expect = true;
                    just_opened = true;
                    last_end = t.span.end;
                    k += 1;
                },
                TokenKind::RParen => {
                    if depth == 0 {
                        proof {
                            assert(sy_prev == Err::<
                                (Seq<Token>, int, usize),
                                (ParseErrKind, Span),
                            >((ParseErrKind::UnmatchedParen, t.span)));
                        }
                        return Err(self.err(ParseErrKind::UnmatchedParen, t.span));
                    }
                    if just_opened {
                        let open_span = if ops.len() > 0 && matches!(
                            ops[ops.len() - 1].kind,
                            TokenKind::LParen,
                        ) {
                            ops[ops.len() - 1].span
                        } else {
                            t.span
                        };
                        proof {
                            assert(sy_prev == Err::<
                                (Seq<Token>, int, usize),
                                (ParseErrKind, Span),
                            >((
                                ParseErrKind::EmptyParen,
                                Span { start: open_span.start, end: t.span.end },
                            )));
                        }
                        return Err(self.err(
                            ParseErrKind::EmptyParen,
                            Span::new(open_span.start, t.span.end),
                        ));
                    }
                    if expect {
                        proof {
                            assert(sy_prev == Err::<
                                (Seq<Token>, int, usize),
                                (ParseErrKind, Span),
                            >((
                                ParseErrKind::IncompleteMathExpr,
                                Span { start: start_char, end: t.span.end },
                            )));
                        }
                        return Err(self.err(
                            ParseErrKind::IncompleteMathExpr,
                            Span::new(start_char, t.span.end),
                        ));
                    }
                    proof {
                        assert(sy_prev == (if g_depth == 1 && !in_mutation {
                            Ok::<(Seq<Token>, int, usize), (ParseErrKind, Span)>(
                                (pop_to_lparen(g_out, g_ops).0, g_k + 1, t.span.end),
                            )
                        } else {
                            sy(
                                toks,
                                g_k + 1,
                                pop_to_lparen(g_out, g_ops).0,
                                pop_to_lparen(g_out, g_ops).1,
                                g_depth - 1,
                                false,
                                false,
                                start_char,
                                t.span.end,
                                in_mutation,
                            )
                        }));
                    }
                    run_pop_to_lparen(&mut out, &mut ops);
                    if depth == 1 && !in_mutation {
                        return Ok((out, k + 1, t.span.end));
                    }
                    depth -= 1;
                    expect = false;
                    just_opened = false;
                    last_end = t.span.end;
                    k += 1;
                },
                TokenKind::Int { .. } => {
                    if !expect {
                        proof {
                            assert(sy_prev == Err::<
                                (Seq<Token>, int, usize),
                                (ParseErrKind, Span),
                            >((ParseErrKind::InvalidMathOp, t.span)));
                        }
                        return Err(self.err(ParseErrKind::InvalidMathOp, t.span));
                    }
                    proof {
                        assert(sy_prev == sy(
                            toks,
                            g_k + 1,
                            g_out.push(t),
                            g_ops,
                            g_depth,
                            false,
                            false,
                            start_char,
                            t.span.end,
                            in_mutation,
                        ));
                    }
                    out.push(t);
                    expect = false;
                    just_opened = false;
                    last_end = t.span.end;
                    k += 1;
                },
                TokenKind::RngMutArg => {
                    if !in_mutation || !expect {
                        proof {
                            if expect {
                                assert(sy_prev == Err::<
                                    (Seq<Token>, int, usize),
                                    (ParseErrKind, Span),
                                >((ParseErrKind::InvalidMathExpr, t.span)));
                            } else {
                                assert(sy_prev == Err::<
                                    (Seq<Token>, int, usize),
                                    (ParseErrKind, Span),
                                >((ParseErrKind::InvalidMathOp, t.span)));
                            }
                        }
                        if expect {
                            return Err(self.err(ParseErrKind::InvalidMathExpr, t.span));
                        }
                        return Err(self.err(ParseErrKind::InvalidMathOp, t.span));
                    }
                    proof {
                        assert(sy_prev == sy(
                            toks,
                            g_k + 1,
                            g_out.push(t),
                            g_ops,
                            g_depth,
                            false,
                            false,
                            start_char,
                            t.span.end,
                            in_mutation,
                        ));
                    }
                    out.push(t);
                    expect = false;
                    just_opened = false;
                    last_end = t.span.end;
                    k += 1;
                },
                TokenKind::Math(op) => {
                    if expect {
                        match op {
                            Op::Add | Op::Sub => {
                                // Scan the sign run like a signed literal.
                                let mut j = k;
                                let mut negative = false;
                                while sign_run_continues(&self.tokens, j)
                                    invariant
                                        self.tokens@ == toks,
                                        n == toks.len(),
                                        k <= j <= toks.len(),
                                        k < toks.len(),
                                        int_run_end(toks, k as int) == int_run_end(toks, j as int),
                                        negative == (minus_count(toks, k as int, j as int) % 2
                                            == 1),
                                    decreases toks.len() - j,
                                {
                                    proof {
                                        lemma_minus_count_snoc(toks, k as int, j as int);
                                        assert(int_run_end(toks, j as int) == int_run_end(
                                            toks,
                                            j + 1,
                                        ));
                                    }
                                    match self.tokens[j].kind {
                                        TokenKind::Math(Op::Sub) => {
                                            negative = !negative;
                                        },
                                        _ => {},
                                    }
                                    j += 1;
                                }
                                assert(int_run_end(toks, k as int) == j as int);
                                if j == n {
                                    proof {
                                        assert(sy_prev == Err::<
                                            (Seq<Token>, int, usize),
                                            (ParseErrKind, Span),
                                        >((ParseErrKind::IncompleteInt, toks[j - 1].span)));
                                    }
                                    return Err(self.err(
                                        ParseErrKind::IncompleteInt,
                                        self.tokens[j - 1].span,
                                    ));
                                }
                                let nt = self.tokens[j];
                                match nt.kind {
                                    TokenKind::Int { value } => {
                                        let v = if negative {
                                            if value == i64::MIN {
                                                i64::MIN
                                            } else {
                                                -value
                                            }
                                        } else {
                                            value
                                        };
                                        let lit = Token::new(
                                            TokenKind::Int { value: v },
                                            Span::new(t.span.start, nt.span.end),
                                        );
                                        proof {
                                            assert(sy_prev == sy(
                                                toks,
                                                j + 1,
                                                g_out.push(lit),
                                                g_ops,
                                                g_depth,
                                                false,
                                                false,
                                                start_char,
                                                nt.span.end,
                                                in_mutation,
                                            ));
                                        }
                                        out.push(lit);
                                        expect = false;
                                        just_opened = false;
                                        last_end = nt.span.end;
                                        k = j + 1;
                                    },
                                    TokenKind::LParen => {
                                        let u = Token::new(
                                            TokenKind::Math(
                                                if matches!(op, Op::Add) {
                                                    Op::UnaryAdd
                                                } else {
                                                    Op::UnarySub
                                                },
                                            ),
                                            t.span,
                                        );
                                        proof {
                                            assert(sy_prev == sy(
                                                toks,
                                                g_k + 1,
                                                g_out,
                                                g_ops.push(u),
                                                g_depth,
                                                true,
                                                false,
                                                start_char,
                                                t.span.end,
                                                in_mutation,
                                            ));
                                        }
                                        ops.push(u);
                                        expect = true;
                                        just_opened = false;
                                        last_end = t.span.end;
                                        k += 1;
                                    },
                                    _ => {
                                        proof {
                                            assert(sy_prev == Err::<
                                                (Seq<Token>, int, usize),
                                                (ParseErrKind, Span),
                                            >((ParseErrKind::InvalidInt, nt.span)));
                                        }
                                        return Err(self.err(ParseErrKind::InvalidInt, nt.span));
                                    },
                                }
                            },
                            _ => {
                                proof {
                                    assert(sy_prev == Err::<
                                        (Seq<Token>, int, usize),
                                        (ParseErrKind, Span),
                                    >((ParseErrKind::UnexpectedMathOp, t.span)));
                                }
                                return Err(self.err(ParseErrKind::UnexpectedMathOp, t.span));
                            },
                        }
                    } else {
                        proof {
                            assert(sy_prev == sy(
                                toks,
                                g_k + 1,
                                pop_higher(g_out, g_ops, op).0,
                                pop_higher(g_out, g_ops, op).1.push(t),
                                g_depth,
                                true,
                                false,
                                start_char,
                                t.span.end,
                                in_mutation,
                            ));
                        }
                        run_pop_higher(&mut out, &mut ops, op);
                        ops.push(t);
                        expect = true;
                        just_opened = false;
                        last_end = t.span.end;
                        k += 1;
                    }
                },
                TokenKind::Comma | TokenKind::RSquiggly => {
                    if in_mutation && depth == 0 {
                        if expect {
                            proof {
                                assert(sy_prev == Err::<
                                    (Seq<Token>, int, usize),
                                    (ParseErrKind, Span),
                                >((
                                    ParseErrKind::IncompleteMathExpr,
                                    Span { start: start_char, end: g_le },
                                )));
                            }
                            return Err(self.err(
                                ParseErrKind::IncompleteMathExpr,
                                Span::new(start_char, last_end),
                            ));
                        }
                        proof {
                            assert(sy_prev == (match flush_ops(g_out, g_ops) {
                                Ok(o2) => Ok::<(Seq<Token>, int, usize), (ParseErrKind, Span)>(
                                    (o2, g_k, g_le),
                                ),
                                Err(e) => Err(e),
                            }));
                            // A terminator cannot be the first token in
                            // implicit-left-operand mode, whose first token
                            // is an operator.
                            assert(k != i);
                        }
                        let flush_r = run_flush(&mut out, &mut ops);
                        match flush_r {
                            Some(sp) => {
                                return Err(self.err(ParseErrKind::UnmatchedParen, sp));
                            },
                            None => {
                                return Ok((out, k, last_end));
                            },
                        }
                    }
                    proof {
                        if expect {
                            assert(sy_prev == Err::<
                                (Seq<Token>, int, usize),
                                (ParseErrKind, Span),
                            >((ParseErrKind::InvalidMathExpr, t.span)));
                        } else {
                            assert(sy_prev == Err::<
                                (Seq<Token>, int, usize),
                                (ParseErrKind, Span),
                            >((ParseErrKind::InvalidMathOp, t.span)));
                        }
                    }
                    if expect {
                        return Err(self.err(ParseErrKind::InvalidMathExpr, t.span));
                    }
                    return Err(self.err(ParseErrKind::InvalidMathOp, t.span));
                },
                _ => {
                    proof {
                        if expect {
                            assert(sy_prev == Err::<
                                (Seq<Token>, int, usize),
                                (ParseErrKind, Span),
                            >((ParseErrKind::InvalidMathExpr, t.span)));
                        } else {
                            assert(sy_prev == Err::<
                                (Seq<Token>, int, usize),
                                (ParseErrKind, Span),
                            >((ParseErrKind::InvalidMathOp, t.span)));
                        }
                    }
                    if expect {
                        return Err(self.err(ParseErrKind::InvalidMathExpr, t.span));
                    }
                    return Err(self.err(ParseErrKind::InvalidMathOp, t.span));
                },
            }
        }
    }

    /// Parse a parenthesized arithmetic sub-expression at token index `i`.
    fn parse_math_expr(&self, i: usize) -> (r: Result<(Node, usize), ParserError>)
        requires
            i < self.tokens@.len(),
            self.tokens@[i as int].kind == TokenKind::LParen,
        ensures
            match r {
                Ok((n, j)) => parse_math_expr(self.tokens@, i as int) == Ok::<
                    (BoundV, int),
                    (ParseErrKind, Span),
                >((n.bound_view(), j as int)) && n is MathExpr && i < j <= self.tokens@.len(),
                Err(e) => parse_math_expr(self.tokens@, i as int) == Err::<
                    (BoundV, int),
                    (ParseErrKind, Span),
                >((e.parts().1, e.parts().2)) && e.parts().0 == self.input_chars@,
            },
    {
        if let Some(sp) = self.check_unmatched_paren(i) {
            return Err(self.err(ParseErrKind::UnmatchedParen, sp));
        }
        let t = self.tokens[i];
        let empty_out: Vec<Token> = Vec::new();
        match self.infix_to_postfix(i, &empty_out, true, t.span.start, t.span.end, false) {
            Ok((rpn, next, end)) => Ok(
                (Node::MathExpr { span: Span::new(t.span.start, end), rpn }, next),
            ),
            Err(e) => Err(e),
        }
    }

    /// Parse a range bound or step value at token index `i`.
    fn parse_range_bound(&self, i: usize, prev: Span) -> (r: Result<(Node, usize), ParserError>)
        requires
            i <= self.tokens@.len(),
        ensures
            match r {
                Ok((n, j)) => parse_bound(self.tokens@, i as int, prev) == Ok::<
                    (BoundV, int),
                    (ParseErrKind, Span),
                >((n.bound_view(), j as int)) && !(n is RangeExpr) && i < j <= self.tokens@.len(),
                Err(e) => parse_bound(self.tokens@, i as int, prev) == Err::<
                    (BoundV, int),
                    (ParseErrKind, Span),
                >((e.parts().1, e.parts().2)) && e.parts().0 == self.input_chars@,
            },
    {
        if i == self.tokens.len() {
            return Err(self.err(ParseErrKind::IncompleteMathExpr, prev));
        }
        if matches!(self.tokens[i].kind, TokenKind::LParen) {
            self.parse_math_expr(i)
        } else {
            match self.parser_int(i) {
                Ok((n, j)) => {
                    proof {
                        lemma_int_run_end_bounds(self.tokens@, i as int);
                    }
                    Ok((n, j))
                },
                Err(e) => Err(e),
            }
        }
    }

    /// Parse a mutation expression after an `m:` marker at token index
    /// `i`; see [`parse_mutation`].
    fn parse_mutation_expr(&self, i: usize, marker: Token) -> (r: Result<
        (Node, usize),
        ParserError,
    >)
        requires
            i <= self.tokens@.len(),
        ensures
            match r {
                Ok((n, j)) => parse_mutation(self.tokens@, i as int, marker) == Ok::<
                    (BoundV, int),
                    (ParseErrKind, Span),
                >((n.bound_view(), j as int)) && n is MathExpr && i < j <= self.tokens@.len(),
                Err(e) => parse_mutation(self.tokens@, i as int, marker) == Err::<
                    (BoundV, int),
                    (ParseErrKind, Span),
                >((e.parts().1, e.parts().2)) && e.parts().0 == self.input_chars@,
            },
    {
        if i < self.tokens.len() && matches!(self.tokens[i].kind, TokenKind::Math(_)) {
            let t = self.tokens[i];
            let mut seed: Vec<Token> = Vec::new();
            seed.push(Token::new(TokenKind::RngMutArg, t.span));
            proof {
                assert(seed@ =~= seq![Token { kind: TokenKind::RngMutArg, span: t.span }]);
            }
            match self.infix_to_postfix(i, &seed, false, t.span.start, t.span.end, true) {
                Ok((rpn, next, end)) => Ok(
                    (Node::MathExpr { span: Span::new(t.span.start, end), rpn }, next),
                ),
                Err(e) => Err(e),
            }
        } else {
            let sc = if i < self.tokens.len() {
                self.tokens[i].span.start
            } else {
                marker.span.start
            };
            let empty_out: Vec<Token> = Vec::new();
            match self.infix_to_postfix(i, &empty_out, true, sc, marker.span.end, true) {
                Ok((rpn, next, end)) => Ok(
                    (Node::MathExpr { span: Span::new(sc, end), rpn }, next),
                ),
                Err(e) => Err(e),
            }
        }
    }

    /// Parse a brace-delimited range expression at token index `i`.
    fn parse_range_expr(&self, i: usize) -> (r: Result<(Node, usize), ParserError>)
        requires
            i < self.tokens@.len(),
            self.tokens@[i as int].kind == TokenKind::LSquiggly,
        ensures
            match r {
                Ok((n, j)) => parse_range(self.tokens@, i as int) == Ok::<
                    (NodeV, int),
                    (ParseErrKind, Span),
                >((n@, j as int)) && n.wf() && n is RangeExpr && i < j <= self.tokens@.len(),
                Err(e) => parse_range(self.tokens@, i as int) == Err::<
                    (NodeV, int),
                    (ParseErrKind, Span),
                >((e.parts().1, e.parts().2)) && e.parts().0 == self.input_chars@,
            },
    {
        let ghost toks = self.tokens@;
        let n = self.tokens.len();
        let brace = self.tokens[i];
        let bstart = brace.span.start;
        let (start_node, j) = match self.parse_range_bound(i + 1, brace.span) {
            Ok(x) => x,
            Err(e) => {
                return Err(e);
            },
        };
        if j == n {
            proof {
                assert(parse_range(toks, i as int) == Err::<(NodeV, int), (ParseErrKind, Span)>(
                    (
                        ParseErrKind::IncompleteMathExpr,
                        Span { start: bstart, end: toks[toks.len() - 1].span.end },
                    ),
                ));
            }
            return Err(self.err(
                ParseErrKind::IncompleteMathExpr,
                Span::new(bstart, self.tokens[n - 1].span.end),
            ));
        }
        let rt = self.tokens[j];
        let incl = match rt.kind {
            TokenKind::RngInclusive => true,
            TokenKind::RngExclusive => false,
            _ => {
                return Err(self.err(ParseErrKind::InvalidMathExpr, rt.span));
            },
        };
        let (end_node, k0) = match self.parse_range_bound(j + 1, rt.span) {
            Ok(x) => x,
            Err(e) => {
                return Err(e);
            },
        };
        let ghost sv = start_node.bound_view();
        let ghost ev = end_node.bound_view();
        let ghost target = parse_range_args(toks, k0 as int, bstart, sv, ev, incl, None, None);
        proof {
            assert(parse_range(toks, i as int) == target);
        }
        let mut k = k0;
        let mut step_node: Option<Node> = None;
        let mut mut_node: Option<Node> = None;
        loop
            invariant
                self.tokens@ == toks,
                n == toks.len(),
                i < k0 <= k <= toks.len(),
                sv == start_node.bound_view(),
                ev == end_node.bound_view(),
                !(start_node is RangeExpr),
                !(end_node is RangeExpr),
                parse_range(toks, i as int) == target,
                target == parse_range_args(toks, k0 as int, bstart, sv, ev, incl, None, None),
                target == parse_range_args(
                    toks,
                    k as int,
                    bstart,
                    sv,
                    ev,
                    incl,
                    opt_bound_view(step_node),
                    opt_bound_view(mut_node),
                ),
                step_node matches Some(nn) ==> !(nn is RangeExpr),
                mut_node matches Some(nn) ==> nn is MathExpr,
            decreases toks.len() - k,
        {
            let ghost pr_prev = parse_range_args(
                toks,
                k as int,
                bstart,
                sv,
                ev,
                incl,
                opt_bound_view(step_node),
                opt_bound_view(mut_node),
            );
            if k == n {
                proof {
                    assert(pr_prev == Err::<(NodeV, int), (ParseErrKind, Span)>(
                        (
                            ParseErrKind::IncompleteMathExpr,
                            Span { start: bstart, end: toks[toks.len() - 1].span.end },
                        ),
                    ));
                }
                return Err(self.err(
                    ParseErrKind::IncompleteMathExpr,
                    Span::new(bstart, self.tokens[n - 1].span.end),
                ));
            }
            let t = self.tokens[k];
            if matches!(t.kind, TokenKind::RSquiggly) {
                let ghost g_start = start_node;
                let ghost g_end = end_node;
                let ghost g_step = step_node;
                let ghost g_mut = mut_node;
                let ghost nv = NodeV::Range {
                    span: Span { start: bstart, end: t.span.end },
                    start: sv,
                    end: ev,
                    inclusive: incl,
                    step: opt_bound_view(step_node),
                    mutation: opt_bound_view(mut_node),
                };
                proof {
                    assert(pr_prev == Ok::<(NodeV, int), (ParseErrKind, Span)>(
                        (nv, k as int + 1),
                    ));
                }
                let step_boxed = box_opt(step_node);
                let mut_boxed = box_opt(mut_node);
                proof {
                    assert(opt_box_view(step_boxed) == opt_bound_view(g_step));
                    assert(opt_box_view(mut_boxed) == opt_bound_view(g_mut));
                    match &step_boxed {
                        Some(b) => {
                            assert(!((**b) is RangeExpr));
                        },
                        None => {},
                    }
                    match &mut_boxed {
                        Some(b) => {
                            assert((**b) is MathExpr);
                        },
                        None => {},
                    }
                }
                let sb = Box::new(start_node);
                let eb = Box::new(end_node);
                proof {
                    assert(*sb == g_start);
                    assert(*eb == g_end);
                }
                let node = Node::RangeExpr {
                    span: Span::new(bstart, t.span.end),
                    start: sb,
                    end: eb,
                    inclusive: incl,
                    step: step_boxed,
                    mutation: mut_boxed,
                };
                proof {
                    assert(node@ == nv);
                    assert(node.wf());
                }
                return Ok((node, k + 1));
            }
            if matches!(t.kind, TokenKind::Comma) {
                let a = k + 1;
                if a == n {
                    proof {
                        assert(pr_prev == Err::<(NodeV, int), (ParseErrKind, Span)>(
                            (
                                ParseErrKind::IncompleteMathExpr,
                                Span { start: bstart, end: t.span.end },
                            ),
                        ));
                    }
                    return Err(self.err(
                        ParseErrKind::IncompleteMathExpr,
                        Span::new(bstart, t.span.end),
                    ));
                }
                let at = self.tokens[a];
                if matches!(at.kind, TokenKind::RngStep) {
                    if step_node.is_some() {
                        proof {
                            assert(pr_prev == Err::<(NodeV, int), (ParseErrKind, Span)>(
                                (ParseErrKind::InvalidMathExpr, at.span),
                            ));
                        }
                        return Err(self.err(ParseErrKind::InvalidMathExpr, at.span));
                    }
                    match self.parse_range_bound(a + 1, at.span) {
                        Ok((nn, k2)) => {
                            proof {
                                assert(pr_prev == parse_range_args(
                                    toks,
                                    k2 as int,
                                    bstart,
                                    sv,
                                    ev,
                                    incl,
                                    Some(nn.bound_view()),
                                    opt_bound_view(mut_node),
                                ));
                            }
                            step_node = Some(nn);
                            k = k2;
                        },
                        Err(e) => {
                            return Err(e);
                        },
                    }
                } else if matches!(at.kind, TokenKind::RngMutation) {
                    if mut_node.is_some() {
                        proof {
                            assert(pr_prev == Err::<(NodeV, int), (ParseErrKind, Span)>(
                                (ParseErrKind::InvalidMathExpr, at.span),
                            ));
                        }
                        return Err(self.err(ParseErrKind::InvalidMathExpr, at.span));
                    }
                    match self.parse_mutation_expr(a + 1, at) {
                        Ok((nn, k2)) => {
                            proof {
                                assert(pr_prev == parse_range_args(
                                    toks,
                                    k2 as int,
                                    bstart,
                                    sv,
                                    ev,
                                    incl,
                                    opt_bound_view(step_node),
                                    Some(nn.bound_view()),
                                ));
                            }
                            mut_node = Some(nn);
                            k = k2;
                        },
                        Err(e) => {
                            return Err(e);
                        },
                    }
                } else {
                    proof {
                        assert(pr_prev == Err::<(NodeV, int), (ParseErrKind, Span)>(
                            (ParseErrKind::InvalidMathExpr, at.span),
                        ));
                    }
                    return Err(self.err(ParseErrKind::InvalidMathExpr, at.span));
                }
            } else {
                proof {
                    assert(pr_prev == Err::<(NodeV, int), (ParseErrKind, Span)>(
                        (ParseErrKind::InvalidMathExpr, t.span),
                    ));
                }
                return Err(self.err(ParseErrKind::InvalidMathExpr, t.span));
            }
        }
    }

    /// Parse one top-level item at token index `i`.
    fn parse_t(&self, i: usize) -> (r: Result<(Node, usize), ParserError>)
        requires
            i < self.tokens@.len(),
        ensures
            match r {
                Ok((node, j)) => parse_item(self.tokens@, i as int) == Ok::<
                    (NodeV, int),
                    (ParseErrKind, Span),
                >((node@, j as int)) && node.wf() && i < j <= self.tokens@.len(),
                Err(e) => parse_item(self.tokens@, i as int) == Err::<
                    (NodeV, int),
                    (ParseErrKind, Span),
                >((e.parts().1, e.parts().2)) && e.parts().0 == self.input_chars@,
            },
    {
        let t = self.tokens[i];
        match t.kind {
            TokenKind::Int { .. } => self.parser_int(i),
            TokenKind::Math(op) => match op {
                Op::Add | Op::Sub => self.parser_int(i),
                _ => Err(self.err(ParseErrKind::UnexpectedMathOp, t.span)),
            },
            TokenKind::Comma => Err(self.err(ParseErrKind::UnexpectedComma, t.span)),
            TokenKind::LParen => self.parse_math_expr(i),
            TokenKind::LSquiggly => self.parse_range_expr(i),
            _ => Err(self.err(ParseErrKind::InvalidMathExpr, t.span)),
        }
    }

    /// Parse the whole token list into one node per top-level item.  The
    /// result is exactly [`parse_items`] over the tokens: on success the
    /// node views equal the specified node sequence (and every node is
    /// well-formed); on failure the specified error, carrying the full
    /// input characters and the span of the offending tokens.
    pub fn parse(&mut self) -> (r: Result<Vec<Node>, ParserError>)
        requires
            old(self).position <= old(self).tokens@.len(),
        ensures
            final(self).input_chars@ == old(self).input_chars@,
            final(self).tokens@ == old(self).tokens@,
            match r {
                Ok(nodes) => parse_items(old(self).tokens@, old(self).position as int) == Ok::<
                    Seq<NodeV>,
                    (ParseErrKind, Span),
                >(views_of(nodes@)) && (forall|x: int|
                    0 <= x < nodes@.len() ==> (#[trigger] nodes@[x]).wf()),
                Err(e) => parse_items(old(self).tokens@, old(self).position as int) == Err::<
                    Seq<NodeV>,
                    (ParseErrKind, Span),
                >((e.parts().1, e.parts().2)) && e.parts().0 == old(self).input_chars@,
            },
    {
        let ghost toks = self.tokens@;
        let ghost i0 = self.position as int;
        let ghost target = parse_items(toks, i0);
        let n = self.tokens.len();
        let mut nodes: Vec<Node> = Vec::new();
        while self.position < n
            invariant
                self.input_chars@ == old(self).input_chars@,
                self.tokens@ == toks,
                toks == old(self).tokens@,
                n == toks.len(),
                i0 == old(self).position as int,
                self.position <= n,
                target == parse_items(toks, i0),
                node_join(views_of(nodes@), parse_items(toks, self.position as int)) == target,
                forall|x: int| 0 <= x < nodes@.len() ==> (#[trigger] nodes@[x]).wf(),
            decreases n - self.position,
        {
            let i = self.position;
            let ghost pi_prev = parse_items(toks, i as int);
            let ghost nodes_pre = nodes@;
            match self.parse_t(i) {
                Err(e) => {
                    proof {
                        assert(pi_prev == Err::<Seq<NodeV>, (ParseErrKind, Span)>(
                            (e.parts().1, e.parts().2),
                        ));
                    }
                    return Err(e);
                },
                Ok((node, j)) => {
                    let mut next = j;
                    if j < n && matches!(self.tokens[j].kind, TokenKind::Comma) {
                        if j + 1 == n {
                            proof {
                                assert(pi_prev == Err::<Seq<NodeV>, (ParseErrKind, Span)>(
                                    (ParseErrKind::UnexpectedComma, toks[j as int].span),
                                ));
                            }
                            return Err(self.err(
                                ParseErrKind::UnexpectedComma,
                                self.tokens[j].span,
                            ));
                        }
                        if matches!(self.tokens[j + 1].kind, TokenKind::Comma) {
                            proof {
                                assert(pi_prev == Err::<Seq<NodeV>, (ParseErrKind, Span)>(
                                    (ParseErrKind::UnexpectedComma, toks[j + 1].span),
                                ));
                            }
                            return Err(self.err(
                                ParseErrKind::UnexpectedComma,
                                self.tokens[j + 1].span,
                            ));
                        }
                        next = j + 1;
                    }
                    proof {
                        assert(pi_prev == node_cons(node@, parse_items(toks, next as int)));
                        lemma_views_of_push(nodes@, node);
                        lemma_node_join_push(
                            views_of(nodes@),
                            node@,
                            parse_items(toks, next as int),
                        );
                    }
                    nodes.push(node);
                    self.position = next;
                },
            }
        }
        proof {
            assert(parse_items(toks, self.position as int) == Ok::<
                Seq<NodeV>,
                (ParseErrKind, Span),
            >(Seq::empty()));
            assert(views_of(nodes@) + Seq::<NodeV>::empty() =~= views_of(nodes@));
        }
        Ok(nodes)
    }
}

/// The sign run end lies between `i` and the end of the tokens.

proof fn lemma_int_run_end_bounds(toks: Seq<Token>, i: int)
    requires
        0 <= i <= toks.len(),
    ensures
        i <= int_run_end(toks, i) <= toks.len(),
    decreases toks.len() - i,
{
    if i < toks.len() && (toks[i].kind == TokenKind::Math(Op::Add) || toks[i].kind
        == TokenKind::Math(Op::Sub)) {
        lemma_int_run_end_bounds(toks, i + 1);
    }
}

/// Build an owned copy of a token vector.
fn clone_tokens(v: &Vec<Token>) -> (r: Vec<Token>)
    ensures
        r@ == v@,
{
    let mut r: Vec<Token> = Vec::new();
    let mut i: usize = 0;
    while i < v.len()
        invariant
            i <= v@.len(),
            r@ == v@.subrange(0, i as int),
        decreases v@.len() - i,
    {
        r.push(v[i]);
        i += 1;
    }
    assert(r@ =~= v@);
    r
}


/// The sign run over an all-sign region followed by a non-sign token
/// ends exactly at that token.
proof fn lemma_int_run_end_exact(toks: Seq<Token>, i: int, j: int)
    requires
        0 <= i <= j < toks.len(),
        forall|k: int|
            i <= k < j ==> (#[trigger] toks[k]).kind == TokenKind::Math(Op::Add) || toks[k].kind
                == TokenKind::Math(Op::Sub),
        !(toks[j].kind == TokenKind::Math(Op::Add) || toks[j].kind == TokenKind::Math(Op::Sub)),
    ensures
        int_run_end(toks, i) == j,
    decreases j - i,
{
    if i < j {
        lemma_int_run_end_exact(toks, i + 1, j);
    }
}

/// Law: a well-formed signed integer literal — a run of `+`/`-` sign
/// tokens followed by a single non-negative `Int` token — parses to
/// exactly one `Int` node spanning the whole literal, whose value is the
/// token's value negated exactly when the number of `-` signs is odd
/// (so `--10` means `10` and `-+10` means `-10`).
pub proof fn lemma_parse_signed_literal(toks: Seq<Token>, value: i64)
    requires
        toks.len() >= 1,
        toks.last().kind == (TokenKind::Int { value }),
        value >= 0,
        forall|k: int|
            0 <= k < toks.len() - 1 ==> (#[trigger] toks[k]).kind == TokenKind::Math(Op::Add)
                || toks[k].kind == TokenKind::Math(Op::Sub),
    ensures
        parse_items(toks, 0) == Ok::<Seq<NodeV>, (ParseErrKind, Span)>(
            seq![
                NodeV::Int {
                    span: Span { start: toks[0].span.start, end: toks.last().span.end },
                    value: if minus_count(toks, 0, toks.len() - 1) % 2 == 1 {
                        (-value) as i64
                    } else {
                        value
                    },
                },
            ],
        ),
{
    let j = toks.len() - 1;
    lemma_int_run_end_exact(toks, 0, j);
    assert(parse_signed_int(toks, 0) == Ok::<(BoundV, int), (ParseErrKind, Span)>(
        (
            BoundV::Int {
                span: Span { start: toks[0].span.start, end: toks[j].span.end },
                value: if minus_count(toks, 0, j) % 2 == 1 {
                    (-value) as i64
                } else {
                    value
                },
            },
            j + 1,
        ),
    ));
    let node = bound_to_node(parse_signed_int(toks, 0)->Ok_0.0);
    assert(parse_item(toks, 0) == Ok::<(NodeV, int), (ParseErrKind, Span)>(
        (node, toks.len() as int),
    ));
    assert(parse_items(toks, toks.len() as int) == Ok::<Seq<NodeV>, (ParseErrKind, Span)>(
        Seq::empty(),
    ));
    assert(seq![node] + Seq::<NodeV>::empty() =~= seq![node]);
}

} // verus!
