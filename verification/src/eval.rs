//! Evaluation and materialization: reduce a parsed node list to the final
//! flat integer sequence, in left-to-right item order.
//!
//! An `Int` node contributes its value; a `MathExpr` node is evaluated by
//! folding its postfix token sequence over a value stack; a `RangeExpr`
//! node is expanded into the concrete ordered values it denotes.
//!
//! Arithmetic is exact signed 64-bit arithmetic: division and remainder
//! truncate toward zero, exponentiation is repeated multiplication with a
//! non-negative exponent.  Division or remainder by zero, a negative
//! exponent, and any intermediate result that does not fit an `i64` are
//! evaluation-time faults, reported the same way as a structural parser
//! error: as an [`InvalidMathExpr`](crate::errors::ParserError) carrying
//! the full input and the offending operator's span.
//!
//! A range steps from its evaluated start toward its evaluated end; the
//! direction is decided by the bounds alone, and an explicit step
//! contributes only its magnitude (its sign is ignored; a zero step
//! yields an empty sequence).  Generation stops at the first position
//! past the end — strictly past it for an inclusive range, at or past it
//! for an exclusive one.  The optional mutation is applied to each
//! generated position (the position substitutes for the `@` placeholder,
//! or is the implicit left operand); the next step is still computed from
//! the unmutated running position.

use crate::errors::{clone_chars, ParseErrKind, ParserError};
use crate::parser::{opt_box_view, views_of, BoundV, Node, NodeV};
use crate::tokens::{Op, Span, Token, TokenKind};
use vstd::prelude::*;

verus! {

/// The value of one binary operation, or `None` on a fault: a result out
/// of the `i64` range, or division/remainder by zero (`Pow` is handled
/// separately).  Division and remainder follow `i64::checked_div` /
/// `i64::checked_rem`: truncation toward zero, with the one overflowing
/// case (`i64::MIN` by `-1`) a fault.
pub open spec fn apply_binop(op: Op, a: i64, b: i64) -> Option<i64> {
    match op {
        Op::Add => a.checked_add(b),
        Op::Sub => a.checked_sub(b),
        Op::Mul => a.checked_mul(b),
        Op::Div => if b == 0 {
            None
        } else {
            a.checked_div(b)
        },
        Op::Mod => if b == 0 {
            None
        } else {
            a.checked_rem(b)
        },
        _ => None,
    }
}

/// Repeated multiplication of `acc` by `base`, `e` times, or `None` as
/// soon as a product leaves the `i64` range.
pub open spec fn pow_acc(acc: i64, base: i64, e: nat) -> Option<i64>
    decreases e,
{
    if e == 0 {
        Some(acc)
    } else if acc * base > i64::MAX || acc * base < i64::MIN {
        None
    } else {
        pow_acc((acc * base) as i64, base, (e - 1) as nat)
    }
}

/// `base` raised to `e`: `None` for a negative exponent or on overflow.
pub open spec fn pow64(base: i64, e: i64) -> Option<i64> {
    if e < 0 {
        None
    } else {
        pow_acc(1, base, e as nat)
    }
}

/// Fold a postfix token sequence from index `i` over a value stack.
/// Operands push; `@` pushes the range element `elem`; operators pop
/// their operands and push the result.  An evaluation fault is reported
/// at the operator's span; a structurally broken sequence (stack
/// underflow, a leftover value, a foreign token) — which the parser never
/// produces — at `whole`.
pub open spec fn eval_rpn(rpn: Seq<Token>, i: int, stack: Seq<i64>, elem: i64, whole: Span) -> Result<
    i64,
    Span,
>
    decreases rpn.len() - i,
        when 0 <= i <= rpn.len()
{
    if i >= rpn.len() {
        if stack.len() == 1 {
            Ok(stack[0])
        } else {
            Err(whole)
        }
    } else {
        let t = rpn[i];
        match t.kind {
            TokenKind::Int { value } => eval_rpn(rpn, i + 1, stack.push(value), elem, whole),
            TokenKind::RngMutArg => eval_rpn(rpn, i + 1, stack.push(elem), elem, whole),
            TokenKind::Math(op) => match op {
                Op::UnaryAdd => if stack.len() < 1 {
                    Err(whole)
                } else {
                    eval_rpn(rpn, i + 1, stack, elem, whole)
                },
                Op::UnarySub => if stack.len() < 1 {
                    Err(whole)
                } else if stack.last() == i64::MIN {
                    Err(t.span)
                } else {
                    eval_rpn(
                        rpn,
                        i + 1,
                        stack.drop_last().push((-stack.last()) as i64),
                        elem,
                        whole,
                    )
                },
                Op::Pow => if stack.len() < 2 {
                    Err(whole)
                } else {
                    match pow64(stack[stack.len() - 2], stack.last()) {
                        Some(v) => eval_rpn(
                            rpn,
                            i + 1,
                            stack.drop_last().drop_last().push(v),
                            elem,
                            whole,
                        ),
                        None => Err(t.span),
                    }
                },
                _ => if stack.len() < 2 {
                    Err(whole)
                } else {
                    match apply_binop(op, stack[stack.len() - 2], stack.last()) {
                        Some(v) => eval_rpn(
                            rpn,
                            i + 1,
                            stack.drop_last().drop_last().push(v),
                            elem,
                            whole,
                        ),
                        None => Err(t.span),
                    }
                },
            },
            _ => Err(whole),
        }
    }
}

/// The integer value of a range bound: a literal's value, or its
/// arithmetic expression evaluated (with no element in scope).
pub open spec fn eval_bound(b: BoundV) -> Result<i64, Span> {
    match b {
        BoundV::Int { value, .. } => Ok(value),
        BoundV::Math { span, rpn } => eval_rpn(rpn, 0, Seq::empty(), 0, span),
    }
}

/// Apply the optional mutation to a generated position.
pub open spec fn apply_mutation(m: Option<BoundV>, pos: i64) -> Result<i64, Span> {
    match m {
        None => Ok(pos),
        Some(BoundV::Int { value, .. }) => Ok(value),
        Some(BoundV::Math { span, rpn }) => eval_rpn(rpn, 0, Seq::empty(), pos, span),
    }
}

/// The magnitude of a step value.
pub open spec fn magnitude(v: i64) -> nat {
    if v >= 0 {
        v as nat
    } else {
        (-(v as int)) as nat
    }
}

/// Loop measure for range generation: the clamped distance to the end.
pub open spec fn mat_measure(pos: int, endv: int, up: bool) -> int {
    let d = if up {
        endv - pos
    } else {
        pos - endv
    };
    if d >= 0 {
        d + 1
    } else {
        0
    }
}

/// Whether a running position still lies within the range.
pub open spec fn in_bounds(pos: int, endv: int, up: bool, incl: bool) -> bool {
    if up {
        if incl {
            pos <= endv
        } else {
            pos < endv
        }
    } else {
        if incl {
            pos >= endv
        } else {
            pos > endv
        }
    }
}

/// The materialized values from running position `pos` on: while the
/// position is in bounds, emit the (mutated) position and advance by the
/// step magnitude in the range's direction; stop when the next position
/// leaves the bounds or the `i64` range.
pub open spec fn mat_rec(
    pos: i64,
    endv: i64,
    up: bool,
    incl: bool,
    mag: nat,
    m: Option<BoundV>,
) -> Result<Seq<i64>, Span>
    decreases mat_measure(pos as int, endv as int, up),
        when mag >= 1
{
    if !in_bounds(pos as int, endv as int, up, incl) {
        Ok(Seq::empty())
    } else {
        match apply_mutation(m, pos) {
            Err(sp) => Err(sp),
            Ok(v) => {
                let next = if up {
                    pos + mag
                } else {
                    pos - mag
                };
                if next < i64::MIN || next > i64::MAX || !in_bounds(next, endv as int, up, incl) {
                    Ok(seq![v])
                } else {
                    match mat_rec(next as i64, endv, up, incl, mag, m) {
                        Ok(rest) => Ok(seq![v] + rest),
                        Err(sp) => Err(sp),
                    }
                }
            },
        }
    }
}

/// A range, materialized: evaluate the bounds, take the direction from
/// them (`end >= start` counts up, otherwise down), the step magnitude
/// from the optional step (default 1; magnitude 0 yields an empty
/// sequence), and generate.
pub open spec fn materialize_range(
    startb: BoundV,
    endb: BoundV,
    incl: bool,
    step: Option<BoundV>,
    m: Option<BoundV>,
) -> Result<Seq<i64>, Span> {
    match eval_bound(startb) {
        Err(sp) => Err(sp),
        Ok(sv) => match eval_bound(endb) {
            Err(sp) => Err(sp),
            Ok(ev) => {
                let up = ev >= sv;
                match step {
                    None => mat_rec(sv, ev, up, incl, 1, m),
                    Some(sb) => match eval_bound(sb) {
                        Err(sp) => Err(sp),
                        Ok(stepv) => if magnitude(stepv) == 0 {
                            Ok(Seq::empty())
                        } else {
                            mat_rec(sv, ev, up, incl, magnitude(stepv), m)
                        },
                    },
                }
            },
        },
    }
}

/// The flat integer contribution of one node.
pub open spec fn eval_node(n: NodeV) -> Result<Seq<i64>, Span> {
    match n {
        NodeV::Int { value, .. } => Ok(seq![value]),
        NodeV::Math { span, rpn } => match eval_rpn(rpn, 0, Seq::empty(), 0, span) {
            Ok(v) => Ok(seq![v]),
            Err(sp) => Err(sp),
        },
        NodeV::Range { start, end, inclusive, step, mutation, .. } => materialize_range(
            start,
            end,
            inclusive,
            step,
            mutation,
        ),
    }
}

/// The flat integer sequence of a node list from index `i` on, each
/// node's contribution in order.
pub open spec fn eval_nodes(nodes: Seq<NodeV>, i: int) -> Result<Seq<i64>, Span>
    decreases nodes.len() - i,
        when 0 <= i <= nodes.len()
{
    if i >= nodes.len() {
        Ok(Seq::empty())
    } else {
        match eval_node(nodes[i]) {
            Err(sp) => Err(sp),
            Ok(vs) => match eval_nodes(nodes, i + 1) {
                Ok(rest) => Ok(vs + rest),
                Err(sp) => Err(sp),
            },
        }
    }
}

/// Prepend already-generated values to an evaluation outcome.
pub open spec fn val_join(pre: Seq<i64>, r: Result<Seq<i64>, Span>) -> Result<Seq<i64>, Span> {
    match r {
        Ok(vs) => Ok(pre + vs),
        Err(sp) => Err(sp),
    }
}


/// An evaluation fault at `span`, reported like a structural parser
/// error.
fn fault(input: &Vec<char>, span: Span) -> (e: ParserError)
    ensures
        e.parts() == (input@, ParseErrKind::InvalidMathExpr, span),
{
    ParserError::InvalidMathExpr(clone_chars(input), span)
}

/// Zero times anything stays zero, whatever the exponent left.
proof fn lemma_pow_zero(e: nat)
    ensures
        pow_acc(0, 0, e) == Some(0i64),
    decreases e,
{
    if e > 0 {
        lemma_pow_zero((e - 1) as nat);
    }
}

/// One to any power leaves the accumulator unchanged.
proof fn lemma_pow_one(acc: i64, e: nat)
    ensures
        pow_acc(acc, 1, e) == Some(acc),
    decreases e,
{
    if e > 0 {
        lemma_pow_one(acc, (e - 1) as nat);
    }
}

/// Minus one to a power alternates the sign of a unit accumulator.
proof fn lemma_pow_neg_one(acc: i64, e: nat)
    requires
        acc == 1 || acc == -1,
    ensures
        pow_acc(acc, (-1) as i64, e) == Some(
            if e % 2 == 0 {
                acc
            } else {
                (-acc) as i64
            },
        ),
    decreases e,
{
    if e > 0 {
        lemma_pow_neg_one((-acc) as i64, (e - 1) as nat);
    }
}

/// `base` raised to the non-negative exponent `e` by repeated checked
/// multiplication; constant bases short-circuit so that huge exponents
/// terminate without iterating.
fn pow_exec(base: i64, e: i64) -> (r: Option<i64>)
    requires
        e >= 0,
    ensures
        r == pow_acc(1, base, e as nat),
{
    if base == 0 {
        if e == 0 {
            Some(1)
        } else {
            proof {
                lemma_pow_zero((e - 1) as nat);
            }
            Some(0)
        }
    } else if base == 1 {
        proof {
            lemma_pow_one(1, e as nat);
        }
        Some(1)
    } else if base == -1 {
        proof {
            lemma_pow_neg_one(1, e as nat);
        }
        if e % 2 == 0 {
            Some(1)
        } else {
            Some(-1)
        }
    } else {
        let mut acc: i64 = 1;
        let mut k: i64 = 0;
        while k < e
            invariant
                0 <= k <= e,
                pow_acc(1, base, e as nat) == pow_acc(acc, base, (e - k) as nat),
            decreases e - k,
        {
            match acc.checked_mul(base) {
                None => {
                    return None;
                },
                Some(v) => {
                    acc = v;
                },
            }
            k += 1;
        }
        Some(acc)
    }
}

/// Fold a postfix token sequence over a value stack; see [`eval_rpn`].
fn eval_rpn_exec(input: &Vec<char>, rpn: &Vec<Token>, elem: i64, whole: Span) -> (r: Result<
    i64,
    ParserError,
>)
    ensures
        match r {
            Ok(v) => eval_rpn(rpn@, 0, Seq::empty(), elem, whole) == Ok::<i64, Span>(v),
            Err(e) => eval_rpn(rpn@, 0, Seq::empty(), elem, whole) == Err::<i64, Span>(
                e.parts().2,
            ) && e.parts().0 == input@ && e.parts().1 == ParseErrKind::InvalidMathExpr,
        },
{
    let ghost rp = rpn@;
    let ghost target = eval_rpn(rp, 0, Seq::empty(), elem, whole);
    let n = rpn.len();
    let mut stack: Vec<i64> = Vec::new();
    let mut k: usize = 0;
    while k < n
        invariant
            rpn@ == rp,
            n == rp.len(),
            k <= n,
            target == eval_rpn(rp, 0, Seq::empty(), elem, whole),
            target == eval_rpn(rp, k as int, stack@, elem, whole),
        decreases n - k,
    {
        let ghost ev_prev = eval_rpn(rp, k as int, stack@, elem, whole);
        let ghost st0 = stack@;
        let t = rpn[k];
        match t.kind {
            TokenKind::Int { value } => {
                stack.push(value);
                proof {
                    assert(ev_prev == eval_rpn(rp, k + 1, st0.push(value), elem, whole));
                }
            },
            TokenKind::RngMutArg => {
                stack.push(elem);
                proof {
                    assert(ev_prev == eval_rpn(rp, k + 1, st0.push(elem), elem, whole));
                }
            },
            TokenKind::Math(op) => match op {
                Op::UnaryAdd => {
                    if stack.len() < 1 {
                        proof {
                            assert(ev_prev == Err::<i64, Span>(whole));
                        }
                        return Err(fault(input, whole));
                    }
                    proof {
                        assert(ev_prev == eval_rpn(rp, k + 1, st0, elem, whole));
                    }
                },
                Op::UnarySub => {
                    if stack.len() < 1 {
                        proof {
                            assert(ev_prev == Err::<i64, Span>(whole));
                        }
                        return Err(fault(input, whole));
                    }
                    let a = stack[stack.len() - 1];
                    if a == i64::MIN {
                        proof {
                            assert(ev_prev == Err::<i64, Span>(t.span));
                        }
                        return Err(fault(input, t.span));
                    }
                    let _ = stack.pop();
                    stack.push(-a);
                    proof {
                        assert(ev_prev == eval_rpn(
                            rp,
                            k + 1,
                            st0.drop_last().push((-a) as i64),
                            elem,
                            whole,
                        ));
                    }
                },
                _ => {
                    if stack.len() < 2 {
                        proof {
                            assert(ev_prev == Err::<i64, Span>(whole));
                        }
                        return Err(fault(input, whole));
                    }
                    let b = stack.pop().unwrap();
                    let a = stack.pop().unwrap();
                    proof {
                        assert(b == st0.last());
                        assert(a == st0[st0.len() - 2]);
                        assert(stack@ == st0.drop_last().drop_last());
                    }
                    let res: Option<i64> = match op {
                        Op::Add => a.checked_add(b),
                        Op::Sub => a.checked_sub(b),
                        Op::Mul => a.checked_mul(b),
                        Op::Div => {
                            if b == 0 {
                                None
                            } else {
                                a.checked_div(b)
                            }
                        },
                        Op::Mod => {
                            if b == 0 {
                                None
                            } else {
                                a.checked_rem(b)
                            }
                        },
                        Op::Pow => {
                            if b < 0 {
                                None
                            } else {
                                pow_exec(a, b)
                            }
                        },
                        _ => None,
                    };
                    proof {
                        if op == Op::Pow {
                            assert(res == pow64(a, b));
                        } else {
                            assert(res == apply_binop(op, a, b));
                        }
                    }
                    match res {
                        Some(v) => {
                            stack.push(v);
                            proof {
                                assert(ev_prev == eval_rpn(
                                    rp,
                                    k + 1,
                                    st0.drop_last().drop_last().push(v),
                                    elem,
                                    whole,
                                ));
                            }
                        },
                        None => {
                            proof {
                                assert(ev_prev == Err::<i64, Span>(t.span));
                            }
                            return Err(fault(input, t.span));
                        },
                    }
                },
            },
            _ => {
                proof {
                    assert(ev_prev == Err::<i64, Span>(whole));
                }
                return Err(fault(input, whole));
            },
        }
        k += 1;
    }
    if stack.len() == 1 {
        proof {
            assert(eval_rpn(rp, k as int, stack@, elem, whole) == Ok::<i64, Span>(stack@[0]));
        }
        Ok(stack[0])
    } else {
        proof {
            assert(eval_rpn(rp, k as int, stack@, elem, whole) == Err::<i64, Span>(whole));
        }
        Err(fault(input, whole))
    }
}

/// The integer value of a range bound node.  A nested range cannot occur
/// here (the parser's well-formedness rules it out); its placeholder
/// bound view evaluates to zero, mirrored exactly.
fn eval_bound_exec(input: &Vec<char>, n: &Node) -> (r: Result<i64, ParserError>)
    ensures
        match r {
            Ok(v) => eval_bound(n.bound_view()) == Ok::<i64, Span>(v),
            Err(e) => eval_bound(n.bound_view()) == Err::<i64, Span>(e.parts().2) && e.parts().0
                == input@ && e.parts().1 == ParseErrKind::InvalidMathExpr,
        },
{
    match n {
        Node::Int { value, .. } => Ok(*value),
        Node::MathExpr { span, rpn } => eval_rpn_exec(input, rpn, 0, *span),
        Node::RangeExpr { .. } => Ok(0),
    }
}

/// Apply the optional mutation to a generated position.
fn apply_mutation_exec(input: &Vec<char>, m: &Option<Box<Node>>, pos: i64) -> (r: Result<
    i64,
    ParserError,
>)
    ensures
        match r {
            Ok(v) => apply_mutation(opt_box_view(*m), pos) == Ok::<i64, Span>(v),
            Err(e) => apply_mutation(opt_box_view(*m), pos) == Err::<i64, Span>(e.parts().2)
                && e.parts().0 == input@ && e.parts().1 == ParseErrKind::InvalidMathExpr,
        },
{
    match m {
        None => Ok(pos),
        Some(b) => match &**b {
            Node::Int { value, .. } => Ok(*value),
            Node::MathExpr { span, rpn } => eval_rpn_exec(input, rpn, pos, *span),
            Node::RangeExpr { .. } => Ok(0),
        },
    }
}

/// The magnitude of a step value, as an unsigned 64-bit integer.
fn magnitude_exec(v: i64) -> (m: u64)
    ensures
        m == magnitude(v),
{
    if v >= 0 {
        v as u64
    } else if v == i64::MIN {
        9223372036854775808u64
    } else {
        (-v) as u64
    }
}

/// Whether a running position still lies within the range.
fn in_bounds_exec(pos: i64, endv: i64, up: bool, incl: bool) -> (b: bool)
    ensures
        b == in_bounds(pos as int, endv as int, up, incl),
{
    if up {
        if incl {
            pos <= endv
        } else {
            pos < endv
        }
    } else {
        if incl {
            pos >= endv
        } else {
            pos > endv
        }
    }
}

/// Materialize one range node's values; see [`mat_rec`].
fn materialize_exec(
    input: &Vec<char>,
    sv: i64,
    ev: i64,
    up: bool,
    incl: bool,
    mag: u64,
    m: &Option<Box<Node>>,
) -> (r: Result<Vec<i64>, ParserError>)
    requires
        mag >= 1,
    ensures
        ({
            let spec_r = mat_rec(sv, ev, up, incl, mag as nat, opt_box_view(*m));
            match r {
                Ok(vs) => spec_r == Ok::<Seq<i64>, Span>(vs@),
                Err(e) => spec_r == Err::<Seq<i64>, Span>(e.parts().2) && e.parts().0 == input@
                    && e.parts().1 == ParseErrKind::InvalidMathExpr,
            }
        }),
{
    let ghost mv = opt_box_view(*m);
    let ghost target = mat_rec(sv, ev, up, incl, mag as nat, mv);
    let mut res: Vec<i64> = Vec::new();
    let mut pos = sv;
    while in_bounds_exec(pos, ev, up, incl)
        invariant
            mag >= 1,
            mv == opt_box_view(*m),
            target == mat_rec(sv, ev, up, incl, mag as nat, mv),
            target == val_join(res@, mat_rec(pos, ev, up, incl, mag as nat, mv)),
        decreases mat_measure(pos as int, ev as int, up),
    {
        let ghost res_pre = res@;
        let ghost mr_prev = mat_rec(pos, ev, up, incl, mag as nat, mv);
        let v = match apply_mutation_exec(input, m, pos) {
            Ok(v) => v,
            Err(e) => {
                proof {
                    assert(mr_prev == Err::<Seq<i64>, Span>(e.parts().2));
                }
                return Err(e);
            },
        };
        res.push(v);
        let next = if up {
            pos.checked_add_unsigned(mag)
        } else {
            pos.checked_sub_unsigned(mag)
        };
        match next {
            None => {
                proof {
                    assert(mr_prev == Ok::<Seq<i64>, Span>(seq![v]));
                    assert(res_pre + seq![v] =~= res@);
                }
                return Ok(res);
            },
            Some(np) => {
                proof {
                    if in_bounds(np as int, ev as int, up, incl) {
                        assert(mr_prev == (match mat_rec(np, ev, up, incl, mag as nat, mv) {
                            Ok(rest) => Ok::<Seq<i64>, Span>(seq![v] + rest),
                            Err(sp) => Err::<Seq<i64>, Span>(sp),
                        }));
                        assert(forall|rest: Seq<i64>|
                            res_pre + (seq![v] + rest) =~= (res_pre + seq![v]) + rest);
                        assert(res_pre.push(v) =~= res_pre + seq![v]);
                    } else {
                        assert(mr_prev == Ok::<Seq<i64>, Span>(seq![v]));
                        assert(mat_rec(np, ev, up, incl, mag as nat, mv) == Ok::<Seq<i64>, Span>(
                            Seq::empty(),
                        ));
                        assert(res_pre + seq![v] =~= (res_pre + seq![v]) + Seq::<i64>::empty());
                        assert(res_pre.push(v) =~= res_pre + seq![v]);
                    }
                }
                pos = np;
            },
        }
    }
    proof {
        assert(mat_rec(pos, ev, up, incl, mag as nat, mv) == Ok::<Seq<i64>, Span>(Seq::empty()));
        assert(res@ + Seq::<i64>::empty() =~= res@);
    }
    Ok(res)
}

/// The flat integer contribution of one node.
fn eval_node_exec(input: &Vec<char>, n: &Node) -> (r: Result<Vec<i64>, ParserError>)
    ensures
        match r {
            Ok(vs) => eval_node(n@) == Ok::<Seq<i64>, Span>(vs@),
            Err(e) => eval_node(n@) == Err::<Seq<i64>, Span>(e.parts().2) && e.parts().0 == input@
                && e.parts().1 == ParseErrKind::InvalidMathExpr,
        },
{
    match n {
        Node::Int { value, .. } => {
            let mut out: Vec<i64> = Vec::new();
            out.push(*value);
            proof {
                assert(out@ =~= seq![*value]);
            }
            Ok(out)
        },
        Node::MathExpr { span, rpn } => match eval_rpn_exec(input, rpn, 0, *span) {
            Ok(v) => {
                let mut out: Vec<i64> = Vec::new();
                out.push(v);
                proof {
                    assert(out@ =~= seq![v]);
                }
                Ok(out)
            },
            Err(e) => Err(e),
        },
        Node::RangeExpr { start, end, inclusive, step, mutation, .. } => {
            let sv = match eval_bound_exec(input, start) {
                Ok(v) => v,
                Err(e) => {
                    return Err(e);
                },
            };
            let ev = match eval_bound_exec(input, end) {
                Ok(v) => v,
                Err(e) => {
                    return Err(e);
                },
            };
            let up = ev >= sv;
            let mag: u64 = match step {
                None => 1,
                Some(sb) => {
                    let stepv = match eval_bound_exec(input, sb) {
                        Ok(v) => v,
                        Err(e) => {
                            return Err(e);
                        },
                    };
                    magnitude_exec(stepv)
                },
            };
            if mag == 0 {
                let out: Vec<i64> = Vec::new();
                return Ok(out);
            }
            materialize_exec(input, sv, ev, up, *inclusive, mag, mutation)
        },
    }
}

/// Reduce a parsed node list to the final flat integer sequence, in
/// left-to-right item order: each literal or arithmetic node contributes
/// its single value, each range its materialized elements.  The result is
/// exactly [`eval_nodes`] over the node views; an evaluation fault
/// (division or remainder by zero, a negative exponent, a result outside
/// the `i64` range) is returned as an `InvalidMathExpr` carrying
/// `input_chars` and the offending operator's span.
pub fn evaluate_and_materialize(input_chars: &Vec<char>, nodes: &Vec<Node>) -> (r: Result<
    Vec<i64>,
    ParserError,
>)
    ensures
        match r {
            Ok(vs) => eval_nodes(views_of(nodes@), 0) == Ok::<Seq<i64>, Span>(vs@),
            Err(e) => eval_nodes(views_of(nodes@), 0) == Err::<Seq<i64>, Span>(e.parts().2)
                && e.parts().0 == input_chars@ && e.parts().1 == ParseErrKind::InvalidMathExpr,
        },
{
    let ghost nvs = views_of(nodes@);
    let ghost target = eval_nodes(nvs, 0);
    let n = nodes.len();
    let mut out: Vec<i64> = Vec::new();
    let mut k: usize = 0;
    while k < n
        invariant
            nvs == views_of(nodes@),
            n == nodes@.len(),
            k <= n,
            nvs.len() == n,
            target == eval_nodes(nvs, 0),
            target == val_join(out@, eval_nodes(nvs, k as int)),
        decreases n - k,
    {
        let ghost out_pre = out@;
        let ghost en_prev = eval_nodes(nvs, k as int);
        match eval_node_exec(input_chars, &nodes[k]) {
            Err(e) => {
                proof {
                    assert(nodes@[k as int]@ == nvs[k as int]);
                    assert(en_prev == Err::<Seq<i64>, Span>(e.parts().2));
                }
                return Err(e);
            },
            Ok(vs) => {
                proof {
                    assert(nodes@[k as int]@ == nvs[k as int]);
                }
                let mut j: usize = 0;
                let vn = vs.len();
                while j < vn
                    invariant
                        j <= vn,
                        vn == vs@.len(),
                        out@ == out_pre + vs@.subrange(0, j as int),
                    decreases vn - j,
                {
                    out.push(vs[j]);
                    proof {
                        assert(out@ =~= out_pre + vs@.subrange(0, j + 1));
                    }
                    j += 1;
                }
                proof {
                    assert(vs@.subrange(0, vn as int) =~= vs@);
                    assert(en_prev == (match eval_nodes(nvs, k as int + 1) {
                        Ok(rest) => Ok::<Seq<i64>, Span>(vs@ + rest),
                        Err(sp) => Err::<Seq<i64>, Span>(sp),
                    }));
                    assert(forall|rest: Seq<i64>|
                        out_pre + (vs@ + rest) =~= (out_pre + vs@) + rest);
                }
                k += 1;
            },
        }
    }
    proof {
        assert(eval_nodes(nvs, k as int) == Ok::<Seq<i64>, Span>(Seq::empty()));
        assert(out@ + Seq::<i64>::empty() =~= out@);
    }
    Ok(out)
}

/// Law: an inclusive range whose end is reachable from the running
/// position by `k` whole steps materializes (without a mutation) a
/// non-empty sequence whose last element is exactly the end.
pub proof fn lemma_inclusive_last_is_end(pos: i64, endv: i64, up: bool, mag: nat, k: nat)
    requires
        mag >= 1,
        up ==> pos + k * mag == endv,
        !up ==> pos - k * mag == endv,
    ensures
        mat_rec(pos, endv, up, true, mag, None) matches Ok(s) && s.len() > 0 && s.last() == endv,
    decreases k,
{
    assert(k * mag >= 0) by (nonlinear_arith);
    if k == 0 {
        assert(k * mag == 0) by (nonlinear_arith)
            requires
                k == 0,
        ;
        assert(pos == endv);
        assert(mat_rec(pos, endv, up, true, mag, None) == Ok::<Seq<i64>, Span>(seq![pos]));
    } else {
        assert(k * mag == (k - 1) * mag + mag) by (nonlinear_arith)
            requires
                k >= 1,
        ;
        assert((k - 1) * mag >= 0) by (nonlinear_arith)
            requires
                k >= 1 && mag >= 0,
        ;
        let next: i64 = if up {
            (pos + mag) as i64
        } else {
            (pos - mag) as i64
        };
        lemma_inclusive_last_is_end(next, endv, up, mag, (k - 1) as nat);
        let rest = mat_rec(next, endv, up, true, mag, None)->Ok_0;
        assert(mat_rec(pos, endv, up, true, mag, None) == Ok::<Seq<i64>, Span>(
            seq![pos] + rest,
        ));
        assert((seq![pos] + rest).last() == rest.last());
    }
}

/// Law: an exclusive range never contains its end: every element the
/// materialization (without a mutation) emits differs from the end.
pub proof fn lemma_exclusive_excludes_end(pos: i64, endv: i64, up: bool, mag: nat)
    requires
        mag >= 1,
    ensures
        mat_rec(pos, endv, up, false, mag, None) matches Ok(s) && (forall|x: int|
            0 <= x < s.len() ==> s[x] != endv),
    decreases mat_measure(pos as int, endv as int, up),
{
    if in_bounds(pos as int, endv as int, up, false) {
        let next = if up {
            pos + mag
        } else {
            pos - mag
        };
        if !(next < i64::MIN || next > i64::MAX || !in_bounds(next, endv as int, up, false)) {
            lemma_exclusive_excludes_end(next as i64, endv, up, mag);
            let rest = mat_rec(next as i64, endv, up, false, mag, None)->Ok_0;
            assert(mat_rec(pos, endv, up, false, mag, None) == Ok::<Seq<i64>, Span>(
                seq![pos] + rest,
            ));
            assert(forall|x: int|
                0 <= x < (seq![pos] + rest).len() ==> (seq![pos] + rest)[x] == (if x == 0 {
                    pos
                } else {
                    rest[x - 1]
                }));
        }
    }
}

/// Law, at the range level: a default-step inclusive range `{a..=b}`
/// without a mutation always materializes a non-empty sequence whose last
/// element is exactly `b` (with step 1 the end is always reachable by
/// whole steps); the exclusive range `{a..b}` never contains `b`.
pub proof fn lemma_default_range_end(sa: Span, sb: Span, a: i64, b: i64)
    ensures
        materialize_range(
            BoundV::Int { span: sa, value: a },
            BoundV::Int { span: sb, value: b },
            true,
            None,
            None,
        ) matches Ok(s) && s.len() > 0 && s.last() == b,
        materialize_range(
            BoundV::Int { span: sa, value: a },
            BoundV::Int { span: sb, value: b },
            false,
            None,
            None,
        ) matches Ok(s) && (forall|x: int| 0 <= x < s.len() ==> s[x] != b),
{
    let up = b >= a;
    let k: nat = if up {
        (b - a) as nat
    } else {
        (a - b) as nat
    };
    assert(k * 1 == k) by (nonlinear_arith);
    lemma_inclusive_last_is_end(a, b, up, 1, k);
    lemma_exclusive_excludes_end(a, b, up, 1);
}

} // verus!
