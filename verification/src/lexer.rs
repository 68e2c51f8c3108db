//! The lexer: scans the input character sequence left to right and emits a
//! flat list of typed [`Token`]s, or the first [`LexicalError`].
//!
//! The whole scan is specified by the recursive function [`spec_lex`]; the
//! executable [`Lexer::lex`] is proved to return exactly its value.  One
//! piece of contextual state is tracked: whether scanning is currently
//! inside a brace-delimited range (`{` sets it, `}` clears it), which gates
//! the range-only tokens `s:`, `m:` and `@`.

use crate::errors::{clone_chars, LexErrKind, LexicalError};
use crate::tokens::{Op, Span, Token, TokenKind};
use vstd::prelude::*;
use vstd::string::*;

verus! {

/// A decimal digit `0`..`9`.
pub open spec fn is_digit(c: char) -> bool {
    48 <= c as u32 && c as u32 <= 57
}

/// A character that may appear in a digit run: a digit or the visual
/// separator `_`, which contributes no value.
pub open spec fn is_digit_or_sep(c: char) -> bool {
    is_digit(c) || c == '_'
}

/// Numeric value of a digit character.
pub open spec fn digit_val(c: char) -> int {
    c as u32 - 48
}

/// The operator tag for a single operator character, if it is one.
pub open spec fn math_op(c: char) -> Option<Op> {
    if c == '+' {
        Some(Op::Add)
    } else if c == '-' {
        Some(Op::Sub)
    } else if c == '*' {
        Some(Op::Mul)
    } else if c == '/' {
        Some(Op::Div)
    } else if c == '^' {
        Some(Op::Pow)
    } else if c == '%' {
        Some(Op::Mod)
    } else {
        None
    }
}

/// A span covering the single 1-indexed position `pos`.
pub open spec fn span_at(pos: int) -> Span {
    Span { start: pos as usize, end: pos as usize }
}

/// A single-character token at 1-indexed position `pos`.
pub open spec fn token_at(kind: TokenKind, pos: int) -> Token {
    Token { kind, span: span_at(pos) }
}

/// First 1-indexed position at or after `pos` that is past the maximal run
/// of digits and `_` separators starting at `pos`.
pub open spec fn run_end(s: Seq<char>, pos: int) -> int
    decreases s.len() + 1 - pos,
        when 1 <= pos <= s.len() + 1
{
    if pos > s.len() {
        pos
    } else if is_digit_or_sep(s[pos - 1]) {
        run_end(s, pos + 1)
    } else {
        pos
    }
}

/// Value of the digit run over positions `pos..end` (underscores skipped),
/// accumulated onto `acc` most-significant-first.
pub open spec fn run_value(s: Seq<char>, pos: int, end: int, acc: int) -> int
    decreases end - pos,
        when pos <= end
{
    if pos >= end {
        acc
    } else if s[pos - 1] == '_' {
        run_value(s, pos + 1, end, acc)
    } else {
        run_value(s, pos + 1, end, acc * 10 + digit_val(s[pos - 1]))
    }
}

/// Scan of a range-syntax run (`.` and `=` characters) that started at
/// 1-indexed position `start`; `dots` dots seen so far, `incl` whether an
/// `=` was seen, `prev_eq` whether the previous character was an `=`.
/// Returns the emitted token and the position after the run, or the error.
///
/// Exactly two dots are required; a stray `=` directly after another `=`,
/// or an `=` preceding a further `.`, is reported where it is seen.
pub open spec fn range_scan(
    s: Seq<char>,
    start: int,
    pos: int,
    dots: int,
    incl: bool,
    prev_eq: bool,
) -> Result<(Token, int), (LexErrKind, Span)>
    decreases s.len() + 1 - pos,
        when 1 <= pos <= s.len() + 1
{
    if pos > s.len() || (s[pos - 1] != '.' && s[pos - 1] != '=') {
        if dots == 2 {
            let kind = if incl {
                TokenKind::RngInclusive
            } else {
                TokenKind::RngExclusive
            };
            Ok((Token { kind, span: Span { start: start as usize, end: (pos - 1) as usize } }, pos))
        } else {
            Err((LexErrKind::InvalidRange, Span { start: start as usize, end: (pos - 1) as usize }))
        }
    } else if prev_eq {
        Err((LexErrKind::UnexpectedEqual, Span { start: start as usize, end: pos as usize }))
    } else if s[pos - 1] == '.' {
        range_scan(s, start, pos + 1, dots + 1, incl, false)
    } else {
        range_scan(s, start, pos + 1, dots, true, true)
    }
}

/// Scan of an `s:`/`m:` range argument marker whose letter stands at
/// 1-indexed position `pos`; legal only inside brace context and only when
/// the letter is immediately followed by `:`.
pub open spec fn range_arg_scan(s: Seq<char>, pos: int, insq: bool) -> Result<
    (Token, int),
    (LexErrKind, Span),
> {
    if !insq {
        Err((LexErrKind::MisplacedRngSyntax, span_at(pos)))
    } else if pos == s.len() || s[pos] != ':' {
        Err((LexErrKind::MissingColon, span_at(pos)))
    } else {
        let kind = if s[pos - 1] == 's' {
            TokenKind::RngStep
        } else {
            TokenKind::RngMutation
        };
        Ok((Token { kind, span: Span { start: pos as usize, end: (pos + 1) as usize } }, pos + 2))
    }
}

/// Prepend one token to a lexing outcome.
pub open spec fn lex_cons(t: Token, r: Result<Seq<Token>, (LexErrKind, Span)>) -> Result<
    Seq<Token>,
    (LexErrKind, Span),
> {
    match r {
        Ok(ts) => Ok(seq![t] + ts),
        Err(e) => Err(e),
    }
}

/// Prepend an already-emitted token list to a lexing outcome.
pub open spec fn lex_join(pre: Seq<Token>, r: Result<Seq<Token>, (LexErrKind, Span)>) -> Result<
    Seq<Token>,
    (LexErrKind, Span),
> {
    match r {
        Ok(ts) => Ok(pre + ts),
        Err(e) => Err(e),
    }
}

/// The lexer, specified: the token list (or first error) produced by
/// scanning `s` from 1-indexed position `pos` with brace-context flag
/// `insq`.
///
/// Spaces are skipped; `,` and the operator and delimiter characters emit
/// single-character tokens (`{`/`}` toggling the brace context); a digit
/// starts a number run, a `.` starts a range run, `s`/`m` start a range
/// argument marker and `@` is the mutation placeholder, legal only inside
/// braces; any other character is an invalid token.  A number whose value
/// exceeds `i64::MAX` is reported as too large, spanning the whole run.
pub open spec fn spec_lex(s: Seq<char>, pos: int, insq: bool) -> Result<
    Seq<Token>,
    (LexErrKind, Span),
>
    decreases s.len() + 1 - pos,
        when 1 <= pos <= s.len() + 1 via spec_lex_decreases
{
    if pos > s.len() {
        Ok(Seq::empty())
    } else {
        let c = s[pos - 1];
        if c == ' ' {
            spec_lex(s, pos + 1, insq)
        } else if c == ',' {
            lex_cons(token_at(TokenKind::Comma, pos), spec_lex(s, pos + 1, insq))
        } else if c == '@' {
            if insq {
                lex_cons(token_at(TokenKind::RngMutArg, pos), spec_lex(s, pos + 1, insq))
            } else {
                Err((LexErrKind::MisplacedRngSyntax, span_at(pos)))
            }
        } else if is_digit(c) {
            let e = run_end(s, pos);
            let v = run_value(s, pos, e, 0);
            let sp = Span { start: pos as usize, end: (e - 1) as usize };
            if v > i64::MAX {
                Err((LexErrKind::NumberTooLarge, sp))
            } else {
                lex_cons(
                    Token { kind: TokenKind::Int { value: v as i64 }, span: sp },
                    spec_lex(s, e, insq),
                )
            }
        } else if c == '.' {
            match range_scan(s, pos, pos, 0, false, false) {
                Ok((t, next)) => lex_cons(t, spec_lex(s, next, insq)),
                Err(e) => Err(e),
            }
        } else if c == 's' || c == 'm' {
            match range_arg_scan(s, pos, insq) {
                Ok((t, next)) => lex_cons(t, spec_lex(s, next, insq)),
                Err(e) => Err(e),
            }
        } else if math_op(c) is Some {
            lex_cons(token_at(TokenKind::Math(math_op(c)->0), pos), spec_lex(s, pos + 1, insq))
        } else if c == '(' {
            lex_cons(token_at(TokenKind::LParen, pos), spec_lex(s, pos + 1, insq))
        } else if c == ')' {
            lex_cons(token_at(TokenKind::RParen, pos), spec_lex(s, pos + 1, insq))
        } else if c == '{' {
            lex_cons(token_at(TokenKind::LSquiggly, pos), spec_lex(s, pos + 1, true))
        } else if c == '}' {
            lex_cons(token_at(TokenKind::RSquiggly, pos), spec_lex(s, pos + 1, false))
        } else {
            Err((LexErrKind::InvalidToken, span_at(pos)))
        }
    }
}

#[via_fn]
proof fn spec_lex_decreases(s: Seq<char>, pos: int, insq: bool) {
    if 1 <= pos <= s.len() {
        lemma_run_end_bounds(s, pos);
        lemma_run_end_bounds(s, pos + 1);
        lemma_range_scan_bounds(s, pos, pos, 0, false, false);
    }
}

/// The run end lies between `pos` and one past the end of the input.
proof fn lemma_run_end_bounds(s: Seq<char>, pos: int)
    requires
        1 <= pos <= s.len() + 1,
    ensures
        pos <= run_end(s, pos) <= s.len() + 1,
    decreases s.len() + 1 - pos,
{
    if pos <= s.len() && is_digit_or_sep(s[pos - 1]) {
        lemma_run_end_bounds(s, pos + 1);
    }
}

/// Every character strictly inside the run is a digit or separator.
proof fn lemma_run_region(s: Seq<char>, pos: int)
    requires
        1 <= pos <= s.len() + 1,
    ensures
        forall|k: int| pos <= k < run_end(s, pos) ==> is_digit_or_sep(#[trigger] s[k - 1]),
    decreases s.len() + 1 - pos,
{
    if pos <= s.len() && is_digit_or_sep(s[pos - 1]) {
        lemma_run_region(s, pos + 1);
    }
}

/// A successful range scan consumes at least the two required dots and
/// stops within the input.
proof fn lemma_range_scan_bounds(
    s: Seq<char>,
    start: int,
    pos: int,
    dots: int,
    incl: bool,
    prev_eq: bool,
)
    requires
        1 <= pos <= s.len() + 1,
    ensures
        range_scan(s, start, pos, dots, incl, prev_eq) matches Ok((t, next)) ==> pos <= next
            <= s.len() + 1 && next - pos >= 2 - dots,
    decreases s.len() + 1 - pos,
{
    if pos <= s.len() && (s[pos - 1] == '.' || s[pos - 1] == '=') && !prev_eq {
        if s[pos - 1] == '.' {
            lemma_range_scan_bounds(s, start, pos + 1, dots + 1, incl, false);
        } else {
            lemma_range_scan_bounds(s, start, pos + 1, dots, true, true);
        }
    }
}

/// Accumulating further digits never decreases the value.
proof fn lemma_run_value_lower_bound(s: Seq<char>, pos: int, end: int, acc: int)
    requires
        pos <= end,
        acc >= 0,
        forall|k: int| pos <= k < end ==> is_digit_or_sep(#[trigger] s[k - 1]),
    ensures
        run_value(s, pos, end, acc) >= acc,
    decreases end - pos,
{
    if pos < end {
        if s[pos - 1] == '_' {
            lemma_run_value_lower_bound(s, pos + 1, end, acc);
        } else {
            assert(is_digit(s[pos - 1]));
            lemma_run_value_lower_bound(s, pos + 1, end, acc * 10 + digit_val(s[pos - 1]));
        }
    }
}

/// True when the digit run continues at 1-indexed position `i`.
fn run_continues(v: &Vec<char>, i: usize) -> (b: bool)
    requires
        1 <= i,
    ensures
        b == (i <= v@.len() && is_digit_or_sep(v@[i - 1])),
{
    if i <= v.len() {
        let c = v[i - 1];
        (c as u32 >= 48 && c as u32 <= 57) || c == '_'
    } else {
        false
    }
}

/// True when the range-syntax run continues at 1-indexed position `i`.
fn range_continues(v: &Vec<char>, i: usize) -> (b: bool)
    requires
        1 <= i,
    ensures
        b == (i <= v@.len() && (v@[i - 1] == '.' || v@[i - 1] == '=')),
{
    if i <= v.len() {
        let c = v[i - 1];
        c == '.' || c == '='
    } else {
        false
    }
}

/// The lexer's state: the input as characters, the 1-indexed position of
/// the next character to scan, and the brace-context flag.
#[derive(Debug)]
pub struct Lexer {
    pub input_chars: Vec<char>,
    pub position: usize,
    pub in_squiggly: bool,
}

impl Lexer {
    /// Internal well-formedness: the cursor lies within the input,
    /// 1-indexed, or one past its end.  (The length bound is a machine
    /// limit: the position after the last character must fit a `usize`.)
    pub open spec fn wf(self) -> bool {
        &&& 1 <= self.position <= self.input_chars@.len() + 1
        &&& self.input_chars@.len() < usize::MAX
    }

    pub open spec fn spec_position(self) -> int {
        self.position as int
    }

    pub open spec fn spec_in_squiggly(self) -> bool {
        self.in_squiggly
    }

    /// A fresh lexer over `input`, positioned at its first character,
    /// outside brace context.  (The length bound is a machine limit.)
    pub fn new(input: &str) -> (l: Lexer)
        requires
            input@.len() < usize::MAX,
        ensures
            l.input_chars@ == input@,
            l.spec_position() == 1,
            !l.spec_in_squiggly(),
            l.wf(),
    {
        let n = input.unicode_len();
        let mut v: Vec<char> = Vec::new();
        let mut i: usize = 0;
        while i < n
            invariant
                n == input@.len(),
                i <= n,
                v@ == input@.subrange(0, i as int),
            decreases n - i,
        {
            v.push(input.get_char(i));
            i += 1;
        }
        assert(v@ =~= input@);
        Lexer { input_chars: v, position: 1, in_squiggly: false }
    }

    /// Step the cursor past the current character.
    fn advance(&mut self)
        requires
            old(self).wf(),
            old(self).spec_position() <= old(self).input_chars@.len(),
        ensures
            final(self).input_chars@ == old(self).input_chars@,
            final(self).spec_position() == old(self).spec_position() + 1,
            final(self).spec_in_squiggly() == old(self).spec_in_squiggly(),
            final(self).wf(),
    {
        self.position += 1;
    }

    /// Scan the maximal digit/underscore run at the cursor and emit its
    /// `Int` token, or report the number as too large, spanning the run.
    fn tokenize_numbers(&mut self) -> (r: Result<Token, LexicalError>)
        requires
            old(self).wf(),
            old(self).spec_position() <= old(self).input_chars@.len(),
            is_digit(old(self).input_chars@[old(self).spec_position() - 1]),
        ensures
            final(self).input_chars@ == old(self).input_chars@,
            final(self).spec_in_squiggly() == old(self).spec_in_squiggly(),
            final(self).wf(),
            ({
                let s = old(self).input_chars@;
                let p = old(self).spec_position();
                let e = run_end(s, p);
                let v = run_value(s, p, e, 0);
                let sp = Span { start: p as usize, end: (e - 1) as usize };
                &&& final(self).spec_position() == e
                &&& if v > i64::MAX {
                    r matches Err(err) && err.parts() == (s, LexErrKind::NumberTooLarge, sp)
                } else {
                    r matches Ok(t) && t == (Token {
                        kind: TokenKind::Int { value: v as i64 },
                        span: sp,
                    })
                }
            }),
    {
        let ghost s = self.input_chars@;
        let start_pos = self.position;
        let ghost e = run_end(s, start_pos as int);
        proof {
            lemma_run_end_bounds(s, start_pos as int);
            lemma_run_region(s, start_pos as int);
        }
        while run_continues(&self.input_chars, self.position)
            invariant
                self.input_chars@ == s,
                s == old(self).input_chars@,
                s.len() < usize::MAX,
                self.in_squiggly == old(self).in_squiggly,
                1 <= start_pos <= self.position <= s.len() + 1,
                e == run_end(s, self.position as int),
                e == run_end(s, start_pos as int),
            decreases s.len() + 1 - self.position,
        {
            proof {
                assert(run_end(s, self.position as int) == run_end(s, self.position + 1));
            }
            self.position += 1;
        }
        assert(self.position as int == e);
        // Second pass: accumulate the value, stopping once it can no
        // longer fit a signed 64-bit integer.
        let mut acc: u128 = 0;
        let mut j = start_pos;
        while j < self.position && acc <= 0x7fff_ffff_ffff_ffff
            invariant
                self.input_chars@ == s,
                s == old(self).input_chars@,
                self.in_squiggly == old(self).in_squiggly,
                1 <= start_pos <= j <= self.position,
                self.position as int == e,
                e == run_end(s, start_pos as int),
                e <= s.len() + 1,
                s.len() < usize::MAX,
                run_value(s, start_pos as int, e, 0) == run_value(s, j as int, e, acc as int),
            decreases e - j,
        {
            proof {
                lemma_run_region(s, start_pos as int);
            }
            let c = self.input_chars[j - 1];
            if c != '_' {
                assert(is_digit(s[j as int - 1]));
                acc = acc * 10 + (c as u32 - 48) as u128;
            }
            j += 1;
        }
        let ghost v = run_value(s, start_pos as int, e, 0);
        proof {
            lemma_run_region(s, start_pos as int);
            lemma_run_value_lower_bound(s, j as int, e, acc as int);
        }
        let sp = Span::new(start_pos, self.position - 1);
        if j < self.position || acc > 0x7fff_ffff_ffff_ffff {
            assert(v > i64::MAX);
            Err(LexicalError::NumberTooLarge(clone_chars(&self.input_chars), sp))
        } else {
            assert(acc as int == v);
            Ok(Token::new(TokenKind::Int { value: acc as i64 }, sp))
        }
    }

    /// Scan a `.`/`=` run and emit the range token (`..` or `..=`), or the
    /// error the run contains.
    fn tokenize_range(&mut self) -> (r: Result<Token, LexicalError>)
        requires
            old(self).wf(),
            old(self).spec_position() <= old(self).input_chars@.len(),
            old(self).input_chars@[old(self).spec_position() - 1] == '.',
        ensures
            final(self).input_chars@ == old(self).input_chars@,
            final(self).spec_in_squiggly() == old(self).spec_in_squiggly(),
            final(self).wf(),
            ({
                let s = old(self).input_chars@;
                let p = old(self).spec_position();
                match range_scan(s, p, p, 0, false, false) {
                    Ok((t, next)) => r matches Ok(tok) && tok == t && final(self).spec_position()
                        == next,
                    Err((k, sp)) => r matches Err(err) && err.parts() == (s, k, sp),
                }
            }),
    {
        let ghost s = self.input_chars@;
        let start_pos = self.position;
        let mut dots: usize = 0;
        let mut incl = false;
        let mut prev_eq = false;
        while range_continues(&self.input_chars, self.position)
            invariant
                self.input_chars@ == s,
                s == old(self).input_chars@,
                s.len() < usize::MAX,
                self.in_squiggly == old(self).in_squiggly,
                1 <= start_pos <= self.position <= s.len() + 1,
                start_pos == old(self).spec_position(),
                dots <= self.position - start_pos,
                range_scan(s, start_pos as int, start_pos as int, 0, false, false) == range_scan(
                    s,
                    start_pos as int,
                    self.position as int,
                    dots as int,
                    incl,
                    prev_eq,
                ),
            decreases s.len() + 1 - self.position,
        {
            let c = self.input_chars[self.position - 1];
            if prev_eq {
                proof {
                    assert(range_scan(
                        s,
                        start_pos as int,
                        self.position as int,
                        dots as int,
                        incl,
                        prev_eq,
                    ) == Err::<(Token, int), (LexErrKind, Span)>(
                        (
                            LexErrKind::UnexpectedEqual,
                            Span { start: start_pos, end: self.position },
                        ),
                    ));
                }
                return Err(LexicalError::UnexpectedEqual(
                    clone_chars(&self.input_chars),
                    Span::new(start_pos, self.position),
                ));
            }
            if c == '.' {
                dots += 1;
            } else {
                incl = true;
                prev_eq = true;
            }
            self.position += 1;
        }
        let sp = Span::new(start_pos, self.position - 1);
        assert(range_scan(s, start_pos as int, start_pos as int, 0, false, false) == range_scan(
            s,
            start_pos as int,
            self.position as int,
            dots as int,
            incl,
            prev_eq,
        ));
        if dots != 2 {
            return Err(LexicalError::InvalidRange(clone_chars(&self.input_chars), sp));
        }
        let kind = if incl {
            TokenKind::RngInclusive
        } else {
            TokenKind::RngExclusive
        };
        Ok(Token::new(kind, sp))
    }

    /// Scan an `s:`/`m:` range argument marker at the cursor.
    fn tokenize_range_arg(&mut self) -> (r: Result<Token, LexicalError>)
        requires
            old(self).wf(),
            old(self).spec_position() <= old(self).input_chars@.len(),
            old(self).input_chars@[old(self).spec_position() - 1] == 's' || old(
                self,
            ).input_chars@[old(self).spec_position() - 1] == 'm',
        ensures
            final(self).input_chars@ == old(self).input_chars@,
            final(self).spec_in_squiggly() == old(self).spec_in_squiggly(),
            final(self).wf(),
            ({
                let s = old(self).input_chars@;
                let p = old(self).spec_position();
                match range_arg_scan(s, p, old(self).spec_in_squiggly()) {
                    Ok((t, next)) => r matches Ok(tok) && tok == t && final(self).spec_position()
                        == next,
                    Err((k, sp)) => r matches Err(err) && err.parts() == (s, k, sp),
                }
            }),
    {
        let p = self.position;
        if !self.in_squiggly {
            return Err(LexicalError::MisplacedRngSyntax(
                clone_chars(&self.input_chars),
                Span::new(p, p),
            ));
        }
        if p == self.input_chars.len() || self.input_chars[p] != ':' {
            return Err(LexicalError::MissingColon(clone_chars(&self.input_chars), Span::new(p, p)));
        }
        let c = self.input_chars[p - 1];
        let kind = if c == 's' {
            TokenKind::RngStep
        } else {
            TokenKind::RngMutation
        };
        self.position = p + 2;
        Ok(Token::new(kind, Span::new(p, p + 1)))
    }

    /// Emit the single-character operator token at the cursor.
    fn tokenize_operator(&mut self) -> (t: Token)
        requires
            old(self).wf(),
            old(self).spec_position() <= old(self).input_chars@.len(),
            math_op(old(self).input_chars@[old(self).spec_position() - 1]) is Some,
        ensures
            final(self).input_chars@ == old(self).input_chars@,
            final(self).spec_in_squiggly() == old(self).spec_in_squiggly(),
            final(self).wf(),
            final(self).spec_position() == old(self).spec_position() + 1,
            t == token_at(
                TokenKind::Math(math_op(old(self).input_chars@[old(self).spec_position() - 1])->0),
                old(self).spec_position(),
            ),
    {
        let p = self.position;
        let c = self.input_chars[p - 1];
        let op = if c == '+' {
            Op::Add
        } else if c == '-' {
            Op::Sub
        } else if c == '*' {
            Op::Mul
        } else if c == '/' {
            Op::Div
        } else if c == '^' {
            Op::Pow
        } else {
            Op::Mod
        };
        self.position = p + 1;
        Token::new(TokenKind::Math(op), Span::new(p, p))
    }

    /// Emit the delimiter token at the cursor, toggling the brace-context
    /// flag on `{` and `}`.
    fn tokenize_parenteses(&mut self) -> (t: Token)
        requires
            old(self).wf(),
            old(self).spec_position() <= old(self).input_chars@.len(),
            ({
                let c = old(self).input_chars@[old(self).spec_position() - 1];
                c == '(' || c == ')' || c == '{' || c == '}'
            }),
        ensures
            final(self).input_chars@ == old(self).input_chars@,
            final(self).wf(),
            final(self).spec_position() == old(self).spec_position() + 1,
            ({
                let c = old(self).input_chars@[old(self).spec_position() - 1];
                let kind = if c == '(' {
                    TokenKind::LParen
                } else if c == ')' {
                    TokenKind::RParen
                } else if c == '{' {
                    TokenKind::LSquiggly
                } else {
                    TokenKind::RSquiggly
                };
                &&& t == token_at(kind, old(self).spec_position())
                &&& final(self).spec_in_squiggly() == (if c == '{' {
                    true
                } else if c == '}' {
                    false
                } else {
                    old(self).spec_in_squiggly()
                })
            }),
    {
        let p = self.position;
        let c = self.input_chars[p - 1];
        let kind = if c == '(' {
            TokenKind::LParen
        } else if c == ')' {
            TokenKind::RParen
        } else if c == '{' {
            self.in_squiggly = true;
            TokenKind::LSquiggly
        } else {
            self.in_squiggly = false;
            TokenKind::RSquiggly
        };
        self.position = p + 1;
        Token::new(kind, Span::new(p, p))
    }

    /// Scan the whole input from the cursor and return the token list, or
    /// the first error.  The result is exactly [`spec_lex`] of the input;
    /// in particular it depends on nothing but the input characters, and an
    /// error always carries the full input together with the span of the
    /// offending substring.
    pub fn lex(&mut self) -> (r: Result<Vec<Token>, LexicalError>)
        requires
            old(self).wf(),
        ensures
            final(self).input_chars@ == old(self).input_chars@,
            final(self).wf(),
            ({
                let spec_r = spec_lex(
                    old(self).input_chars@,
                    old(self).spec_position(),
                    old(self).spec_in_squiggly(),
                );
                match r {
                    Ok(ts) => spec_r == Ok::<Seq<Token>, (LexErrKind, Span)>(ts@),
                    Err(e) => spec_r == Err::<Seq<Token>, (LexErrKind, Span)>(
                        (e.parts().1, e.parts().2),
                    ) && e.parts().0 == old(self).input_chars@,
                }
            }),
    {
        let ghost s = self.input_chars@;
        let ghost pos0 = self.spec_position();
        let ghost insq0 = self.spec_in_squiggly();
        let mut tokens: Vec<Token> = Vec::new();
        while self.position <= self.input_chars.len()
            invariant
                self.wf(),
                self.input_chars@ == s,
                s == old(self).input_chars@,
                pos0 == old(self).spec_position(),
                insq0 == old(self).spec_in_squiggly(),
                lex_join(tokens@, spec_lex(s, self.spec_position(), self.spec_in_squiggly()))
                    == spec_lex(s, pos0, insq0),
            decreases s.len() + 1 - self.position,
        {
            let ghost pos_i = self.spec_position();
            let ghost insq_i = self.spec_in_squiggly();
            let ghost tokens_pre = tokens@;
            let c = self.input_chars[self.position - 1];
            if c == ' ' {
                self.advance();
                proof {
                    assert(spec_lex(s, pos_i, insq_i) == spec_lex(s, pos_i + 1, insq_i));
                }
            } else if c == ',' {
                let t = Token::new(TokenKind::Comma, Span::new(self.position, self.position));
                tokens.push(t);
                self.advance();
                proof {
                    assert(spec_lex(s, pos_i, insq_i) == lex_cons(
                        t,
                        spec_lex(s, pos_i + 1, insq_i),
                    ));
                    lemma_join_push(tokens_pre, t, spec_lex(s, pos_i + 1, insq_i));
                }
            } else if c == '@' {
                if !self.in_squiggly {
                    proof {
                        assert(spec_lex(s, pos_i, insq_i) == Err::<Seq<Token>, (LexErrKind, Span)>(
                            (LexErrKind::MisplacedRngSyntax, span_at(pos_i)),
                        ));
                    }
                    let e = LexicalError::MisplacedRngSyntax(
                        clone_chars(&self.input_chars),
                        Span::new(self.position, self.position),
                    );
                    return Err(e);
                }
                let t = Token::new(TokenKind::RngMutArg, Span::new(self.position, self.position));
                tokens.push(t);
                self.advance();
                proof {
                    assert(spec_lex(s, pos_i, insq_i) == lex_cons(
                        t,
                        spec_lex(s, pos_i + 1, insq_i),
                    ));
                    lemma_join_push(tokens_pre, t, spec_lex(s, pos_i + 1, insq_i));
                }
            } else if c as u32 >= 48 && c as u32 <= 57 {
                match self.tokenize_numbers() {
                    Ok(t) => {
                        tokens.push(t);
                        proof {
                            lemma_run_end_bounds(s, pos_i + 1);
                            assert(run_end(s, pos_i) == run_end(s, pos_i + 1));
                            assert(spec_lex(s, pos_i, insq_i) == lex_cons(
                                t,
                                spec_lex(s, self.spec_position(), insq_i),
                            ));
                            lemma_join_push(
                                tokens_pre,
                                t,
                                spec_lex(s, self.spec_position(), insq_i),
                            );
                        }
                    },
                    Err(e) => {
                        proof {
                            assert(spec_lex(s, pos_i, insq_i) == Err::<
                                Seq<Token>,
                                (LexErrKind, Span),
                            >((e.parts().1, e.parts().2)));
                        }
                        return Err(e);
                    },
                }
            } else if c == '.' {
                match self.tokenize_range() {
                    Ok(t) => {
                        tokens.push(t);
                        proof {
                            lemma_range_scan_bounds(s, pos_i, pos_i, 0, false, false);
                            assert(spec_lex(s, pos_i, insq_i) == lex_cons(
                                t,
                                spec_lex(s, self.spec_position(), insq_i),
                            ));
                            lemma_join_push(
                                tokens_pre,
                                t,
                                spec_lex(s, self.spec_position(), insq_i),
                            );
                        }
                    },
                    Err(e) => {
                        proof {
                            assert(spec_lex(s, pos_i, insq_i) == Err::<
                                Seq<Token>,
                                (LexErrKind, Span),
                            >((e.parts().1, e.parts().2)));
                        }
                        return Err(e);
                    },
                }
            } else if c == 's' || c == 'm' {
                match self.tokenize_range_arg() {
                    Ok(t) => {
                        tokens.push(t);
                        proof {
                            assert(spec_lex(s, pos_i, insq_i) == lex_cons(
                                t,
                                spec_lex(s, self.spec_position(), insq_i),
                            ));
                            lemma_join_push(
                                tokens_pre,
                                t,
                                spec_lex(s, self.spec_position(), insq_i),
                            );
                        }
                    },
                    Err(e) => {
                        proof {
                            assert(spec_lex(s, pos_i, insq_i) == Err::<
                                Seq<Token>,
                                (LexErrKind, Span),
                            >((e.parts().1, e.parts().2)));
                        }
                        return Err(e);
                    },
                }
            } else if c == '+' || c == '-' || c == '*' || c == '/' || c == '^' || c == '%' {
                let t = self.tokenize_operator();
                tokens.push(t);
                proof {
                    assert(spec_lex(s, pos_i, insq_i) == lex_cons(
                        t,
                        spec_lex(s, pos_i + 1, insq_i),
                    ));
                    lemma_join_push(tokens_pre, t, spec_lex(s, pos_i + 1, insq_i));
                }
            } else if c == '(' || c == ')' || c == '{' || c == '}' {
                let t = self.tokenize_parenteses();
                tokens.push(t);
                proof {
                    assert(spec_lex(s, pos_i, insq_i) == lex_cons(
                        t,
                        spec_lex(s, pos_i + 1, self.spec_in_squiggly()),
                    ));
                    lemma_join_push(tokens_pre, t, spec_lex(s, pos_i + 1, self.spec_in_squiggly()));
                }
            } else {
                proof {
                    assert(spec_lex(s, pos_i, insq_i) == Err::<Seq<Token>, (LexErrKind, Span)>(
                        (LexErrKind::InvalidToken, span_at(pos_i)),
                    ));
                }
                let e = LexicalError::InvalidToken(
                    clone_chars(&self.input_chars),
                    Span::new(self.position, self.position),
                );
                return Err(e);
            }
        }
        proof {
            assert(tokens@ + Seq::<Token>::empty() =~= tokens@);
        }
        Ok(tokens)
    }
}

/// Associativity of appending one token: joining `pre.push(t)` with a rest
/// equals joining `pre` with the token consed onto the rest.
proof fn lemma_join_push(pre: Seq<Token>, t: Token, r: Result<Seq<Token>, (LexErrKind, Span)>)
    ensures
        lex_join(pre.push(t), r) == lex_join(pre, lex_cons(t, r)),
{
    match r {
        Ok(ts) => {
            assert(pre.push(t) + ts =~= pre + (seq![t] + ts));
        },
        Err(_) => {},
    }
}

/// Law: lexing is a pure function of the input characters — two scans of
/// the same text yield the identical token list or error, so re-lexing
/// the same text twice cannot differ (there is no hidden state).
pub proof fn lemma_lex_deterministic(
    s: Seq<char>,
    r1: Result<Seq<Token>, (LexErrKind, Span)>,
    r2: Result<Seq<Token>, (LexErrKind, Span)>,
)
    requires
        r1 == spec_lex(s, 1, false),
        r2 == spec_lex(s, 1, false),
    ensures
        r1 == r2,
{
}

/// Every error a range-syntax scan reports has its span inside the input.
proof fn lemma_range_scan_err_span(
    s: Seq<char>,
    start: int,
    pos: int,
    dots: int,
    incl: bool,
    prev_eq: bool,
)
    requires
        s.len() < usize::MAX,
        1 <= start <= pos <= s.len() + 1,
        pos == start ==> pos <= s.len() && s[pos - 1] == '.' && !prev_eq,
    ensures
        range_scan(s, start, pos, dots, incl, prev_eq) matches Err((k, sp)) ==> 1 <= sp.start
            <= sp.end <= s.len(),
    decreases s.len() + 1 - pos,
{
    if pos > s.len() || (s[pos - 1] != '.' && s[pos - 1] != '=') {
        assert(pos > start);
        assert(pos - 1 <= s.len());
    } else if prev_eq {
        assert(pos <= s.len());
    } else if s[pos - 1] == '.' {
        lemma_range_scan_err_span(s, start, pos + 1, dots + 1, incl, false);
    } else {
        lemma_range_scan_err_span(s, start, pos + 1, dots, true, true);
    }
}

/// Law (error locality, span bounds): whatever error the lexer reports,
/// its span indexes a region of the input: 1-indexed, ordered, and
/// within the input's length.
pub proof fn lemma_lex_error_span_in_input(s: Seq<char>, pos: int, insq: bool)
    requires
        s.len() < usize::MAX,
        1 <= pos <= s.len() + 1,
    ensures
        spec_lex(s, pos, insq) matches Err((k, sp)) ==> 1 <= sp.start <= sp.end <= s.len(),
    decreases s.len() + 1 - pos,
{
    if pos <= s.len() {
        let c = s[pos - 1];
        if c == ' ' || c == ',' {
            lemma_lex_error_span_in_input(s, pos + 1, insq);
        } else if c == '@' {
            lemma_lex_error_span_in_input(s, pos + 1, insq);
        } else if is_digit(c) {
            lemma_run_end_bounds(s, pos + 1);
            assert(run_end(s, pos) == run_end(s, pos + 1));
            lemma_lex_error_span_in_input(s, run_end(s, pos), insq);
        } else if c == '.' {
            lemma_range_scan_bounds(s, pos, pos, 0, false, false);
            lemma_range_scan_err_span(s, pos, pos, 0, false, false);
            match range_scan(s, pos, pos, 0, false, false) {
                Ok((t, next)) => {
                    lemma_lex_error_span_in_input(s, next, insq);
                },
                Err(e) => {},
            }
        } else if c == 's' || c == 'm' {
            if insq && pos < s.len() && s[pos] == ':' {
                lemma_lex_error_span_in_input(s, pos + 2, insq);
            }
        } else if math_op(c) is Some || c == '(' || c == ')' {
            lemma_lex_error_span_in_input(s, pos + 1, insq);
        } else if c == '{' {
            lemma_lex_error_span_in_input(s, pos + 1, true);
        } else if c == '}' {
            lemma_lex_error_span_in_input(s, pos + 1, false);
        }
    }
}

} // verus!
