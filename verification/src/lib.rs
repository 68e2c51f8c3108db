//! Seq2: parse a compact text expression into a concrete sequence of
//! integers.
//!
//! An input is a comma-separated list of items, where each item is one of:
//! - a signed integer literal (`"1"`, `"--10"`, `"-+10"`),
//! - a brace-delimited numeric range, optionally with a step and a
//!   per-element mutation (`"{1..=5, s:2}"`, `"{1..=3, m:+2}"`),
//! - a parenthesized arithmetic sub-expression (`"(-2^3 - (3*100/20))"`).
//!
//! The pipeline is: text -> [`lexer::Lexer`] -> token list ->
//! [`parser::Parser`] -> node list -> [`eval::evaluate_and_materialize`] ->
//! flat `Vec<i64>`, in left-to-right order of the original items.
//!
//! Every stage is a pure function of its input; errors are ordinary return
//! values carrying the full input and a 1-indexed character [`tokens::Span`]
//! so a presentation layer can underline the offending substring.  The
//! library itself never formats or colors output.

pub mod errors;
pub mod eval;
pub mod lexer;
pub mod parser;
pub mod tokens;
