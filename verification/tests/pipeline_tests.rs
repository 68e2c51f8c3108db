//! End-to-end tests of the whole pipeline: text -> lexer -> parser ->
//! evaluate_and_materialize -> flat integer sequence.

use seq2::errors::LexicalError;
use seq2::errors::ParserError;
use seq2::eval::evaluate_and_materialize;
use seq2::lexer::Lexer;
use seq2::parser::Parser;
use seq2::tokens::Span;

fn run(input: &str) -> Vec<i64> {
    let mut lexer = Lexer::new(input);
    let tokens = lexer.lex().unwrap();
    let mut parser = Parser::new(lexer.input_chars, &tokens);
    let nodes = parser.parse().unwrap();
    evaluate_and_materialize(&parser.input_chars, &nodes).unwrap()
}

fn run_eval_err(input: &str) -> ParserError {
    let mut lexer = Lexer::new(input);
    let tokens = lexer.lex().unwrap();
    let mut parser = Parser::new(lexer.input_chars, &tokens);
    let nodes = parser.parse().unwrap();
    evaluate_and_materialize(&parser.input_chars, &nodes).unwrap_err()
}

#[test]
fn test_step_ascending() {
    assert_eq!(run("{1..=5, s:2}"), vec![1, 3, 5]);
}

#[test]
fn test_step_descending_trims_past_end() {
    // The would-be -1 is trimmed as exceeding the end.
    assert_eq!(run("{5..=0, s:-2}"), vec![5, 3, 1]);
}

#[test]
fn test_mutation_addition() {
    // Each generated position is mutated before emission; the stepping
    // itself always advances from the unmutated running position.
    assert_eq!(run("{1..=5, m:+2}"), vec![3, 4, 5, 6, 7]);
}

#[test]
fn test_arithmetic_bounded_stepped_mutated_range() {
    assert_eq!(run("{(1-(10^2))..-108, s:3, m:*-1}"), vec![99, 102, 105]);
}

#[test]
fn test_full_chained_example() {
    // {1..=3, s:2} generates positions 1 and 3 (5 is trimmed as past the
    // end), each mutated by +2; 200^2 + 1 is 40001.
    assert_eq!(
        run("-1, -2, -3, {1..=3, s:2, m:+2}, (200^2+1)"),
        vec![-1, -2, -3, 3, 5, 40001]
    );
}

#[test]
fn test_arithmetic_sum_to_zero() {
    assert_eq!(run("(1 + 2 - 3)"), vec![0]);
}

#[test]
fn test_arithmetic_precedence_and_truncation() {
    // (-2)^3 = -8; 3*100/20 truncates 300/20 to 15; -8 - 15 = -23.
    assert_eq!(run("(-2^3 - (3*100/20))"), vec![-23]);
}

#[test]
fn test_relexing_is_identical() {
    let input = "-1, {1..=3, s:2, m:+2}, (200^2+1)";
    let first = Lexer::new(input).lex().unwrap();
    let second = Lexer::new(input).lex().unwrap();
    assert_eq!(first, second);
}

#[test]
fn test_error_span_marks_offending_run() {
    // The three-dot run occupies positions 3..=5.
    let result = Lexer::new("{1...5}").lex();
    if let Err(LexicalError::InvalidRange(chars, span)) = result {
        assert_eq!(span, Span { start: 3, end: 5 });
        let marked: String = chars[span.start - 1..span.end].iter().collect();
        assert_eq!(marked, "...");
    } else {
        panic!("Expected InvalidRange error");
    }
}

#[test]
fn test_inclusive_range_reaches_end() {
    assert_eq!(run("{5..=5}"), vec![5]);
    assert_eq!(run("{1..=4}"), vec![1, 2, 3, 4]);
}

#[test]
fn test_exclusive_range_stops_before_end() {
    assert_eq!(run("{5..5}"), Vec::<i64>::new());
    assert_eq!(run("{1..4}"), vec![1, 2, 3]);
}

#[test]
fn test_descending_defaults() {
    assert_eq!(run("{3..=1}"), vec![3, 2, 1]);
    assert_eq!(run("{-3..=-6}"), vec![-3, -4, -5, -6]);
}

#[test]
fn test_zero_step_yields_empty() {
    assert_eq!(run("{1..=5, s:0}"), Vec::<i64>::new());
}

#[test]
fn test_empty_input() {
    assert_eq!(run(""), Vec::<i64>::new());
}

#[test]
fn test_underscored_number() {
    assert_eq!(run("1_000, 2__0"), vec![1000, 20]);
}

#[test]
fn test_remainder_truncates_toward_zero() {
    assert_eq!(run("(7 % 3)"), vec![1]);
    assert_eq!(run("(-7 % 3)"), vec![-1]);
    assert_eq!(run("(-7 / 2)"), vec![-3]);
}

#[test]
fn test_mutation_placeholder() {
    assert_eq!(run("{1..=3, m:@*2}"), vec![2, 4, 6]);
}

#[test]
fn test_step_from_expression() {
    assert_eq!(run("{1..=10, s:(1+2)}"), vec![1, 4, 7, 10]);
}

#[test]
fn test_division_by_zero_is_reported() {
    let err = run_eval_err("(1/0)");
    if let ParserError::InvalidMathExpr(_, span) = err {
        // The `/` stands at position 3.
        assert_eq!(span.start, 3);
        assert_eq!(span.end, 3);
    } else {
        panic!("Expected InvalidMathExpr error");
    }
}

#[test]
fn test_negative_exponent_is_reported() {
    let err = run_eval_err("(2^-3)");
    if let ParserError::InvalidMathExpr(_, span) = err {
        // The `^` stands at position 3.
        assert_eq!(span.start, 3);
        assert_eq!(span.end, 3);
    } else {
        panic!("Expected InvalidMathExpr error");
    }
}

#[test]
fn test_incomplete_range_is_reported() {
    let input = "{1..=5";
    let tokens = Lexer::new(input).lex().unwrap();
    let mut parser = Parser::new(input.chars().collect(), &tokens);
    let nodes = parser.parse();
    assert!(matches!(nodes, Err(ParserError::IncompleteMathExpr(_, _))));
}

#[test]
fn test_operand_where_operator_expected() {
    let input = "(1 2)";
    let tokens = Lexer::new(input).lex().unwrap();
    let mut parser = Parser::new(input.chars().collect(), &tokens);
    let nodes = parser.parse();
    if let Err(ParserError::InvalidMathOp(_, span)) = nodes {
        assert_eq!(span.start, 4);
    } else {
        panic!("Expected InvalidMathOp error");
    }
}

#[test]
fn test_unknown_range_argument() {
    let input = "{1..=5, 3}";
    let tokens = Lexer::new(input).lex().unwrap();
    let mut parser = Parser::new(input.chars().collect(), &tokens);
    let nodes = parser.parse();
    if let Err(ParserError::InvalidMathExpr(_, span)) = nodes {
        assert_eq!(span.start, 9);
    } else {
        panic!("Expected InvalidMathExpr error");
    }
}

#[test]
fn test_duplicate_range_argument() {
    let input = "{1..=5, s:1, s:2}";
    let tokens = Lexer::new(input).lex().unwrap();
    let mut parser = Parser::new(input.chars().collect(), &tokens);
    let nodes = parser.parse();
    assert!(matches!(nodes, Err(ParserError::InvalidMathExpr(_, _))));
}

#[test]
fn test_nested_parentheses_within_limit() {
    assert_eq!(run("((((((1+1))))))"), vec![2]);
}

#[test]
fn test_unary_before_nested_parentheses() {
    assert_eq!(run("(-(1+2))"), vec![-3]);
    assert_eq!(run("(2--(3))"), vec![5]);
}

#[test]
fn test_exponent_overflow_is_reported() {
    let err = run_eval_err("(3^100)");
    assert!(matches!(err, ParserError::InvalidMathExpr(_, _)));
}

#[test]
fn test_depth_bound_at_first_paren_past_cap() {
    // 71 nested parentheses: the 70th is the first past the 69-level cap
    // and ends the reported span.
    let input = format!("{}1{}", "(".repeat(71), ")".repeat(71));
    let tokens = Lexer::new(&input).lex().unwrap();
    let mut parser = Parser::new(input.chars().collect(), &tokens);
    let nodes = parser.parse();
    if let Err(ParserError::TooManyParen(_, span)) = nodes {
        assert_eq!(span.start, 1);
        assert_eq!(span.end, 70);
    } else {
        panic!("Expected TooManyParen error");
    }
}
