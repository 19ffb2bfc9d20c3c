use exprcalc::expr::{Expr, Op};
use exprcalc::num::Num;
use exprcalc::parser::{parse, ParserIter};

fn val(n: i64) -> Box<Expr> {
    Box::new(Expr::Value(Num { n, d: 1 }))
}

#[test]
fn parses_precedence_of_mul_over_add() {
    let e = parse("2 + 3 * 4").unwrap();
    let expected = Expr::Operation(
        Op::Add,
        val(2),
        Box::new(Expr::Operation(Op::Mul, val(3), val(4))),
    );
    assert_eq!(e, expected);
}

#[test]
fn parses_brackets_before_mul() {
    let e = parse("(2 + 3) * 4").unwrap();
    let expected = Expr::Operation(
        Op::Mul,
        Box::new(Expr::Operation(Op::Add, val(2), val(3))),
        val(4),
    );
    assert_eq!(e, expected);
}

#[test]
fn parses_pow_left_to_right() {
    let e = parse("2 ^ 3 ^ 2").unwrap();
    let expected = Expr::Operation(
        Op::Pow,
        Box::new(Expr::Operation(Op::Pow, val(2), val(3))),
        val(2),
    );
    assert_eq!(e, expected);
}

#[test]
fn parses_variable_with_digits() {
    let e = parse("ab1 + 1").unwrap();
    let expected = Expr::Operation(
        Op::Add,
        Box::new(Expr::Variable("ab1".to_string())),
        val(1),
    );
    assert_eq!(e, expected);
}

#[test]
fn parses_decimal_literal_exactly() {
    let e = parse("2.5").unwrap();
    assert_eq!(e, Expr::Value(Num { n: 25, d: 10 }));
}

#[test]
fn empty_input_is_zero() {
    assert_eq!(parse("").unwrap(), Expr::Value(Num { n: 0, d: 1 }));
    assert_eq!(parse("   ").unwrap(), Expr::Value(Num { n: 0, d: 1 }));
}

#[test]
fn missing_closing_bracket_points_at_opener() {
    let err = parse("2 + (3 * 4").unwrap_err();
    assert_eq!(
        err.0,
        "Missing closing bracket for this opening bracket\n\n2 + (3 * 4\n    ^"
    );
}

#[test]
fn missing_closing_bracket_nested_points_at_unmatched_opener() {
    let err = parse("((1 + 2)").unwrap_err();
    assert_eq!(
        err.0,
        "Missing closing bracket for this opening bracket\n\n((1 + 2)\n^"
    );
}

#[test]
fn second_decimal_point_is_fatal() {
    let err = parse("2..5").unwrap_err();
    assert_eq!(
        err.0,
        "Encountered decimal point for a second time in this number!\n\n2..5\n  ^"
    );
}

#[test]
fn invalid_character_is_fatal() {
    let err = parse("2 + $").unwrap_err();
    assert_eq!(err.0, "Invalid token '$'\n\n2 + $\n   ^");
}

#[test]
fn adjacent_operators_are_fatal() {
    let err = parse("2 + * 3").unwrap_err();
    assert_eq!(
        err.0,
        "Invalid tokens for operation '*': '+' and '3'\n\n2 + * 3\n   ^"
    );
}

#[test]
fn leading_operator_is_fatal() {
    let err = parse("* 3").unwrap_err();
    assert_eq!(
        err.0,
        "Operation '*' requires expressions on both sides\n\n* 3\n^"
    );
}

#[test]
fn adjacent_expressions_are_fatal() {
    let err = parse("2 3").unwrap_err();
    assert_eq!(
        err.0,
        "Found more than one expressions without operator in between!\n\n2 3\n  ^"
    );
}

#[test]
fn huge_literal_is_fatal() {
    let err = parse("99999999999999999999").unwrap_err();
    assert!(err.0.starts_with("Could not parse value 99999999999999999999"));
}

#[test]
fn cursor_counts_every_advance() {
    let mut it = ParserIter::new("ab");
    assert_eq!(it.peek(), Some('a'));
    assert_eq!(it.here().index, 0);
    assert_eq!(it.next(), Some('a'));
    assert_eq!(it.next(), Some('b'));
    assert_eq!(it.next(), None);
    assert_eq!(it.here().index, 3);
    assert_eq!(it.peek(), None);
}

#[test]
fn trailing_operator_is_fatal() {
    let err = parse("2 +").unwrap_err();
    assert_eq!(
        err.0,
        "Operation '+' requires expressions on both sides\n\n2 +\n ^"
    );
}

#[test]
fn empty_brackets_stand_for_zero() {
    assert_eq!(parse("()").unwrap(), Expr::Value(Num { n: 0, d: 1 }));
}

#[test]
fn whitespace_is_skipped_everywhere() {
    let e = parse("  2   +\t3 ").unwrap();
    let expected = Expr::Operation(Op::Add, val(2), val(3));
    assert_eq!(e, expected);
}

#[test]
fn trailing_decimal_point_is_allowed() {
    assert_eq!(parse("2.").unwrap(), Expr::Value(Num { n: 2, d: 1 }));
}
