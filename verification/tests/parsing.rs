use prefix_expr::ast::{CharClass, Expr, ParseError};
use prefix_expr::parser::{parse, parse_expr, parse_num, parse_op};

#[test]
fn test_parse_num() {
    assert_eq!(parse_num(b"123", 0), Ok((3, Expr::Num(123))));
    assert_eq!(parse_num(b"abc", 0), Err(ParseError::NoMatch(CharClass::Digit, 0)));
}

#[test]
fn test_parse_op() {
    assert_eq!(
        parse_op(b"+ 1 2", 0),
        Ok((5, Expr::Add(Box::new(Expr::Num(1)), Box::new(Expr::Num(2)))))
    );
    assert_eq!(
        parse_op(b"* 1 2", 0),
        Ok((5, Expr::Mul(Box::new(Expr::Num(1)), Box::new(Expr::Num(2)))))
    );
    assert_eq!(
        parse_op(b"* + 1 3 + 2 5", 0),
        Ok((
            13,
            Expr::Mul(
                Box::new(Expr::Add(Box::new(Expr::Num(1)), Box::new(Expr::Num(3)))),
                Box::new(Expr::Add(Box::new(Expr::Num(2)), Box::new(Expr::Num(5)))),
            )
        ))
    );
}

#[test]
fn digit_string_parses_to_its_value() {
    assert_eq!(parse(b"123"), Ok((3, Expr::Num(123))));
    assert_eq!(parse(b"0"), Ok((1, Expr::Num(0))));
    assert_eq!(parse(b"007"), Ok((3, Expr::Num(7))));
    // the largest value that fits in u64
    assert_eq!(parse(b"18446744073709551615"), Ok((20, Expr::Num(u64::MAX))));
}

#[test]
fn oversized_literal_overflows() {
    // one past u64::MAX
    assert_eq!(parse(b"18446744073709551616"), Err(ParseError::Overflow(0)));
    assert_eq!(parse_num(b"99999999999999999999", 0), Err(ParseError::Overflow(0)));
    // the failure reports the run's start even mid-input
    assert_eq!(parse(b"+ 18446744073709551616 1"), Err(ParseError::Overflow(2)));
}

#[test]
fn foreign_first_character_fails() {
    assert_eq!(parse(b"abc"), Err(ParseError::NoMatch(CharClass::Operator, 0)));
    assert_eq!(parse(b"-1"), Err(ParseError::NoMatch(CharClass::Operator, 0)));
    assert_eq!(parse(b""), Err(ParseError::NoMatch(CharClass::Operator, 0)));
    // the reported cursor is the post-whitespace position
    assert_eq!(parse(b"  x"), Err(ParseError::NoMatch(CharClass::Operator, 2)));
}

#[test]
fn sum_of_two_literals() {
    assert_eq!(
        parse(b"+ 1 2"),
        Ok((5, Expr::Add(Box::new(Expr::Num(1)), Box::new(Expr::Num(2)))))
    );
}

#[test]
fn product_of_two_literals() {
    assert_eq!(
        parse(b"* 1 2"),
        Ok((5, Expr::Mul(Box::new(Expr::Num(1)), Box::new(Expr::Num(2)))))
    );
}

#[test]
fn nested_operands_parse_recursively() {
    assert_eq!(
        parse(b"* + 1 3 + 2 5"),
        Ok((
            13,
            Expr::Mul(
                Box::new(Expr::Add(Box::new(Expr::Num(1)), Box::new(Expr::Num(3)))),
                Box::new(Expr::Add(Box::new(Expr::Num(2)), Box::new(Expr::Num(5)))),
            )
        ))
    );
}

#[test]
fn leading_spaces_do_not_change_the_node() {
    let spaced = parse(b"  5").expect("spaced literal must parse");
    let bare = parse(b"5").expect("bare literal must parse");
    assert_eq!(spaced.1, bare.1);
    // both remainders are empty: the cursors sit at each input's end
    assert_eq!(spaced.0, 3);
    assert_eq!(bare.0, 1);
    // spaces are optional between an operator and its operands
    assert_eq!(
        parse(b"+1 2"),
        Ok((4, Expr::Add(Box::new(Expr::Num(1)), Box::new(Expr::Num(2)))))
    );
}

#[test]
fn missing_second_operand_fails() {
    assert_eq!(parse(b"+ 1"), Err(ParseError::NoMatch(CharClass::Operator, 3)));
    assert_eq!(parse(b"+"), Err(ParseError::NoMatch(CharClass::Operator, 1)));
    assert_eq!(parse(b"+ + 1 2"), Err(ParseError::NoMatch(CharClass::Operator, 7)));
}

#[test]
fn parsing_can_start_mid_input() {
    assert_eq!(parse_expr(b"x 5", 1), Ok((3, Expr::Num(5))));
    assert_eq!(parse_expr(b"x 5", 3), Err(ParseError::NoMatch(CharClass::Operator, 3)));
}

#[test]
fn trailing_input_is_left_unconsumed() {
    assert_eq!(parse(b"1 2"), Ok((1, Expr::Num(1))));
    assert_eq!(
        parse(b"+ 1 2 junk"),
        Ok((5, Expr::Add(Box::new(Expr::Num(1)), Box::new(Expr::Num(2)))))
    );
}
