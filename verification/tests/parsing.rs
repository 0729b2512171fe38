use sexpr::parse;
use sexpr::parse_str;
use sexpr::NumLit;
use sexpr::ParseError;
use sexpr::Value;

fn num(neg: bool, text: &str) -> Value {
    Value::Number(NumLit { neg, text: text.to_string() })
}

fn sym(text: &str) -> Value {
    Value::Symbol(text.to_string())
}

#[test]
fn meow() {
    let expected = Value::List(vec![sym("meow"), Value::List(vec![num(false, "42")])]);
    let real = parse_str("(meow (42))");
    assert_eq!(expected, real.unwrap());
}

#[test]
fn negative() {
    let expected = num(true, "42");
    let real = parse_str("-42");
    assert_eq!(expected, real.unwrap());
}

#[test]
fn empty_list() {
    assert_eq!(Value::List(vec![]), parse_str("()").unwrap());
}

#[test]
fn comment_skipping() {
    assert_eq!(Value::List(vec![sym("a")]), parse_str("# note\n(a)").unwrap());
}

#[test]
fn unbalanced_fails() {
    assert_eq!(Err(ParseError::UnbalancedParenthesis), parse_str("(a"));
}

#[test]
fn close_without_open_fails() {
    assert_eq!(Err(ParseError::UnbalancedParenthesis), parse_str(")"));
}

#[test]
fn invalid_character_fails() {
    assert_eq!(Err(ParseError::InvalidCharacter), parse_str("(a @)"));
}

#[test]
fn unterminated_string_fails() {
    assert_eq!(Err(ParseError::UnterminatedString), parse_str("\"abc"));
}

#[test]
fn malformed_number_fails() {
    assert_eq!(Err(ParseError::MalformedNumericLiteral), parse_str("12."));
    assert_eq!(Err(ParseError::MalformedNumericLiteral), parse_str("."));
}

#[test]
fn minus_needs_number() {
    assert_eq!(Err(ParseError::ExpectedNumber), parse_str("-x"));
    assert_eq!(Err(ParseError::ExpectedNumber), parse_str("(-)"));
    assert_eq!(Err(ParseError::ExpectedNumber), parse_str("-"));
}

#[test]
fn empty_input_fails() {
    assert_eq!(Err(ParseError::EmptyInput), parse_str(""));
    assert_eq!(Err(ParseError::EmptyInput), parse_str(" \t\n"));
    assert_eq!(Err(ParseError::EmptyInput), parse_str("# only a comment"));
}

#[test]
fn leading_dot_number() {
    assert_eq!(num(false, "0.5"), parse_str(".5").unwrap());
}

#[test]
fn fractional_number() {
    assert_eq!(num(false, "3.14"), parse_str("3.14").unwrap());
    assert_eq!(num(true, "0.5"), parse_str("-.5").unwrap());
}

#[test]
fn minus_then_spaced_number() {
    assert_eq!(num(true, "42"), parse_str("- 42").unwrap());
}

#[test]
fn string_literal() {
    assert_eq!(
        Value::String_("hi there".to_string()),
        parse_str("\"hi there\"").unwrap()
    );
    assert_eq!(Value::String_(String::new()), parse_str("\"\"").unwrap());
}

#[test]
fn unicode_symbol() {
    assert_eq!(
        Value::List(vec![sym("caf\u{e9}")]),
        parse_str("(caf\u{e9})").unwrap()
    );
}

#[test]
fn hyphenated_symbol() {
    assert_eq!(Value::List(vec![sym("a-b")]), parse_str("(a-b)").unwrap());
}

#[test]
fn nested_lists() {
    let expected = Value::List(vec![
        Value::List(vec![sym("a")]),
        Value::List(vec![sym("b"), sym("c")]),
    ]);
    assert_eq!(expected, parse_str("((a) (b c))").unwrap());
}

#[test]
fn trailing_text_is_not_consumed() {
    assert_eq!(num(false, "42"), parse_str("42 )@").unwrap());
}

#[test]
fn parse_from_characters() {
    let chars: Vec<char> = "(a 1)".chars().collect();
    let expected = Value::List(vec![sym("a"), num(false, "1")]);
    assert_eq!(expected, parse(&chars).unwrap());
}
