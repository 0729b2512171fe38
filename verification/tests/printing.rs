use sexpr::is_ident;
use sexpr::parse_str;
use sexpr::to_text;
use sexpr::NumLit;
use sexpr::Value;

fn num(neg: bool, text: &str) -> Value {
    Value::Number(NumLit { neg, text: text.to_string() })
}

fn sym(text: &str) -> Value {
    Value::Symbol(text.to_string())
}

#[test]
fn stringify_atoms() {
    assert_eq!("meow", to_text(&sym("meow")));
    assert_eq!("\"hi\"", to_text(&Value::String_("hi".to_string())));
    assert_eq!("42", to_text(&num(false, "42")));
    assert_eq!("-0.5", to_text(&num(true, "0.5")));
}

#[test]
fn stringify_lists() {
    assert_eq!("()", to_text(&Value::List(vec![])));
    let v = Value::List(vec![sym("meow"), Value::List(vec![num(false, "42")])]);
    assert_eq!("(meow (42))", to_text(&v));
}

#[test]
fn round_trip() {
    let v = Value::List(vec![
        sym("config-entry"),
        Value::String_("some text # ) ( ".to_string()),
        num(true, "3.5"),
        Value::List(vec![]),
        Value::List(vec![num(false, "0"), sym("z")]),
    ]);
    let text = to_text(&v);
    assert_eq!(v, parse_str(&text).unwrap());
}

#[test]
fn stringify_idempotent() {
    let v = Value::List(vec![sym("a"), num(true, "12.25"), Value::String_("b c".to_string())]);
    let text = to_text(&v);
    let reparsed = parse_str(&text).unwrap();
    assert_eq!(text, to_text(&reparsed));
}

#[test]
fn ident_characters() {
    assert!(is_ident('a'));
    assert!(is_ident('Z'));
    assert!(is_ident('-'));
    assert!(!is_ident('1'));
    assert!(!is_ident('('));
    assert!(!is_ident(' '));
}
