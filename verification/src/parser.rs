//! The parser: tokens to one tree value, by one-token lookahead and
//! recursive descent.
//!
//! `spec_parse_value` and `spec_parse_list` describe parsing mathematically:
//! from a position in the character sequence they give the value parsed and
//! the position after it, or the error parsing stops on.  `parse` is the
//! executable parser, proved to agree with `spec_parse` exactly — on every
//! input it returns the value or the error that the specification names.
//!
//! Grammar: `value := NUMBER | SYMBOL | STRING | MINUS NUMBER | '(' value* ')'`.
//! Only the first complete value is parsed; characters after it are neither
//! consumed nor reported.

use vstd::prelude::*;

use crate::lexer::next_token;
use crate::lexer::spec_next_token;
use crate::lexer::LexStep;
use crate::lexer::SpecToken;
use crate::lexer::Token;
use crate::value::NumLit;
use crate::value::ParseError;
use crate::value::SpecValue;
use crate::value::Value;

verus! {

/// The outcome of parsing one value at a position: the value and the
/// position after it, no token at all, or the error parsing stops on.
pub enum ParseStep {
    Val(SpecValue, int),
    NoToken,
    Fail(ParseError),
}

/// The outcome of parsing the children of an open list: the children and
/// the position after the closing parenthesis, or the error.
pub enum ListStep {
    Items(Seq<SpecValue>, int),
    Fail(ParseError),
}

/// One value parsed at position `i` of `s`.
pub open spec fn spec_parse_value(s: Seq<char>, i: int) -> ParseStep
    decreases s.len() - i, 0int,
{
    match spec_next_token(s, i) {
        LexStep::End => ParseStep::NoToken,
        LexStep::Fail(e) => ParseStep::Fail(e),
        LexStep::Tok(t, j) => match t {
            SpecToken::Num(text) => ParseStep::Val(SpecValue::Number(false, text), j),
            SpecToken::Sym(text) => ParseStep::Val(SpecValue::Symbol(text), j),
            SpecToken::Str(text) => ParseStep::Val(SpecValue::String_(text), j),
            SpecToken::Minus => match spec_next_token(s, j) {
                LexStep::Tok(SpecToken::Num(text), k) => ParseStep::Val(
                    SpecValue::Number(true, text),
                    k,
                ),
                LexStep::Tok(_, _) => ParseStep::Fail(ParseError::ExpectedNumber),
                LexStep::End => ParseStep::Fail(ParseError::ExpectedNumber),
                LexStep::Fail(e) => ParseStep::Fail(e),
            },
            // A token always ends after the position it was read at; the
            // guard makes that visible to the termination check.
            SpecToken::LParen => if i < j && j <= s.len() {
                match spec_parse_list(s, j) {
                    ListStep::Items(items, k) => ParseStep::Val(SpecValue::List(items), k),
                    ListStep::Fail(e) => ParseStep::Fail(e),
                }
            } else {
                ParseStep::Fail(ParseError::UnbalancedParenthesis)
            },
            SpecToken::RParen => ParseStep::Fail(ParseError::UnbalancedParenthesis),
        },
    }
}

/// The children of an open list parsed at position `i` of `s`, up to and
/// including the closing parenthesis.
pub open spec fn spec_parse_list(s: Seq<char>, i: int) -> ListStep
    decreases s.len() - i, 1int,
{
    match spec_next_token(s, i) {
        LexStep::End => ListStep::Fail(ParseError::UnbalancedParenthesis),
        LexStep::Fail(e) => ListStep::Fail(e),
        LexStep::Tok(t, j) => if (t matches SpecToken::RParen) {
            ListStep::Items(Seq::empty(), j)
        } else {
            match spec_parse_value(s, i) {
                // A parsed child always ends after the position it began
                // at; the guard makes that visible to the termination check.
                ParseStep::Val(v, k) => if i < k && k <= s.len() {
                    match spec_parse_list(s, k) {
                        ListStep::Items(rest, m) => ListStep::Items(seq![v] + rest, m),
                        ListStep::Fail(e) => ListStep::Fail(e),
                    }
                } else {
                    ListStep::Fail(ParseError::UnbalancedParenthesis)
                },
                ParseStep::NoToken => ListStep::Fail(ParseError::UnbalancedParenthesis),
                ParseStep::Fail(e) => ListStep::Fail(e),
            }
        },
    }
}

/// What parsing a whole document yields: the first complete value, or an
/// error; an input with no tokens at all yields `EmptyInput`.
pub open spec fn spec_parse(s: Seq<char>) -> Result<SpecValue, ParseError> {
    match spec_parse_value(s, 0) {
        ParseStep::Val(v, k) => Ok(v),
        ParseStep::NoToken => Err(ParseError::EmptyInput),
        ParseStep::Fail(e) => Err(e),
    }
}

/// Prepending already-parsed children to the outcome of parsing the rest of
/// a list.
pub open spec fn list_step_prepend(items: Seq<SpecValue>, step: ListStep) -> ListStep {
    match step {
        ListStep::Items(rest, m) => ListStep::Items(items + rest, m),
        ListStep::Fail(e) => ListStep::Fail(e),
    }
}

/// The executable recursive-descent parser for one value, agreeing with
/// `spec_parse_value` exactly.
fn parse_value(chars: &[char], pos: usize) -> (r: (Result<Option<Value>, ParseError>, usize))
    requires
        pos <= chars@.len(),
    ensures
        pos <= r.1 <= chars@.len(),
        match spec_parse_value(chars@, pos as int) {
            ParseStep::Val(m, j) => {
                &&& r.0 matches Ok(Some(v)) && v@ == m
                &&& r.1 == j
                &&& pos < r.1
            },
            ParseStep::NoToken => r.0 matches Ok(None),
            ParseStep::Fail(e) => r.0 matches Err(e2) && e2 == e,
        },
    decreases chars@.len() - pos,
{
    let ghost s = chars@;
    let (tr, j) = next_token(chars, pos);
    match tr {
        Err(e) => (Err(e), j),
        Ok(None) => (Ok(None), j),
        Ok(Some(tok)) => match tok {
            Token::NUM(text) => (Ok(Some(Value::Number(NumLit { neg: false, text }))), j),
            Token::SYM(text) => (Ok(Some(Value::Symbol(text))), j),
            Token::STR(text) => (Ok(Some(Value::String_(text))), j),
            Token::MINUS => {
                let (tr2, k) = next_token(chars, j);
                match tr2 {
                    Ok(Some(Token::NUM(text))) => (
                        Ok(Some(Value::Number(NumLit { neg: true, text }))),
                        k,
                    ),
                    Ok(Some(_)) => (Err(ParseError::ExpectedNumber), k),
                    Ok(None) => (Err(ParseError::ExpectedNumber), k),
                    Err(e) => (Err(e), k),
                }
            },
            Token::RPAREN => (Err(ParseError::UnbalancedParenthesis), j),
            Token::LPAREN => {
                let mut items: Vec<Value> = Vec::new();
                let ghost mut gitems: Seq<SpecValue> = Seq::empty();
                let mut cur = j;
                loop
                    invariant
                        s == chars@,
                        pos < j <= cur <= s.len(),
                        gitems.len() == items@.len(),
                        forall|q: int| 0 <= q < items@.len() ==> items@[q]@ == gitems[q],
                        spec_parse_list(s, j as int) == list_step_prepend(
                            gitems,
                            spec_parse_list(s, cur as int),
                        ),
                        spec_parse_value(s, pos as int) == (match spec_parse_list(s, j as int) {
                            ListStep::Items(all, m) => ParseStep::Val(SpecValue::List(all), m),
                            ListStep::Fail(e) => ParseStep::Fail(e),
                        }),
                    decreases s.len() - cur,
                {
                    let (tr2, npos) = next_token(chars, cur);
                    match tr2 {
                        Err(e) => {
                            return (Err(e), npos);
                        },
                        Ok(None) => {
                            return (Err(ParseError::UnbalancedParenthesis), npos);
                        },
                        Ok(Some(tok2)) => {
                            if let Token::RPAREN = tok2 {
                                proof {
                                    assert(gitems + Seq::<SpecValue>::empty() =~= gitems);
                                }
                                let v = Value::List(items);
                                proof {
                                    assert(v@ matches SpecValue::List(vs) && vs =~= gitems);
                                }
                                return (Ok(Some(v)), npos);
                            }
                            let (cr, cpos) = parse_value(chars, cur);
                            match cr {
                                Err(e) => {
                                    return (Err(e), cpos);
                                },
                                Ok(None) => {
                                    return (Err(ParseError::UnbalancedParenthesis), cpos);
                                },
                                Ok(Some(v)) => {
                                    proof {
                                        match spec_parse_list(s, cpos as int) {
                                            ListStep::Items(rest, m) => {
                                                assert(gitems + (seq![v@] + rest) =~= gitems.push(
                                                    v@,
                                                ) + rest);
                                            },
                                            ListStep::Fail(e) => {},
                                        }
                                        gitems = gitems.push(v@);
                                    }
                                    items.push(v);
                                    cur = cpos;
                                },
                            }
                        },
                    }
                }
            },
        },
    }
}

/// Parse one S-expression from a sequence of characters: the first complete
/// value, or the error that lexing or parsing stops on.  Characters after
/// the first complete value are not examined.
pub fn parse(chars: &[char]) -> (r: Result<Value, ParseError>)
    ensures
        match r {
            Ok(v) => spec_parse(chars@) matches Ok(m) && v@ == m,
            Err(e) => spec_parse(chars@) matches Err(e2) && e2 == e,
        },
{
    let (pr, _) = parse_value(chars, 0);
    match pr {
        Ok(Some(v)) => Ok(v),
        Ok(None) => Err(ParseError::EmptyInput),
        Err(e) => Err(e),
    }
}

/// Parse one S-expression from a string's characters.
pub fn parse_str(text: &str) -> (r: Result<Value, ParseError>)
    ensures
        match r {
            Ok(v) => spec_parse(text@) matches Ok(m) && v@ == m,
            Err(e) => spec_parse(text@) matches Err(e2) && e2 == e,
        },
{
    let n = text.unicode_len();
    let mut chars: Vec<char> = Vec::new();
    let mut k: usize = 0;
    while k < n
        invariant
            k <= n,
            n == text@.len(),
            chars@ == text@.subrange(0, k as int),
        decreases n - k,
    {
        chars.push(text.get_char(k));
        k += 1;
        proof {
            assert(chars@ =~= text@.subrange(0, k as int));
        }
    }
    proof {
        assert(chars@ =~= text@);
    }
    parse(chars.as_slice())
}

} // verus!
