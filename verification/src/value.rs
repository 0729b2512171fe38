//! The tree value produced by the parser, and its mathematical model.
//!
//! A `Value` is a parenthesized list, a bare symbol, a quoted string, or a
//! signed decimal number.  Numbers are kept as their decimal literal (a sign
//! and the digit text), so a parsed number prints back exactly as it was
//! read.

use vstd::prelude::*;

verus! {

broadcast use vstd::std_specs::vec::group_vec_axioms, vstd::seq::axiom_seq_index_decreases;

/// A signed decimal literal: `neg` is the sign, `text` the unsigned digit
/// text as the lexer scanned it (digits, optionally a dot and more digits).
#[derive(Debug, PartialEq, Eq)]
pub struct NumLit {
    pub neg: bool,
    pub text: String,
}

/// One S-expression tree value.
#[derive(Debug, PartialEq, Eq)]
pub enum Value {
    /// A parenthesized group; children in parse order, possibly empty.
    List(Vec<Value>),
    /// A bare identifier: alphabetic characters and interior hyphens.
    Symbol(String),
    /// A quoted literal; must not contain the quote character.
    String_(String),
    /// A signed decimal literal.
    Number(NumLit),
}

/// The mathematical model of a `Value`, over sequences of characters.
pub enum SpecValue {
    List(Seq<SpecValue>),
    Symbol(Seq<char>),
    String_(Seq<char>),
    Number(bool, Seq<char>),
}

impl View for NumLit {
    type V = SpecValue;

    open spec fn view(&self) -> SpecValue {
        SpecValue::Number(self.neg, self.text@)
    }
}

impl View for Value {
    type V = SpecValue;

    open spec fn view(&self) -> SpecValue
        decreases self,
    {
        match self {
            Value::List(items) => SpecValue::List(
                Seq::new(
                    items@.len(),
                    |i: int|
                        if 0 <= i < items@.len() {
                            items@[i].view()
                        } else {
                            SpecValue::List(Seq::empty())
                        },
                ),
            ),
            Value::Symbol(text) => SpecValue::Symbol(text@),
            Value::String_(text) => SpecValue::String_(text@),
            Value::Number(num) => SpecValue::Number(num.neg, num.text@),
        }
    }
}

/// Why a parse failed; every failure of `parse` is one of these.
#[derive(Debug, Clone, Copy, PartialEq, Eq, Structural)]
pub enum ParseError {
    /// A string literal was still open when the input ended.
    UnterminatedString,
    /// A character matched none of the lexer's rules.
    InvalidCharacter,
    /// Numeric text with a dot but no digits after it.
    MalformedNumericLiteral,
    /// A standalone `-` not immediately followed by a number token.
    ExpectedNumber,
    /// A list opened without a matching close, or a close with no open.
    UnbalancedParenthesis,
    /// No tokens at all where a value was expected.
    EmptyInput,
}

} // verus!
