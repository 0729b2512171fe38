//! The lexer: characters to tokens.
//!
//! `spec_next_token` is the mathematical description of one lexing step: at a
//! position in the character sequence it yields the next token and the
//! position after it, the end of input, or the error the lexer stops on.
//! `next_token` is the executable lexer, proved to agree with it exactly.
//!
//! Rules, in precedence order on the leading character: parentheses and `-`
//! are single-character tokens; `"` opens a string literal running to the
//! next `"`; an alphabetic character opens an identifier continued by
//! alphabetic characters and hyphens; a digit or `.` opens a decimal literal
//! (a leading `.` reads as `0.`); `#` discards the rest of the line; space,
//! tab and newline are discarded; anything else is an invalid character.
//!
//! A `-` is always its own token, whatever follows it: an identifier may
//! contain a hyphen but can never begin with one.

use vstd::prelude::*;

use crate::value::ParseError;

verus! {

/// Whether a character beyond ASCII is alphabetic, exactly as
/// `char::is_alphabetic` answers it.
pub uninterp spec fn alphabetic_ext(c: char) -> bool;

/// Whether a character is alphabetic: on ASCII, exactly the letters; beyond
/// ASCII, as `char::is_alphabetic` answers it.
pub open spec fn alphabetic(c: char) -> bool {
    if (c as u32) < 128 {
        (97 <= c as u32 && c as u32 <= 122) || (65 <= c as u32 && c as u32 <= 90)
    } else {
        alphabetic_ext(c)
    }
}

/// Relies on `char::is_alphabetic`: the answer is a function of the
/// character alone, and on an ASCII character it holds exactly of the
/// letters.
#[verifier::external_body]
fn char_alphabetic(c: char) -> (r: bool)
    ensures
        r == alphabetic(c),
        c as u32 >= 128 ==> r == alphabetic_ext(c),
{
    c.is_alphabetic()
}

/// Relies on `String`'s `FromIterator<char>`: collecting characters yields
/// the string of exactly those characters in order.
#[verifier::external_body]
pub(crate) fn string_from_chars(text: Vec<char>) -> (r: String)
    ensures
        r@ == text@,
{
    text.into_iter().collect()
}

/// A decimal digit.
pub open spec fn is_digit_char(c: char) -> bool {
    48 <= c as u32 && c as u32 <= 57
}

/// A character that may continue an identifier.
pub open spec fn is_ident_char(c: char) -> bool {
    alphabetic(c) || c == '-'
}

/// Whether `c` may continue an identifier: alphabetic or a hyphen.
pub fn is_ident(c: char) -> (r: bool)
    ensures
        r == is_ident_char(c),
{
    char_alphabetic(c) || c == '-'
}

fn is_digit(c: char) -> (r: bool)
    ensures
        r == is_digit_char(c),
{
    48 <= c as u32 && c as u32 <= 57
}

/// One lexical unit.  `NUM` carries the unsigned digit text as scanned
/// (digits, optionally a dot and more digits); `SYM` and `STR` carry their
/// text.
#[derive(Debug, PartialEq, Eq)]
pub enum Token {
    LPAREN,
    RPAREN,
    MINUS,
    NUM(String),
    SYM(String),
    STR(String),
}

/// The model of a token, over character sequences.
pub enum SpecToken {
    LParen,
    RParen,
    Minus,
    Num(Seq<char>),
    Sym(Seq<char>),
    Str(Seq<char>),
}

impl View for Token {
    type V = SpecToken;

    open spec fn view(&self) -> SpecToken {
        match self {
            Token::LPAREN => SpecToken::LParen,
            Token::RPAREN => SpecToken::RParen,
            Token::MINUS => SpecToken::Minus,
            Token::NUM(text) => SpecToken::Num(text@),
            Token::SYM(text) => SpecToken::Sym(text@),
            Token::STR(text) => SpecToken::Str(text@),
        }
    }
}

/// The first position at or after `i` whose character does not continue an
/// identifier, or the end of the sequence.
pub open spec fn scan_ident_end(s: Seq<char>, i: int) -> int
    decreases s.len() - i,
{
    if 0 <= i < s.len() && is_ident_char(s[i]) {
        scan_ident_end(s, i + 1)
    } else {
        i
    }
}

/// The first position at or after `i` whose character is not a digit, or the
/// end of the sequence.
pub open spec fn scan_digits_end(s: Seq<char>, i: int) -> int
    decreases s.len() - i,
{
    if 0 <= i < s.len() && is_digit_char(s[i]) {
        scan_digits_end(s, i + 1)
    } else {
        i
    }
}

/// The position of the first quote character at or after `i`, or the length
/// of the sequence if there is none.
pub open spec fn scan_string_end(s: Seq<char>, i: int) -> int
    decreases s.len() - i,
{
    if 0 <= i < s.len() {
        if s[i] == '"' {
            i
        } else {
            scan_string_end(s, i + 1)
        }
    } else {
        s.len() as int
    }
}

/// The outcome of one lexing step: a token and the position after it, the
/// end of the input, or the error the lexer stops on.
pub enum LexStep {
    Tok(SpecToken, int),
    End,
    Fail(ParseError),
}

/// One lexing step at position `i` of `s`.
pub open spec fn spec_next_token(s: Seq<char>, i: int) -> LexStep
    decreases s.len() - i, 1int,
{
    if !(0 <= i < s.len()) {
        LexStep::End
    } else {
        let c = s[i];
        if c == '(' {
            LexStep::Tok(SpecToken::LParen, i + 1)
        } else if c == ')' {
            LexStep::Tok(SpecToken::RParen, i + 1)
        } else if c == '-' {
            LexStep::Tok(SpecToken::Minus, i + 1)
        } else if c == '"' {
            let j = scan_string_end(s, i + 1);
            if j >= s.len() {
                LexStep::Fail(ParseError::UnterminatedString)
            } else {
                LexStep::Tok(SpecToken::Str(s.subrange(i + 1, j)), j + 1)
            }
        } else if alphabetic(c) {
            LexStep::Tok(
                SpecToken::Sym(s.subrange(i, scan_ident_end(s, i + 1))),
                scan_ident_end(s, i + 1),
            )
        } else if is_digit_char(c) {
            let d = scan_digits_end(s, i + 1);
            if d < s.len() && s[d] == '.' {
                let e = scan_digits_end(s, d + 1);
                if e == d + 1 {
                    LexStep::Fail(ParseError::MalformedNumericLiteral)
                } else {
                    LexStep::Tok(SpecToken::Num(s.subrange(i, e)), e)
                }
            } else {
                LexStep::Tok(SpecToken::Num(s.subrange(i, d)), d)
            }
        } else if c == '.' {
            let e = scan_digits_end(s, i + 1);
            if e == i + 1 {
                LexStep::Fail(ParseError::MalformedNumericLiteral)
            } else {
                LexStep::Tok(SpecToken::Num(seq!['0', '.'] + s.subrange(i + 1, e)), e)
            }
        } else if c == '#' {
            spec_skip_comment(s, i + 1)
        } else if c == ' ' || c == '\n' || c == '\t' {
            spec_next_token(s, i + 1)
        } else {
            LexStep::Fail(ParseError::InvalidCharacter)
        }
    }
}

/// Lexing resumed after a `#` comment: characters are discarded through the
/// next newline, or to the end of the input.
pub open spec fn spec_skip_comment(s: Seq<char>, i: int) -> LexStep
    decreases s.len() - i, 0int,
{
    if !(0 <= i < s.len()) {
        LexStep::End
    } else if s[i] == '\n' {
        spec_next_token(s, i + 1)
    } else {
        spec_skip_comment(s, i + 1)
    }
}

/// The executable lexer: one step from `pos`, returning the next token and
/// its end position, `None` at the end of input, or the error it stops on.
/// It agrees with `spec_next_token` exactly.
pub fn next_token(chars: &[char], pos: usize) -> (r: (Result<Option<Token>, ParseError>, usize))
    requires
        pos <= chars@.len(),
    ensures
        pos <= r.1 <= chars@.len(),
        match spec_next_token(chars@, pos as int) {
            LexStep::Tok(t, j) => {
                &&& r.0 matches Ok(Some(tok)) && tok@ == t
                &&& r.1 == j
                &&& pos < r.1
            },
            LexStep::End => r.0 matches Ok(None),
            LexStep::Fail(e) => r.0 matches Err(e2) && e2 == e,
        },
{
    let ghost s = chars@;
    let mut i = pos;
    loop
        invariant
            pos <= i <= s.len(),
            s == chars@,
            spec_next_token(s, pos as int) == spec_next_token(s, i as int),
        decreases s.len() - i,
    {
        if i == chars.len() {
            return (Ok(None), i);
        }
        let c = chars[i];
        if c == '(' {
            return (Ok(Some(Token::LPAREN)), i + 1);
        } else if c == ')' {
            return (Ok(Some(Token::RPAREN)), i + 1);
        } else if c == '-' {
            return (Ok(Some(Token::MINUS)), i + 1);
        } else if c == '"' {
            let mut j = i + 1;
            let mut text: Vec<char> = Vec::new();
            while j < chars.len() && chars[j] != '"'
                invariant
                    i + 1 <= j <= s.len(),
                    s == chars@,
                    scan_string_end(s, i + 1) == scan_string_end(s, j as int),
                    text@ == s.subrange(i + 1, j as int),
                decreases s.len() - j,
            {
                text.push(chars[j]);
                j += 1;
                proof {
                    assert(text@ =~= s.subrange(i + 1, j as int));
                }
            }
            if j == chars.len() {
                return (Err(ParseError::UnterminatedString), j);
            }
            return (Ok(Some(Token::STR(string_from_chars(text)))), j + 1);
        } else if char_alphabetic(c) {
            let mut j = i + 1;
            let mut text: Vec<char> = Vec::new();
            text.push(c);
            proof {
                assert(text@ =~= s.subrange(i as int, i + 1));
            }
            while j < chars.len() && is_ident(chars[j])
                invariant
                    i + 1 <= j <= s.len(),
                    s == chars@,
                    scan_ident_end(s, i + 1) == scan_ident_end(s, j as int),
                    text@ == s.subrange(i as int, j as int),
                decreases s.len() - j,
            {
                text.push(chars[j]);
                j += 1;
                proof {
                    assert(text@ =~= s.subrange(i as int, j as int));
                }
            }
            return (Ok(Some(Token::SYM(string_from_chars(text)))), j);
        } else if is_digit(c) {
            let mut j = i + 1;
            let mut text: Vec<char> = Vec::new();
            text.push(c);
            proof {
                assert(text@ =~= s.subrange(i as int, i + 1));
            }
            while j < chars.len() && is_digit(chars[j])
                invariant
                    i + 1 <= j <= s.len(),
                    s == chars@,
                    scan_digits_end(s, i + 1) == scan_digits_end(s, j as int),
                    text@ == s.subrange(i as int, j as int),
                decreases s.len() - j,
            {
                text.push(chars[j]);
                j += 1;
                proof {
                    assert(text@ =~= s.subrange(i as int, j as int));
                }
            }
            if j < chars.len() && chars[j] == '.' {
                text.push('.');
                let mut k = j + 1;
                proof {
                    assert(text@ =~= s.subrange(i as int, (j + 1) as int));
                }
                while k < chars.len() && is_digit(chars[k])
                    invariant
                        i < j < s.len(),
                        j + 1 <= k <= s.len(),
                        s == chars@,
                        scan_digits_end(s, j + 1) == scan_digits_end(s, k as int),
                        text@ == s.subrange(i as int, k as int),
                    decreases s.len() - k,
                {
                    text.push(chars[k]);
                    k += 1;
                    proof {
                        assert(text@ =~= s.subrange(i as int, k as int));
                    }
                }
                if k == j + 1 {
                    return (Err(ParseError::MalformedNumericLiteral), k);
                }
                return (Ok(Some(Token::NUM(string_from_chars(text)))), k);
            }
            return (Ok(Some(Token::NUM(string_from_chars(text)))), j);
        } else if c == '.' {
            let mut k = i + 1;
            let mut text: Vec<char> = Vec::new();
            text.push('0');
            text.push('.');
            proof {
                assert(text@ =~= seq!['0', '.'] + s.subrange(i + 1, i + 1));
            }
            while k < chars.len() && is_digit(chars[k])
                invariant
                    i + 1 <= k <= s.len(),
                    s == chars@,
                    scan_digits_end(s, i + 1) == scan_digits_end(s, k as int),
                    text@ == seq!['0', '.'] + s.subrange(i + 1, k as int),
                decreases s.len() - k,
            {
                text.push(chars[k]);
                k += 1;
                proof {
                    assert(text@ =~= seq!['0', '.'] + s.subrange(i + 1, k as int));
                }
            }
            if k == i + 1 {
                return (Err(ParseError::MalformedNumericLiteral), k);
            }
            return (Ok(Some(Token::NUM(string_from_chars(text)))), k);
        } else if c == '#' {
            let mut j = i + 1;
            while j < chars.len() && chars[j] != '\n'
                invariant
                    i + 1 <= j <= s.len(),
                    s == chars@,
                    spec_skip_comment(s, i + 1) == spec_skip_comment(s, j as int),
                decreases s.len() - j,
            {
                j += 1;
            }
            if j == chars.len() {
                return (Ok(None), j);
            }
            i = j + 1;
        } else if c == ' ' || c == '\n' || c == '\t' {
            i += 1;
        } else {
            return (Err(ParseError::InvalidCharacter), i);
        }
    }
}

} // verus!
