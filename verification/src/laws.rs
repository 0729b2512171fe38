//! The round-trip laws.
//!
//! A value is round-trip safe when its symbols are identifier text, its
//! strings are quote-free, and its number literals have the shape the lexer
//! scans.  For such values, parsing the canonical rendering yields exactly
//! the value back (`lemma_round_trip`), and stringification is idempotent
//! across a parse (`lemma_stringify_idempotent`).

use vstd::prelude::*;

use crate::lexer::alphabetic;
use crate::lexer::is_digit_char;
use crate::lexer::is_ident_char;
use crate::lexer::scan_digits_end;
use crate::lexer::scan_ident_end;
use crate::lexer::scan_string_end;
use crate::lexer::spec_next_token;
use crate::lexer::spec_skip_comment;
use crate::lexer::LexStep;
use crate::lexer::SpecToken;
use crate::parser::spec_parse;
use crate::parser::spec_parse_list;
use crate::parser::spec_parse_value;
use crate::parser::ListStep;
use crate::parser::ParseStep;
use crate::render::spec_render;
use crate::render::spec_render_items;
use crate::value::ParseError;
use crate::value::SpecValue;

verus! {

broadcast use vstd::seq::axiom_seq_index_decreases;

/// Unsigned numeric text as the lexer scans it: one or more digits,
/// optionally followed by a dot and one or more digits.
pub open spec fn is_num_text(t: Seq<char>) -> bool {
    let d = scan_digits_end(t, 0);
    &&& d > 0
    &&& (d == t.len() || (t[d] == '.' && d + 1 < t.len() && scan_digits_end(t, d + 1)
        == t.len()))
}

/// A value whose canonical text parses back to it: symbols are nonempty
/// identifier text starting alphabetically, strings are quote-free, and
/// number literals have the scanned shape.
pub open spec fn wf_value(m: SpecValue) -> bool
    decreases m,
{
    match m {
        SpecValue::List(items) => forall|q: int|
            0 <= q < items.len() ==> wf_value(#[trigger] items[q]),
        SpecValue::Symbol(t) => {
            &&& t.len() > 0
            &&& alphabetic(t[0])
            &&& forall|q: int| 0 <= q < t.len() ==> is_ident_char(#[trigger] t[q])
        },
        SpecValue::String_(t) => forall|q: int| 0 <= q < t.len() ==> #[trigger] t[q] != '"',
        SpecValue::Number(neg, t) => is_num_text(t),
    }
}

/// What a digit scan covers: every character before the end it returns is a
/// digit, and the scan stops only at the end of the sequence or at a
/// non-digit.
proof fn lemma_scan_digits_chars(s: Seq<char>, i: int)
    requires
        0 <= i <= s.len(),
    ensures
        i <= scan_digits_end(s, i) <= s.len(),
        forall|q: int| i <= q < scan_digits_end(s, i) ==> is_digit_char(#[trigger] s[q]),
        scan_digits_end(s, i) == s.len() || !is_digit_char(s[scan_digits_end(s, i)]),
    decreases s.len() - i,
{
    if i < s.len() && is_digit_char(s[i]) {
        lemma_scan_digits_chars(s, i + 1);
    }
}

/// A digit scan started where a run of digits begins ends exactly where the
/// run ends.
proof fn lemma_scan_digits_range(s: Seq<char>, i: int, j: int)
    requires
        0 <= i <= j <= s.len(),
        forall|q: int| i <= q < j ==> is_digit_char(#[trigger] s[q]),
        j == s.len() || !is_digit_char(s[j]),
    ensures
        scan_digits_end(s, i) == j,
    decreases j - i,
{
    if i < j {
        lemma_scan_digits_range(s, i + 1, j);
    }
}

/// An identifier scan started where a run of identifier characters begins
/// ends exactly where the run ends.
proof fn lemma_scan_ident_range(s: Seq<char>, i: int, j: int)
    requires
        0 <= i <= j <= s.len(),
        forall|q: int| i <= q < j ==> is_ident_char(#[trigger] s[q]),
        j == s.len() || !is_ident_char(s[j]),
    ensures
        scan_ident_end(s, i) == j,
    decreases j - i,
{
    if i < j {
        lemma_scan_ident_range(s, i + 1, j);
    }
}

/// A quote scan over quote-free characters stops exactly at the closing
/// quote.
proof fn lemma_scan_string_range(s: Seq<char>, i: int, j: int)
    requires
        0 <= i <= j < s.len(),
        forall|q: int| i <= q < j ==> #[trigger] s[q] != '"',
        s[j] == '"',
    ensures
        scan_string_end(s, i) == j,
    decreases j - i,
{
    if i < j {
        lemma_scan_string_range(s, i + 1, j);
    }
}

/// Scan positions never run backwards and never pass the end.
proof fn lemma_scan_bounds(s: Seq<char>, i: int)
    requires
        0 <= i <= s.len(),
    ensures
        i <= scan_ident_end(s, i) <= s.len(),
        i <= scan_digits_end(s, i) <= s.len(),
        i <= scan_string_end(s, i) <= s.len(),
    decreases s.len() - i,
{
    if i < s.len() {
        lemma_scan_bounds(s, i + 1);
    }
}

/// A token always ends after the position it was read at, and within the
/// input.
proof fn lemma_token_advances(s: Seq<char>, i: int)
    requires
        0 <= i,
    ensures
        spec_next_token(s, i) matches LexStep::Tok(t, j) ==> i < j <= s.len(),
        spec_skip_comment(s, i) matches LexStep::Tok(t, j) ==> i < j <= s.len(),
    decreases s.len() - i,
{
    if i < s.len() {
        lemma_token_advances(s, i + 1);
        lemma_scan_bounds(s, i + 1);
        let d = scan_digits_end(s, i + 1);
        if d < s.len() {
            lemma_scan_bounds(s, d + 1);
        }
    }
}

/// A parsed value ends after the position it was parsed at, and within the
/// input.
proof fn lemma_value_advances(s: Seq<char>, i: int)
    requires
        0 <= i,
    ensures
        spec_parse_value(s, i) matches ParseStep::Val(v, k) ==> i < k <= s.len(),
    decreases s.len() - i, 0int,
{
    lemma_token_advances(s, i);
    match spec_next_token(s, i) {
        LexStep::Tok(t, j) => {
            lemma_token_advances(s, j);
            if (t matches SpecToken::LParen) {
                if i < j && j <= s.len() {
                    lemma_list_advances(s, j);
                }
            }
        },
        _ => {},
    }
}

/// Parsed list children end after the position they were parsed at, and
/// within the input.
proof fn lemma_list_advances(s: Seq<char>, i: int)
    requires
        0 <= i,
    ensures
        spec_parse_list(s, i) matches ListStep::Items(items, k) ==> i < k <= s.len(),
    decreases s.len() - i, 1int,
{
    lemma_token_advances(s, i);
    match spec_next_token(s, i) {
        LexStep::Tok(t, j) => {
            if !(t matches SpecToken::RParen) {
                lemma_value_advances(s, i);
                match spec_parse_value(s, i) {
                    ParseStep::Val(v, k) => {
                        if i < k && k <= s.len() {
                            lemma_list_advances(s, k);
                        }
                    },
                    _ => {},
                }
            }
        },
        _ => {},
    }
}

/// A space before a value does not change what is parsed.
proof fn lemma_value_ws(s: Seq<char>, p: int)
    requires
        0 <= p < s.len(),
        s[p] == ' ',
    ensures
        spec_parse_value(s, p) == spec_parse_value(s, p + 1),
{
    assert(spec_next_token(s, p) == spec_next_token(s, p + 1));
    lemma_token_advances(s, p + 1);
}

/// A space before list children does not change what is parsed.
proof fn lemma_list_ws(s: Seq<char>, p: int)
    requires
        0 <= p < s.len(),
        s[p] == ' ',
    ensures
        spec_parse_list(s, p) == spec_parse_list(s, p + 1),
{
    assert(spec_next_token(s, p) == spec_next_token(s, p + 1));
    lemma_token_advances(s, p + 1);
    lemma_value_ws(s, p);
    lemma_value_advances(s, p + 1);
}

/// A position right after a rendered value inside a larger rendering: the
/// end of the input, a joining space, or a closing parenthesis.
pub open spec fn at_boundary(s: Seq<char>, e: int) -> bool {
    e == s.len() || s[e] == ' ' || s[e] == ')'
}

/// The canonical text of a round-trip-safe value is never empty.
proof fn lemma_render_nonempty(m: SpecValue)
    requires
        wf_value(m),
    ensures
        spec_render(m).len() > 0,
{
    match m {
        SpecValue::Number(neg, t) => {
            lemma_scan_bounds(t, 0);
        },
        _ => {},
    }
}

/// Numeric text embedded before a boundary lexes to exactly one number
/// token covering it.
proof fn lemma_lex_number(s: Seq<char>, p: int, t: Seq<char>)
    requires
        is_num_text(t),
        0 <= p,
        p + t.len() <= s.len(),
        s.subrange(p, p + t.len()) == t,
        at_boundary(s, p + t.len()),
    ensures
        spec_next_token(s, p) == LexStep::Tok(SpecToken::Num(t), p + t.len()),
{
    let n = t.len() as int;
    let e = p + n;
    let d = scan_digits_end(t, 0);
    lemma_scan_digits_chars(t, 0);
    assert forall|q: int| p <= q < e implies #[trigger] s[q] == t[q - p] by {
        assert(s.subrange(p, e)[q - p] == s[q]);
    }
    assert(is_digit_char(s[p]));
    lemma_scan_digits_range(s, p + 1, p + d);
    if d == n {
        assert(s.subrange(p, p + d) == t);
    } else {
        lemma_scan_digits_chars(t, d + 1);
        lemma_scan_digits_range(s, p + d + 1, e);
        assert(s.subrange(p, e) == t);
    }
}

/// A rendered round-trip-safe value embedded before a boundary parses to
/// exactly that value, ending at the boundary.
proof fn lemma_parse_render_at(m: SpecValue, s: Seq<char>, i: int)
    requires
        wf_value(m),
        0 <= i,
        i + spec_render(m).len() <= s.len(),
        s.subrange(i, i + spec_render(m).len()) == spec_render(m),
        at_boundary(s, i + spec_render(m).len()),
    ensures
        spec_parse_value(s, i) == ParseStep::Val(m, i + spec_render(m).len()),
    decreases m, 0int,
{
    let r = spec_render(m);
    let n = r.len() as int;
    let e = i + n;
    assert forall|q: int| i <= q < e implies #[trigger] s[q] == r[q - i] by {
        assert(s.subrange(i, e)[q - i] == s[q]);
    }
    match m {
        SpecValue::Symbol(t) => {
            assert(alphabetic(s[i]));
            lemma_scan_ident_range(s, i + 1, e);
            assert(s.subrange(i, e) == t);
            assert(spec_next_token(s, i) == LexStep::Tok(SpecToken::Sym(t), e));
        },
        SpecValue::String_(t) => {
            assert(s[i] == '"');
            assert(s[e - 1] == '"');
            lemma_scan_string_range(s, i + 1, e - 1);
            assert(s.subrange(i + 1, e - 1) =~= t);
            assert(spec_next_token(s, i) == LexStep::Tok(SpecToken::Str(t), e));
        },
        SpecValue::Number(neg, t) => {
            if neg {
                assert(s[i] == '-');
                assert(spec_next_token(s, i) == LexStep::Tok(SpecToken::Minus, i + 1));
                assert(s.subrange(i + 1, e) =~= t);
                lemma_lex_number(s, i + 1, t);
            } else {
                assert(s.subrange(i, e) == t);
                lemma_lex_number(s, i, t);
            }
        },
        SpecValue::List(items) => {
            let inner = spec_render_items(items, 0);
            assert(s[i] == '(');
            assert(spec_next_token(s, i) == LexStep::Tok(SpecToken::LParen, i + 1));
            assert(s.subrange(i + 1, i + 1 + inner.len()) =~= inner);
            assert(s[i + 1 + inner.len()] == ')');
            lemma_parse_render_items(items, s, i + 1, 0);
            assert(items.subrange(0, items.len() as int) =~= items);
        },
    }
}

/// Rendered children joined by spaces and followed by `)` parse back to
/// exactly those children, ending right after the `)`.
proof fn lemma_parse_render_items(items: Seq<SpecValue>, s: Seq<char>, i: int, idx: int)
    requires
        0 <= idx <= items.len(),
        forall|q: int| 0 <= q < items.len() ==> wf_value(#[trigger] items[q]),
        0 <= i,
        i + spec_render_items(items, idx).len() + 1 <= s.len(),
        s.subrange(i, i + spec_render_items(items, idx).len()) == spec_render_items(items, idx),
        s[i + spec_render_items(items, idx).len()] == ')',
    ensures
        spec_parse_list(s, i) == ListStep::Items(
            items.subrange(idx, items.len() as int),
            i + spec_render_items(items, idx).len() + 1,
        ),
    decreases items, items.len() - idx,
{
    let rest = spec_render_items(items, idx);
    let n = rest.len() as int;
    let e = i + n;
    assert forall|q: int| i <= q < e implies #[trigger] s[q] == rest[q - i] by {
        assert(s.subrange(i, e)[q - i] == s[q]);
    }
    if idx == items.len() {
        assert(spec_next_token(s, i) == LexStep::Tok(SpecToken::RParen, i + 1));
        assert(items.subrange(idx, items.len() as int) =~= Seq::<SpecValue>::empty());
    } else {
        let m0 = items[idx];
        let r0 = spec_render(m0);
        let n0 = r0.len() as int;
        lemma_render_nonempty(m0);
        if idx == items.len() - 1 {
            assert(s.subrange(i, i + n0) == r0);
            lemma_parse_render_at(m0, s, i);
            assert(s.subrange(i + n0, i + n0) =~= spec_render_items(items, idx + 1));
            lemma_parse_render_items(items, s, i + n0, idx + 1);
        } else {
            let rest1 = spec_render_items(items, idx + 1);
            assert(s.subrange(i, i + n0) =~= r0);
            assert(s[i + n0] == ' ');
            lemma_parse_render_at(m0, s, i);
            assert(s.subrange(i + n0 + 1, i + n0 + 1 + rest1.len()) =~= rest1);
            assert(s[i + n0 + 1 + rest1.len()] == ')');
            lemma_parse_render_items(items, s, i + n0 + 1, idx + 1);
            lemma_list_ws(s, i + n0);
        }
        match spec_next_token(s, i) {
            LexStep::Tok(t, j) => {
                assert(!(t matches SpecToken::RParen));
            },
            LexStep::End => {
                assert(false);
            },
            LexStep::Fail(err) => {
                assert(false);
            },
        }
        assert(seq![m0] + items.subrange(idx + 1, items.len() as int) =~= items.subrange(
            idx,
            items.len() as int,
        ));
    }
}

/// Round trip: parsing the canonical text of a round-trip-safe value yields
/// exactly that value.
pub proof fn lemma_round_trip(m: SpecValue)
    requires
        wf_value(m),
    ensures
        spec_parse(spec_render(m)) == Ok::<SpecValue, ParseError>(m),
{
    let s = spec_render(m);
    assert(s.subrange(0, s.len() as int) =~= s);
    lemma_parse_render_at(m, s, 0);
}

/// Stringification is idempotent across a parse: the canonical text of a
/// round-trip-safe value parses to a value with the same canonical text.
pub proof fn lemma_stringify_idempotent(m: SpecValue)
    requires
        wf_value(m),
    ensures
        spec_parse(spec_render(m)) matches Ok(m2) && spec_render(m2) == spec_render(m),
{
    lemma_round_trip(m);
}

} // verus!
