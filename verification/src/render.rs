//! The stringifier: a tree value back to text.
//!
//! `spec_render` is the canonical rendering, a pure function of the value: a
//! list is its children rendered and joined by single spaces between `(` and
//! `)`, a symbol is its raw text, a string is its raw text wrapped in
//! quotes, and a number is its sign and digit text.  `to_text` is the
//! executable renderer, proved to produce exactly `spec_render` of its
//! argument's model.  It never fails.

use vstd::prelude::*;

use crate::lexer::string_from_chars;
use crate::value::SpecValue;
use crate::value::Value;

verus! {

broadcast use vstd::std_specs::vec::group_vec_axioms, vstd::seq::axiom_seq_index_decreases;

/// The canonical text of a value.
pub open spec fn spec_render(m: SpecValue) -> Seq<char>
    decreases m, 0int,
{
    match m {
        SpecValue::List(items) => seq!['('] + spec_render_items(items, 0) + seq![')'],
        SpecValue::Symbol(text) => text,
        SpecValue::String_(text) => seq!['"'] + text + seq!['"'],
        SpecValue::Number(neg, text) => if neg {
            seq!['-'] + text
        } else {
            text
        },
    }
}

/// The children from `idx` on, rendered and joined by single spaces.
pub open spec fn spec_render_items(items: Seq<SpecValue>, idx: int) -> Seq<char>
    decreases items, items.len() - idx,
{
    if 0 <= idx < items.len() {
        if idx == items.len() - 1 {
            spec_render(items[idx])
        } else {
            spec_render(items[idx]) + seq![' '] + spec_render_items(items, idx + 1)
        }
    } else {
        Seq::empty()
    }
}

/// Append a string's characters to the output.
fn push_str_chars(out: &mut Vec<char>, text: &str)
    ensures
        final(out)@ == old(out)@ + text@,
{
    let n = text.unicode_len();
    let mut k: usize = 0;
    while k < n
        invariant
            k <= n,
            n == text@.len(),
            out@ == old(out)@ + text@.subrange(0, k as int),
        decreases n - k,
    {
        out.push(text.get_char(k));
        k += 1;
        proof {
            assert(out@ =~= old(out)@ + text@.subrange(0, k as int));
        }
    }
    proof {
        assert(out@ =~= old(out)@ + text@);
    }
}

/// Append the canonical text of `v` to the output.
#[verifier::loop_isolation(false)]
fn render_into(v: &Value, out: &mut Vec<char>)
    ensures
        final(out)@ == old(out)@ + spec_render(v@),
    decreases v,
{
    match v {
        Value::Symbol(text) => {
            push_str_chars(out, text.as_str());
        },
        Value::String_(text) => {
            out.push('"');
            push_str_chars(out, text.as_str());
            out.push('"');
            proof {
                assert(out@ =~= old(out)@ + spec_render(v@));
            }
        },
        Value::Number(num) => {
            if num.neg {
                out.push('-');
            }
            push_str_chars(out, num.text.as_str());
            proof {
                assert(out@ =~= old(out)@ + spec_render(v@));
            }
        },
        Value::List(items) => {
            let ghost gitems = (match v@ {
                SpecValue::List(gs) => gs,
                _ => Seq::empty(),
            });
            out.push('(');
            let mut idx: usize = 0;
            while idx < items.len()
                invariant
                    idx <= items@.len(),
                    gitems.len() == items@.len(),
                    forall|q: int| 0 <= q < items@.len() ==> items@[q]@ == gitems[q],
                    out@ + spec_render_items(gitems, idx as int) == old(out)@ + seq!['(']
                        + spec_render_items(gitems, 0),
                decreases items@.len() - idx,
            {
                render_into(&items[idx], out);
                if idx + 1 < items.len() {
                    out.push(' ');
                }
                proof {
                    assert(out@ + spec_render_items(gitems, idx + 1) =~= old(out)@ + seq!['(']
                        + spec_render_items(gitems, 0));
                }
                idx += 1;
            }
            out.push(')');
            proof {
                assert(out@ =~= old(out)@ + spec_render(v@));
            }
        },
    }
}

/// Render a value to its canonical text.  Deterministic and total: any
/// value renders unconditionally, and the result is exactly `spec_render`
/// of its model.
pub fn to_text(v: &Value) -> (r: String)
    ensures
        r@ == spec_render(v@),
{
    let mut out: Vec<char> = Vec::new();
    render_into(v, &mut out);
    string_from_chars(out)
}

} // verus!
