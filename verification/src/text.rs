//! Plain-text building blocks for the report: decimal rendering of counters,
//! percentage formatting, and block indentation.

use vstd::prelude::*;
use vstd::std_specs::iter::IteratorSpec;

use crate::ratio::Ratio;

verus! {

/// Relies on `String::push`: appends the given character to the end of the
/// string.
#[verifier::external_body]
pub(crate) fn string_push_char(s: &mut String, c: char)
    ensures
        final(s)@ == old(s)@.push(c),
{
    s.push(c);
}

/// The decimal digit character for a value below ten.
pub open spec fn digit_char(d: int) -> char {
    if d == 0 {
        '0'
    } else if d == 1 {
        '1'
    } else if d == 2 {
        '2'
    } else if d == 3 {
        '3'
    } else if d == 4 {
        '4'
    } else if d == 5 {
        '5'
    } else if d == 6 {
        '6'
    } else if d == 7 {
        '7'
    } else if d == 8 {
        '8'
    } else {
        '9'
    }
}

/// The usual decimal rendering of a non-negative number: most significant
/// digit first, no leading zeroes (except for zero itself).
pub open spec fn dec_digits(n: int) -> Seq<char>
    decreases n,
{
    if n < 10 {
        seq![digit_char(n)]
    } else {
        dec_digits(n / 10).push(digit_char(n % 10))
    }
}

/// Appends the decimal digit character for `d` to `s`.
fn push_digit(s: &mut String, d: u64)
    requires
        d < 10,
    ensures
        final(s)@ == old(s)@.push(digit_char(d as int)),
{
    let c: char = if d == 0 {
        '0'
    } else if d == 1 {
        '1'
    } else if d == 2 {
        '2'
    } else if d == 3 {
        '3'
    } else if d == 4 {
        '4'
    } else if d == 5 {
        '5'
    } else if d == 6 {
        '6'
    } else if d == 7 {
        '7'
    } else if d == 8 {
        '8'
    } else {
        '9'
    };
    string_push_char(s, c);
}

/// Renders a counter in decimal.
pub fn u64_to_string(n: u64) -> (r: String)
    ensures
        r@ == dec_digits(n as int),
    decreases n,
{
    if n < 10 {
        let mut s = String::new();
        push_digit(&mut s, n);
        proof {
            assert(s@ =~= dec_digits(n as int));
        }
        s
    } else {
        let mut s = u64_to_string(n / 10);
        push_digit(&mut s, n % 10);
        s
    }
}

/// Renders a wide counter in decimal.
pub fn u128_to_string(n: u128) -> (r: String)
    ensures
        r@ == dec_digits(n as int),
    decreases n,
{
    if n < 10 {
        let mut s = String::new();
        push_digit(&mut s, n as u64);
        proof {
            assert(s@ =~= dec_digits(n as int));
        }
        s
    } else {
        let mut s = u128_to_string(n / 10);
        push_digit(&mut s, (n % 10) as u64);
        s
    }
}

/// The two-space indentation unit used by the report.
pub open spec fn spec_indentation() -> Seq<char> {
    seq![' ', ' ']
}

/// The two-space indentation unit, as a string slice.
pub fn indentation_string() -> (s: &'static str)
    ensures
        s@ == spec_indentation(),
{
    let s = "  ";
    proof {
        reveal_strlit("  ");
        assert(s@ =~= spec_indentation());
    }
    s
}

/// How one character of an indented block is rendered: a line break is
/// followed by a fresh indentation unit, any other character is unchanged.
pub open spec fn indent_piece(c: char) -> Seq<char> {
    if c == '\n' {
        seq!['\n', ' ', ' ']
    } else {
        seq![c]
    }
}

/// The body of an indented block: every character kept, with an indentation
/// unit inserted after each line break.
pub open spec fn indented_body(s: Seq<char>) -> Seq<char>
    decreases s.len(),
{
    if s.len() == 0 {
        Seq::empty()
    } else {
        indent_piece(s[0]) + indented_body(s.drop_first())
    }
}

/// A block of text shifted right by one indentation unit: an indentation
/// unit, then the text with a fresh unit after every line break.
pub open spec fn spec_indent(s: Seq<char>) -> Seq<char> {
    spec_indentation() + indented_body(s)
}

/// Extending the text by one character extends its indented body by that
/// character's rendering.
proof fn lemma_indented_body_push(s: Seq<char>, c: char)
    ensures
        indented_body(s.push(c)) == indented_body(s) + indent_piece(c),
    decreases s.len(),
{
    if s.len() == 0 {
        assert(s.push(c).drop_first() =~= Seq::<char>::empty());
        assert(s.push(c)[0] == c);
        assert(indented_body(Seq::<char>::empty()) == Seq::<char>::empty());
        assert(indented_body(s) == Seq::<char>::empty());
        assert(indented_body(s.push(c)) == indent_piece(c) + Seq::<char>::empty());
        assert(indented_body(s.push(c)) =~= indented_body(s) + indent_piece(c));
    } else {
        assert(s.push(c).drop_first() =~= s.drop_first().push(c));
        lemma_indented_body_push(s.drop_first(), c);
        assert(s.push(c)[0] == s[0]);
        assert(indented_body(s.push(c)) == indent_piece(s.push(c)[0]) + indented_body(
            s.push(c).drop_first(),
        ));
        assert(indented_body(s.push(c).drop_first()) == indented_body(s.drop_first().push(c)));
        assert(indented_body(s.drop_first().push(c)) == indented_body(s.drop_first())
            + indent_piece(c));
        assert(indented_body(s) == indent_piece(s[0]) + indented_body(s.drop_first()));
        assert(indented_body(s.push(c)) =~= indented_body(s) + indent_piece(c));
    }
}

/// Indents every line of `text` by one indentation unit.
pub fn indent_string(text: &str) -> (r: String)
    ensures
        r@ == spec_indent(text@),
{
    broadcast use vstd::string::next_postcondition, vstd::string::axiom_spec_iter;

    let ghost full = text@;
    let mut result = String::new();
    string_push_char(&mut result, ' ');
    string_push_char(&mut result, ' ');
    proof {
        assert(result@ =~= spec_indentation() + indented_body(full.take(0)));
    }
    let mut it = text.chars();
    let ghost mut idx: int = 0;
    loop
        invariant
            0 <= idx <= full.len(),
            it.obeys_prophetic_iter_laws(),
            it.remaining() == full.skip(idx),
            result@ == spec_indentation() + indented_body(full.take(idx)),
        ensures
            result@ == spec_indent(full),
        decreases full.len() - idx,
    {
        match it.next() {
            Some(c) => {
                proof {
                    assert(full.skip(idx).len() > 0);
                    assert(c == full.skip(idx)[0]);
                    assert(c == full[idx]);
                }
                if c == '\n' {
                    string_push_char(&mut result, '\n');
                    string_push_char(&mut result, ' ');
                    string_push_char(&mut result, ' ');
                } else {
                    string_push_char(&mut result, c);
                }
                proof {
                    lemma_indented_body_push(full.take(idx), c);
                    assert(full.take(idx).push(c) =~= full.take(idx + 1));
                    assert(full.skip(idx).drop_first() =~= full.skip(idx + 1));
                    idx = idx + 1;
                    assert(result@ =~= spec_indentation() + indented_body(full.take(idx)));
                }
            },
            None => {
                proof {
                    assert(full.skip(idx).len() == 0);
                    assert(idx == full.len());
                    assert(full.take(idx) =~= full);
                }
                break ;
            },
        }
    }
    result
}

/// The report's rendering of `a` out of `b`: the whole percentage of the
/// fraction followed by a percent sign, or a question mark when there is
/// nothing to divide by.
pub open spec fn spec_format_ratio(a: int, b: int) -> Seq<char> {
    if b == 0 {
        seq!['?']
    } else {
        dec_digits(100 * a / b).push('%')
    }
}

/// Formats the ratio of `a` to `b` as a whole percentage (rounded toward
/// zero), or `"?"` when `b` is zero.
pub fn format_ratio(a: u64, b: u64) -> (r: String)
    requires
        a <= b,
    ensures
        r@ == spec_format_ratio(a as int, b as int),
{
    if b != 0 {
        let p = Ratio::new(a, b).percent();
        let mut s = u64_to_string(p);
        string_push_char(&mut s, '%');
        s
    } else {
        let mut s = String::new();
        string_push_char(&mut s, '?');
        proof {
            assert(s@ =~= seq!['?']);
        }
        s
    }
}

/// The rendering of a ratio as a whole percentage with a percent sign.
pub open spec fn spec_format_percent(r: Ratio) -> Seq<char> {
    dec_digits(r.spec_percent()).push('%')
}

/// Formats a ratio as a whole percentage (rounded toward zero).
pub fn format_percent(r: &Ratio) -> (s: String)
    requires
        r.wf(),
    ensures
        s@ == spec_format_percent(*r),
{
    let p = r.percent();
    let mut s = u64_to_string(p);
    string_push_char(&mut s, '%');
    s
}

} // verus!
