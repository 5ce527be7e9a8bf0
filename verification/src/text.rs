//! Building the canonical text forms of packets: decimal numbers, debug-quoted
//! strings, and bracketed lists.

use vstd::prelude::*;
use vstd::string::*;

verus! {

/// The ASCII digit for `d` (`0 <= d < 10`).
pub open spec fn digit_char(d: int) -> char {
    if d == 0 { '0' }
    else if d == 1 { '1' }
    else if d == 2 { '2' }
    else if d == 3 { '3' }
    else if d == 4 { '4' }
    else if d == 5 { '5' }
    else if d == 6 { '6' }
    else if d == 7 { '7' }
    else if d == 8 { '8' }
    else { '9' }
}

/// The decimal digits of a natural number, most significant first, with no
/// leading zeros (zero is written `0`).
pub open spec fn decimal_nat(n: nat) -> Seq<char>
    decreases n,
{
    if n < 10 {
        seq![digit_char(n as int)]
    } else {
        decimal_nat(n / 10) + seq![digit_char((n % 10) as int)]
    }
}

/// How an integer is written in decimal: a `-` before the magnitude when it is
/// negative.
pub open spec fn decimal(i: int) -> Seq<char> {
    if i < 0 {
        seq!['-'] + decimal_nat((-i) as nat)
    } else {
        decimal_nat(i as nat)
    }
}

/// What std's `Debug` writes for a string slice: the text in double quotes
/// with its special characters escaped.
pub uninterp spec fn str_debug(text: Seq<char>) -> Seq<char>;

/// Renders `text` with std's `Debug` for `str` (`format!("{:?}", text)`).
/// Trusted: the result is `str_debug` of the text; the escaping rules
/// themselves are std's and are not restated here.
#[verifier::external_body]
pub(crate) fn debug_quoted(text: &str) -> (quoted: String)
    ensures
        quoted@ == str_debug(text@),
{
    format!("{:?}", text)
}

/// `items` joined with `", "` between consecutive items.
pub open spec fn join_comma(items: Seq<Seq<char>>) -> Seq<char>
    decreases items.len(),
{
    if items.len() == 0 {
        Seq::empty()
    } else if items.len() == 1 {
        items[0]
    } else {
        join_comma(items.drop_last()) + ", "@ + items.last()
    }
}

/// How std's `Debug` writes a list whose items render as `items`:
/// `[a, b, c]`.
pub open spec fn debug_list(items: Seq<Seq<char>>) -> Seq<char> {
    "["@ + join_comma(items) + "]"@
}

fn digit_str(d: u64) -> (s: &'static str)
    requires
        d < 10,
    ensures
        s@ == seq![digit_char(d as int)],
{
    proof {
        reveal_strlit("0");
        reveal_strlit("1");
        reveal_strlit("2");
        reveal_strlit("3");
        reveal_strlit("4");
        reveal_strlit("5");
        reveal_strlit("6");
        reveal_strlit("7");
        reveal_strlit("8");
        reveal_strlit("9");
    }
    if d == 0 { "0" }
    else if d == 1 { "1" }
    else if d == 2 { "2" }
    else if d == 3 { "3" }
    else if d == 4 { "4" }
    else if d == 5 { "5" }
    else if d == 6 { "6" }
    else if d == 7 { "7" }
    else if d == 8 { "8" }
    else { "9" }
}

/// Appends the decimal digits of `n`.
pub fn push_decimal_nat(out: &mut String, n: u64)
    ensures
        final(out)@ == old(out)@ + decimal_nat(n as nat),
    decreases n,
{
    if n < 10 {
        out.append(digit_str(n));
    } else {
        push_decimal_nat(out, n / 10);
        out.append(digit_str(n % 10));
    }
}

/// Appends `v` in decimal, as `Display` writes a signed integer.
pub fn push_decimal(out: &mut String, v: i64)
    ensures
        final(out)@ == old(out)@ + decimal(v as int),
{
    if v < 0 {
        out.append("-");
        let magnitude: u64 = (-(v as i128)) as u64;
        push_decimal_nat(out, magnitude);
        proof {
            reveal_strlit("-");
            assert(old(out)@ + seq!['-'] + decimal_nat(magnitude as nat) =~= old(out)@ + decimal(v as int));
        }
    } else {
        push_decimal_nat(out, v as u64);
    }
}

/// Appends `items` as std's `Debug` writes a list of already-rendered items.
pub fn push_debug_list(out: &mut String, items: &Vec<String>)
    ensures
        final(out)@ == old(out)@ + debug_list(items@.map_values(|s: String| s@)),
{
    let ghost start = out@;
    let ghost views = items@.map_values(|s: String| s@);
    out.append("[");
    let mut i: usize = 0;
    while i < items.len()
        invariant
            i <= items.len(),
            views == items@.map_values(|s: String| s@),
            out@ == start + "["@ + join_comma(views.take(i as int)),
        decreases items.len() - i,
    {
        if i > 0 {
            out.append(", ");
        }
        out.append(items[i].as_str());
        proof {
            let t = views.take(i as int + 1);
            assert(t.drop_last() =~= views.take(i as int));
            assert(t.last() == items@[i as int]@);
        }
        i = i + 1;
    }
    out.append("]");
    assert(views.take(items.len() as int) =~= views);
}

} // verus!
