//! Text helpers shared by the modules: decimal digits, padding,
//! clipping, and the `String` operation vstd does not specify.

use vstd::prelude::*;
use vstd::string::{StrSliceExecFns, StringExecFns};

verus! {

/// The ASCII digit for `d`, which is below ten.
pub open spec fn digit_char(d: int) -> char {
    if d == 0 { '0' }
    else if d == 1 { '1' }
    else if d == 2 { '2' }
    else if d == 3 { '3' }
    else if d == 4 { '4' }
    else if d == 5 { '5' }
    else if d == 6 { '6' }
    else if d == 7 { '7' }
    else if d == 8 { '8' }
    else { '9' }
}

/// `n` written in decimal, most significant digit first, no leading zeros.
pub open spec fn decimal_spec(n: nat) -> Seq<char>
    decreases n,
{
    if n < 10 {
        seq![digit_char(n as int)]
    } else {
        decimal_spec(n / 10) + seq![digit_char((n % 10) as int)]
    }
}

/// `i` written in decimal, with a minus sign when it is negative.
pub open spec fn signed_decimal_spec(i: int) -> Seq<char> {
    if i < 0 {
        seq!['-'] + decimal_spec((-i) as nat)
    } else {
        decimal_spec(i as nat)
    }
}

/// `n` in decimal, right-aligned in `width` characters with spaces in
/// front, as `{:>width}` writes it; wider numbers are not cut.
pub open spec fn padded_spec(n: nat, width: nat) -> Seq<char> {
    let d = decimal_spec(n);
    if d.len() < width {
        Seq::new((width - d.len()) as nat, |i: int| ' ') + d
    } else {
        d
    }
}

/// `t` cut to `max` characters, counting characters rather than bytes:
/// past `max`, the first `max - 1` and an ellipsis.
pub open spec fn clip_spec(t: Seq<char>, max: nat) -> Seq<char> {
    if t.len() <= max {
        t
    } else if max == 0 {
        seq!['…']
    } else {
        t.take(max - 1) + seq!['…']
    }
}

/// A clipped text fits its limit, whenever the limit leaves room for a
/// character: a text that fits is kept whole, and (for such a limit)
/// only then; one that does not is cut to as many of its first characters as leave room
/// for the ellipsis that ends it.
pub proof fn law_clip_fits(t: Seq<char>, max: nat)
    ensures
        max >= 1 ==> clip_spec(t, max).len() <= max,
        t.len() <= max ==> clip_spec(t, max) == t,
        max >= 1 ==> (clip_spec(t, max) == t <==> t.len() <= max),
        t.len() > max ==> {
            let c = clip_spec(t, max);
            &&& c.len() >= 1
            &&& c.last() == '…'
            &&& c.drop_last() == t.take(c.len() - 1)
            &&& (max >= 1 ==> c.len() == max)
        },
{
    let c = clip_spec(t, max);
    if t.len() > max {
        assert(c.drop_last() =~= t.take(c.len() - 1));
    }
}

/// A padded number is the number's digits, right-aligned: exactly
/// `width` characters when the digits fit, the digits alone when they
/// do not, and spaces before them.
pub proof fn law_padding_right_aligns(n: nat, width: nat)
    ensures
        ({
            let p = padded_spec(n, width);
            let d = decimal_spec(n);
            &&& p.len() == if d.len() < width { width } else { d.len() }
            &&& p.subrange(p.len() - d.len(), p.len() as int) == d
            &&& forall|i: int| 0 <= i < p.len() - d.len() ==> #[trigger] p[i] == ' '
        }),
{
    let p = padded_spec(n, width);
    let d = decimal_spec(n);
    assert(p.subrange(p.len() - d.len(), p.len() as int) =~= d);
}

/// Appends `c` to `s` (`String::push`).
#[verifier::external_body]
pub(crate) fn push_char(s: &mut String, c: char)
    ensures
        final(s)@ == old(s)@.push(c),
{
    s.push(c);
}

fn digit(d: u64) -> (c: char)
    requires
        d < 10,
    ensures
        c == digit_char(d as int),
{
    if d == 0 { '0' }
    else if d == 1 { '1' }
    else if d == 2 { '2' }
    else if d == 3 { '3' }
    else if d == 4 { '4' }
    else if d == 5 { '5' }
    else if d == 6 { '6' }
    else if d == 7 { '7' }
    else if d == 8 { '8' }
    else { '9' }
}

/// Appends `n` in decimal to `out`.
pub fn push_decimal(out: &mut String, n: u64)
    ensures
        final(out)@ == old(out)@ + decimal_spec(n as nat),
    decreases n,
{
    if n < 10 {
        push_char(out, digit(n));
    } else {
        push_decimal(out, n / 10);
        push_char(out, digit(n % 10));
    }
}

/// Appends `i` in decimal, with its sign, to `out`.
pub fn push_signed_decimal(out: &mut String, i: i32)
    ensures
        final(out)@ == old(out)@ + signed_decimal_spec(i as int),
{
    if i < 0 {
        push_char(out, '-');
        let magnitude: u64 = (0i64 - i as i64) as u64;
        push_decimal(out, magnitude);
        assert(final(out)@ =~= old(out)@ + signed_decimal_spec(i as int));
    } else {
        push_decimal(out, i as u64);
    }
}

/// Appends `n` right-aligned in `width` characters.
pub fn push_padded(out: &mut String, n: u64, width: usize)
    ensures
        final(out)@ == old(out)@ + padded_spec(n as nat, width as nat),
{
    let mut digits = String::new();
    push_decimal(&mut digits, n);
    assert(digits@ =~= decimal_spec(n as nat));
    let len = digits.as_str().unicode_len();
    let ghost start = out@;
    if len < width {
        let mut k: usize = 0;
        while k < width - len
            invariant
                len < width,
                k <= width - len,
                out@ == start + Seq::new(k as nat, |i: int| ' '),
            decreases width - len - k,
        {
            push_char(out, ' ');
            k = k + 1;
            assert(out@ =~= start + Seq::new(k as nat, |i: int| ' '));
        }
    }
    out.append(digits.as_str());
    assert(final(out)@ =~= old(out)@ + padded_spec(n as nat, width as nat));
}

/// `text` cut to `max` characters, counting characters rather than bytes
/// so a non-ASCII name is not cut mid-codepoint.
pub fn clip(text: &str, max: usize) -> (r: String)
    ensures
        r@ == clip_spec(text@, max as nat),
{
    let n = text.unicode_len();
    if n <= max {
        return String::from_str(text);
    }
    let keep = if max == 0 {
        0
    } else {
        max - 1
    };
    let mut out = String::from_str(text.substring_char(0, keep));
    push_char(&mut out, '…');
    assert(out@ =~= clip_spec(text@, max as nat));
    out
}

} // verus!
