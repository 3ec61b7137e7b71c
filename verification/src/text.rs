//! Character-level helpers for names and generated text.

use vstd::prelude::*;
use vstd::string::*;

verus! {

/// Unicode `White_Space` property, the whitespace that `str::trim` removes.
pub open spec fn is_white_space(c: char) -> bool {
    let u = c as u32;
    (0x09 <= u <= 0x0d) || u == 0x20 || u == 0x85 || u == 0xa0 || u == 0x1680 || (0x2000 <= u
        <= 0x200a) || u == 0x2028 || u == 0x2029 || u == 0x202f || u == 0x205f || u == 0x3000
}

/// The text holds a character other than whitespace, so trimming leaves it non-empty.
pub open spec fn has_visible(s: Seq<char>) -> bool {
    exists|i: int| 0 <= i < s.len() && !is_white_space(#[trigger] s[i])
}

pub fn is_white_space_char(c: char) -> (r: bool)
    ensures
        r == is_white_space(c),
{
    let u = c as u32;
    (0x09 <= u && u <= 0x0d) || u == 0x20 || u == 0x85 || u == 0xa0 || u == 0x1680 || (0x2000 <= u
        && u <= 0x200a) || u == 0x2028 || u == 0x2029 || u == 0x202f || u == 0x205f || u == 0x3000
}

/// Whether trimming whitespace off `s` leaves anything.
pub fn has_visible_char(s: &str) -> (r: bool)
    ensures
        r == has_visible(s@),
{
    let n = s.unicode_len();
    let mut i: usize = 0;
    while i < n
        invariant
            i <= n,
            n == s@.len(),
            forall|j: int| 0 <= j < i ==> is_white_space(#[trigger] s@[j]),
        decreases n - i,
    {
        if !is_white_space_char(s.get_char(i)) {
            return true;
        }
        i = i + 1;
    }
    false
}

/// The decimal digit `d` as a character.
pub open spec fn digit_char(d: int) -> char {
    (48 + d) as char
}

/// Decimal representation of `n`, without leading zeros.
pub open spec fn decimal(n: nat) -> Seq<char>
    decreases n,
{
    if n < 10 {
        seq![digit_char(n as int)]
    } else {
        decimal(n / 10).push(digit_char((n % 10) as int))
    }
}

/// Appends one character to a string (std's `String::push`).
#[verifier::external_body]
pub(crate) fn push_char(s: &mut String, c: char)
    ensures
        final(s)@ == old(s)@.push(c),
{
    s.push(c);
}

/// Appends the decimal representation of `n`.
pub fn push_decimal(s: &mut String, n: u64)
    ensures
        final(s)@ == old(s)@ + decimal(n as nat),
    decreases n,
{
    if n >= 10 {
        push_decimal(s, n / 10);
    }
    let d = (n % 10) as u8;
    push_char(s, (48u8 + d) as char);
    proof {
        assert(s@ =~= old(s)@ + decimal(n as nat)) by {
            if n >= 10 {
                assert(decimal(n as nat) == decimal((n / 10) as nat).push(digit_char((n % 10) as int)));
            }
        }
    }
}

/// The last `width` decimal digits of `n`, with leading zeros.
pub open spec fn padded_decimal(n: nat, width: nat) -> Seq<char>
    decreases width,
{
    if width == 0 {
        seq![]
    } else {
        padded_decimal(n / 10, (width - 1) as nat).push(digit_char((n % 10) as int))
    }
}

/// Decimal representation of a signed integer.
pub open spec fn signed_decimal(v: int) -> Seq<char> {
    if v < 0 { seq!['-'] + decimal((-v) as nat) } else { decimal(v as nat) }
}

/// `num / den` with six decimals, rounded to the nearest, ties to even.
pub open spec fn fixed6(num: nat, den: nat) -> Seq<char> {
    let scaled = num * 1000000;
    let q = scaled / den;
    let r = scaled % den;
    let m: nat = if 2 * r > den || (2 * r == den && q % 2 == 1) { q + 1 } else { q };
    decimal(m / 1000000) + seq!['.'] + padded_decimal(m % 1000000, 6)
}

/// Appends the last `width` decimal digits of `n`, with leading zeros.
pub fn push_padded_decimal(s: &mut String, n: u64, width: u32)
    ensures
        final(s)@ == old(s)@ + padded_decimal(n as nat, width as nat),
    decreases width,
{
    if width == 0 {
        assert(s@ =~= old(s)@ + padded_decimal(n as nat, width as nat));
        return;
    }
    push_padded_decimal(s, n / 10, width - 1);
    let d = (n % 10) as u8;
    push_char(s, (48u8 + d) as char);
    assert(s@ =~= old(s)@ + padded_decimal(n as nat, width as nat));
}

/// Appends the decimal representation of a signed integer.
pub fn push_signed_decimal(s: &mut String, v: i32)
    ensures
        final(s)@ == old(s)@ + signed_decimal(v as int),
{
    if v < 0 {
        push_char(s, '-');
        let m: u64 = (-(v as i64)) as u64;
        push_decimal(s, m);
        assert(s@ =~= old(s)@ + signed_decimal(v as int));
    } else {
        push_decimal(s, v as u64);
    }
}

/// Appends `num / den` with six decimals, rounded to the nearest, ties to even.
pub fn push_fixed6(s: &mut String, num: u32, den: u32)
    requires
        den > 0,
    ensures
        final(s)@ == old(s)@ + fixed6(num as nat, den as nat),
{
    let scaled: u64 = num as u64 * 1000000;
    let q: u64 = scaled / den as u64;
    let r: u64 = scaled % den as u64;
    proof {
        assert(q <= scaled) by (nonlinear_arith)
            requires
                q == scaled / (den as u64),
                den > 0,
        ;
    }
    let m: u64 = if 2 * r > den as u64 || (2 * r == den as u64 && q % 2 == 1) { q + 1 } else { q };
    push_decimal(s, m / 1000000);
    push_char(s, '.');
    push_padded_decimal(s, m % 1000000, 6);
    assert(s@ =~= old(s)@ + fixed6(num as nat, den as nat));
}

/// Appends `text` to `s`.
pub fn push_str(s: &mut String, text: &str)
    ensures
        final(s)@ == old(s)@ + text@,
{
    s.append(text);
}

} // verus!
