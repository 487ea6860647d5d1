//! Verified rendering of integers as decimal text.

use vstd::prelude::*;
use crate::text::chars_to_string;

verus! {

/// The digit character for a value below ten.
pub open spec fn digit_char(d: int) -> char
    recommends
        0 <= d < 10,
{
    ((48 + d) as u8) as char
}

/// The decimal representation of a natural number, most significant digit
/// first, with no sign and no leading zeros (zero itself is `"0"`).
pub open spec fn dec_rep(n: nat) -> Seq<char>
    decreases n,
{
    if n < 10 {
        seq![digit_char(n as int)]
    } else {
        dec_rep(n / 10).push(digit_char((n % 10) as int))
    }
}

/// The decimal representation of an integer: a `-` sign for negative values,
/// then the digits of the magnitude.
pub open spec fn int_rep(i: int) -> Seq<char> {
    if i < 0 {
        seq!['-'] + dec_rep((-i) as nat)
    } else {
        dec_rep(i as nat)
    }
}

fn digit_to_char(d: u8) -> (c: char)
    requires
        d < 10,
    ensures
        c == digit_char(d as int),
{
    (48 + d) as char
}

/// Renders an unsigned value in decimal.
pub fn u128_to_string(n: u128) -> (r: String)
    ensures
        r@ == dec_rep(n as nat),
{
    let mut digits: Vec<char> = Vec::new();
    let mut m: u128 = n;
    loop
        invariant_except_break
            digits@.len() == 0 ==> m == n,
            digits@.len() > 0 ==> m > 0 && dec_rep(n as nat) == dec_rep(m as nat) + digits@.reverse(),
        ensures
            dec_rep(n as nat) == digits@.reverse(),
        decreases m,
    {
        let d = (m % 10) as u8;
        let next = m / 10;
        let ghost prev_digits = digits@;
        let ghost m_old = m as nat;
        digits.push(digit_to_char(d));
        assert(digits@.reverse() =~= seq![digit_char(d as int)] + prev_digits.reverse());
        proof {
            if m >= 10 {
                assert(dec_rep(m_old) == dec_rep(m_old / 10).push(digit_char((m_old % 10) as int)));
                assert(dec_rep(m_old) =~= dec_rep(next as nat) + seq![digit_char(d as int)]);
                if prev_digits.len() > 0 {
                    assert(dec_rep(n as nat) =~= dec_rep(next as nat) + digits@.reverse());
                } else {
                    assert(dec_rep(n as nat) =~= dec_rep(next as nat) + digits@.reverse());
                }
            } else {
                assert(dec_rep(m_old) =~= seq![digit_char(d as int)]);
                if prev_digits.len() > 0 {
                    assert(dec_rep(n as nat) =~= digits@.reverse());
                } else {
                    assert(dec_rep(n as nat) =~= digits@.reverse());
                }
            }
        }
        m = next;
        if m == 0 {
            break;
        }
    }
    let mut out: Vec<char> = Vec::new();
    let len = digits.len();
    let mut i: usize = 0;
    while i < len
        invariant
            len == digits@.len(),
            i <= len,
            out@ == digits@.reverse().take(i as int),
        decreases len - i,
    {
        out.push(digits[len - 1 - i]);
        assert(out@ =~= digits@.reverse().take(i + 1 as int));
        i = i + 1;
    }
    assert(out@ =~= digits@.reverse());
    chars_to_string(&out)
}

/// Renders a signed value in decimal.
pub fn i128_to_string(n: i128) -> (r: String)
    ensures
        r@ == int_rep(n as int),
{
    if n >= 0 {
        u128_to_string(n as u128)
    } else {
        let mag: u128 = if n == i128::MIN {
            170141183460469231731687303715884105728u128
        } else {
            (-n) as u128
        };
        assert(mag as nat == (-(n as int)) as nat);
        let digits = u128_to_string(mag);
        let mut out: Vec<char> = Vec::new();
        out.push('-');
        let n_digits = digits.unicode_len();
        let mut i: usize = 0;
        while i < n_digits
            invariant
                n_digits == digits@.len(),
                i <= n_digits,
                out@ == seq!['-'] + digits@.take(i as int),
            decreases n_digits - i,
        {
            out.push(digits.as_str().get_char(i));
            assert(out@ =~= seq!['-'] + digits@.take(i + 1 as int));
            i = i + 1;
        }
        assert(out@ =~= seq!['-'] + digits@);
        chars_to_string(&out)
    }
}

} // verus!
