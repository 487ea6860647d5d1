//! Classification of a raw value string: a 32-bit integer parse is tried
//! first, then a 32-bit float parse, and a string always succeeds.

use vstd::prelude::*;
use crate::text::lower_char;
use crate::value::{EnvType, ValueModel};

verus! {

pub open spec fn is_digit(c: char) -> bool {
    '0' <= c && c <= '9'
}

pub open spec fn digit_val(c: char) -> int
    recommends
        is_digit(c),
{
    c as int - 48
}

pub open spec fn all_digits(s: Seq<char>) -> bool {
    forall|i: int| 0 <= i < s.len() ==> is_digit(#[trigger] s[i])
}

/// The value of a run of decimal digits.
pub open spec fn digits_val(s: Seq<char>) -> int
    decreases s.len(),
{
    if s.len() == 0 {
        0
    } else {
        digits_val(s.drop_last()) * 10 + digit_val(s.last())
    }
}

/// `s` with one leading sign character removed, if it has one.
pub open spec fn strip_sign(s: Seq<char>) -> Seq<char> {
    if s.len() > 0 && (s[0] == '+' || s[0] == '-') {
        s.drop_first()
    } else {
        s
    }
}

/// An optional sign followed by one or more decimal digits.
pub open spec fn is_int_literal(s: Seq<char>) -> bool {
    strip_sign(s).len() > 0 && all_digits(strip_sign(s))
}

/// The value of an integer literal.
pub open spec fn int_literal_val(s: Seq<char>) -> int
    recommends
        is_int_literal(s),
{
    if s.len() > 0 && s[0] == '-' {
        -digits_val(strip_sign(s))
    } else {
        digits_val(strip_sign(s))
    }
}

/// Whether `s` is an integer literal whose value fits in 32 signed bits.
pub open spec fn parses_as_i32(s: Seq<char>) -> bool {
    is_int_literal(s) && -0x8000_0000 <= int_literal_val(s) <= 0x7fff_ffff
}

proof fn lemma_digits_val_nonneg(s: Seq<char>)
    requires
        all_digits(s),
    ensures
        digits_val(s) >= 0,
    decreases s.len(),
{
    if s.len() > 0 {
        assert(all_digits(s.drop_last()));
        lemma_digits_val_nonneg(s.drop_last());
    }
}

/// Appending digits never shrinks the value of a digit run.
proof fn lemma_digits_val_prefix(s: Seq<char>, i: int)
    requires
        all_digits(s),
        0 <= i <= s.len(),
    ensures
        digits_val(s) >= digits_val(s.take(i)),
    decreases s.len() - i,
{
    if i < s.len() {
        lemma_digits_val_prefix(s, i + 1);
        assert(s.take(i + 1).drop_last() =~= s.take(i));
        assert(all_digits(s.take(i)));
        lemma_digits_val_nonneg(s.take(i));
        assert(digits_val(s.take(i + 1)) == digits_val(s.take(i)) * 10 + digit_val(s[i]));
    } else {
        assert(s.take(i) =~= s);
    }
}

/// Tries to read the whole string as a decimal 32-bit signed integer:
/// an optional sign, then one or more digits, with the value in range.
pub fn parse_i32(v: &str) -> (r: Option<i32>)
    ensures
        r is Some <==> parses_as_i32(v@),
        r matches Some(x) ==> x as int == int_literal_val(v@),
{
    let n = v.unicode_len();
    let mut start: usize = 0;
    let mut neg = false;
    if n > 0 {
        let c0 = v.get_char(0);
        if c0 == '+' {
            start = 1;
        } else if c0 == '-' {
            neg = true;
            start = 1;
        }
    }
    let ghost t = strip_sign(v@);
    proof {
        assert(t =~= v@.skip(start as int));
    }
    if start == n {
        return None;
    }
    let mut acc: u64 = 0;
    let mut j: usize = start;
    while j < n
        invariant
            n == v@.len(),
            start <= j <= n,
            start < n,
            t == strip_sign(v@),
            t == v@.skip(start as int),
            neg <==> (v@.len() > 0 && v@[0] == '-'),
            acc <= 0x8000_0000,
            acc as int == digits_val(t.take(j - start)),
            all_digits(t.take(j - start)),
        decreases n - j,
    {
        let c = v.get_char(j);
        let u = c as u32;
        if u < 48 || u > 57 {
            proof {
                assert(t[j - start] == v@[j as int]);
                assert(!is_digit(t[j - start]));
                assert(!all_digits(t));
            }
            return None;
        }
        let ghost prev = t.take(j - start);
        acc = acc * 10 + ((u - 48) as u64);
        proof {
            assert(t[j - start] == v@[j as int]);
            assert(t.take(j - start + 1).drop_last() =~= prev);
            assert(t.take(j - start + 1).last() == v@[j as int]);
            assert(digit_val(v@[j as int]) == u - 48);
        }
        if acc > 0x8000_0000 {
            proof {
                if parses_as_i32(v@) {
                    assert(all_digits(t));
                    assert(t.take(j - start + 1) =~= t.take(j + 1 - start));
                    lemma_digits_val_prefix(t, j + 1 - start);
                    assert(digits_val(t) > 0x8000_0000);
                    if v@[0] == '-' {
                        assert(int_literal_val(v@) < -0x8000_0000);
                    } else {
                        assert(int_literal_val(v@) > 0x7fff_ffff);
                    }
                }
            }
            return None;
        }
        j = j + 1;
    }
    proof {
        assert(t.take(n - start) =~= t);
        assert(is_int_literal(v@));
    }
    if neg {
        proof {
            assert(v@[0] == '-');
            assert(int_literal_val(v@) == -(acc as int));
        }
        if acc == 0x8000_0000 {
            Some(i32::MIN)
        } else {
            Some(-(acc as i32))
        }
    } else {
        if acc > 0x7fff_ffff {
            proof {
                assert(int_literal_val(v@) == acc as int);
            }
            None
        } else {
            Some(acc as i32)
        }
    }
}

pub open spec fn is_e(c: char) -> bool {
    c == 'e' || c == 'E'
}

/// The word `inf`, in any letter case.
pub open spec fn is_inf_word(s: Seq<char>) -> bool {
    s.len() == 3 && lower_char(s[0]) == 'i' && lower_char(s[1]) == 'n' && lower_char(s[2]) == 'f'
}

/// The word `infinity`, in any letter case.
pub open spec fn is_infinity_word(s: Seq<char>) -> bool {
    s.len() == 8 && lower_char(s[0]) == 'i' && lower_char(s[1]) == 'n' && lower_char(s[2]) == 'f'
        && lower_char(s[3]) == 'i' && lower_char(s[4]) == 'n' && lower_char(s[5]) == 'i'
        && lower_char(s[6]) == 't' && lower_char(s[7]) == 'y'
}

/// The word `nan`, in any letter case.
pub open spec fn is_nan_word(s: Seq<char>) -> bool {
    s.len() == 3 && lower_char(s[0]) == 'n' && lower_char(s[1]) == 'a' && lower_char(s[2]) == 'n'
}

/// Digits with at most one decimal point among them, and at least one digit.
pub open spec fn is_mantissa(s: Seq<char>) -> bool {
    &&& s.len() > 0
    &&& forall|i: int| 0 <= i < s.len() ==> is_digit(#[trigger] s[i]) || s[i] == '.'
    &&& exists|i: int| 0 <= i < s.len() && is_digit(#[trigger] s[i])
    &&& forall|i: int, j: int|
        0 <= i < j < s.len() ==> !(#[trigger] s[i] == '.' && #[trigger] s[j] == '.')
}

/// An optional sign followed by one or more digits.
pub open spec fn is_exponent(s: Seq<char>) -> bool {
    strip_sign(s).len() > 0 && all_digits(strip_sign(s))
}

/// A mantissa, optionally followed by an exponent marker and an exponent.
pub open spec fn is_number(s: Seq<char>) -> bool {
    ||| is_mantissa(s)
    ||| exists|i: int|
        0 <= i < s.len() && is_e(#[trigger] s[i]) && is_mantissa(s.take(i)) && is_exponent(
            s.skip(i + 1),
        )
}

/// The grammar the 32-bit float parse accepts: an optional sign, then one of
/// the special words or a number.
pub open spec fn is_f32_literal(s: Seq<char>) -> bool {
    ||| is_inf_word(strip_sign(s))
    ||| is_infinity_word(strip_sign(s))
    ||| is_nan_word(strip_sign(s))
    ||| is_number(strip_sign(s))
}

fn lower_ascii_char(c: char) -> (r: char)
    ensures
        r == lower_char(c),
{
    let u = c as u32;
    if 65 <= u && u <= 90 {
        ((u + 32) as u8) as char
    } else {
        c
    }
}

fn all_digits_range(v: &str, from: usize, to: usize) -> (r: bool)
    requires
        from <= to <= v@.len(),
    ensures
        r == all_digits(v@.subrange(from as int, to as int)),
{
    let ghost s = v@.subrange(from as int, to as int);
    let mut j: usize = from;
    while j < to
        invariant
            from <= j <= to <= v@.len(),
            s == v@.subrange(from as int, to as int),
            forall|k: int| from <= k < j ==> is_digit(#[trigger] v@[k]),
        decreases to - j,
    {
        let c = v.get_char(j);
        let u = c as u32;
        if u < 48 || u > 57 {
            proof {
                assert(s[j - from] == v@[j as int]);
                assert(!all_digits(s));
            }
            return false;
        }
        j = j + 1;
    }
    proof {
        assert forall|k: int| 0 <= k < s.len() implies is_digit(#[trigger] s[k]) by {
            assert(s[k] == v@[from + k]);
        }
    }
    true
}

fn mantissa_range(v: &str, from: usize, to: usize) -> (r: bool)
    requires
        from <= to <= v@.len(),
    ensures
        r == is_mantissa(v@.subrange(from as int, to as int)),
{
    let ghost s = v@.subrange(from as int, to as int);
    if from == to {
        return false;
    }
    let mut has_digit = false;
    let mut has_dot = false;
    let mut j: usize = from;
    while j < to
        invariant
            from <= j <= to <= v@.len(),
            from < to,
            s == v@.subrange(from as int, to as int),
            forall|k: int| from <= k < j ==> is_digit(#[trigger] v@[k]) || v@[k] == '.',
            has_digit <==> exists|k: int| from <= k < j && is_digit(#[trigger] v@[k]),
            has_dot <==> exists|k: int| from <= k < j && #[trigger] v@[k] == '.',
            forall|k1: int, k2: int|
                from <= k1 < k2 < j ==> !(#[trigger] v@[k1] == '.' && #[trigger] v@[k2] == '.'),
        decreases to - j,
    {
        let c = v.get_char(j);
        let u = c as u32;
        if c == '.' {
            if has_dot {
                proof {
                    let k0 = choose|k: int| from <= k < j && #[trigger] v@[k] == '.';
                    assert(s[k0 - from] == v@[k0]);
                    assert(s[j - from] == v@[j as int]);
                    assert(!is_mantissa(s));
                }
                return false;
            }
            has_dot = true;
        } else if 48 <= u && u <= 57 {
            has_digit = true;
        } else {
            proof {
                assert(s[j - from] == v@[j as int]);
                assert(!is_mantissa(s));
            }
            return false;
        }
        j = j + 1;
    }
    proof {
        if has_digit {
            let k0 = choose|k: int| from <= k < to && is_digit(#[trigger] v@[k]);
            assert(s[k0 - from] == v@[k0]);
            assert(forall|k: int| 0 <= k < s.len() ==> #[trigger] s[k] == v@[from + k]);
            assert(is_mantissa(s));
        } else {
            assert forall|k: int| 0 <= k < s.len() implies !is_digit(#[trigger] s[k]) by {
                assert(s[k] == v@[from + k]);
            }
            assert(!is_mantissa(s));
        }
    }
    has_digit
}

fn exponent_range(v: &str, from: usize, to: usize) -> (r: bool)
    requires
        from <= to <= v@.len(),
    ensures
        r == is_exponent(v@.subrange(from as int, to as int)),
{
    let ghost s = v@.subrange(from as int, to as int);
    if from == to {
        return false;
    }
    let c0 = v.get_char(from);
    let dfrom: usize = if c0 == '+' || c0 == '-' {
        from + 1
    } else {
        from
    };
    proof {
        assert(s[0] == v@[from as int]);
        assert(strip_sign(s) =~= v@.subrange(dfrom as int, to as int));
    }
    if dfrom == to {
        return false;
    }
    all_digits_range(v, dfrom, to)
}

/// Whether the 32-bit float parse accepts `v`.
pub fn is_float_text(v: &str) -> (r: bool)
    ensures
        r == is_f32_literal(v@),
{
    let n = v.unicode_len();
    let mut start: usize = 0;
    if n > 0 {
        let c0 = v.get_char(0);
        if c0 == '+' || c0 == '-' {
            start = 1;
        }
    }
    let ghost t = strip_sign(v@);
    proof {
        assert(t =~= v@.skip(start as int));
        assert(t =~= v@.subrange(start as int, n as int));
    }
    if start == n {
        return false;
    }
    let m = n - start;
    if m == 3 {
        let a = lower_ascii_char(v.get_char(start));
        let b = lower_ascii_char(v.get_char(start + 1));
        let c = lower_ascii_char(v.get_char(start + 2));
        if (a == 'i' && b == 'n' && c == 'f') || (a == 'n' && b == 'a' && c == 'n') {
            return true;
        }
    }
    if m == 8 {
        let w0 = lower_ascii_char(v.get_char(start));
        let w1 = lower_ascii_char(v.get_char(start + 1));
        let w2 = lower_ascii_char(v.get_char(start + 2));
        let w3 = lower_ascii_char(v.get_char(start + 3));
        let w4 = lower_ascii_char(v.get_char(start + 4));
        let w5 = lower_ascii_char(v.get_char(start + 5));
        let w6 = lower_ascii_char(v.get_char(start + 6));
        let w7 = lower_ascii_char(v.get_char(start + 7));
        if w0 == 'i' && w1 == 'n' && w2 == 'f' && w3 == 'i' && w4 == 'n' && w5 == 'i' && w6 == 't'
            && w7 == 'y' {
            return true;
        }
    }
    let mut fe: usize = start;
    loop
        invariant_except_break
            start <= fe <= n,
            n == v@.len(),
            forall|k: int| start <= k < fe ==> !is_e(#[trigger] v@[k]),
        ensures
            start <= fe <= n,
            n == v@.len(),
            forall|k: int| start <= k < fe ==> !is_e(#[trigger] v@[k]),
            fe < n ==> is_e(v@[fe as int]),
        decreases n - fe,
    {
        if fe == n {
            break;
        }
        let c = v.get_char(fe);
        if c == 'e' || c == 'E' {
            break;
        }
        fe = fe + 1;
    }
    let mantissa_ok = mantissa_range(v, start, fe);
    proof {
        assert(t.take(fe - start) =~= v@.subrange(start as int, fe as int));
        assert forall|k: int| 0 <= k < t.len() implies #[trigger] t[k] == v@[start + k] by {}
    }
    if !mantissa_ok {
        proof {
            assert(!is_mantissa(t.take(fe - start)));
            if fe == n {
                assert(t.take(fe - start) =~= t);
                assert(!is_mantissa(t));
                assert forall|i: int| 0 <= i < t.len() implies !is_e(#[trigger] t[i]) by {
                    assert(t[i] == v@[start + i]);
                }
                assert(!is_number(t));
            } else {
                assert(is_e(t[fe - start]));
                assert(!is_digit(t[fe - start]) && t[fe - start] != '.');
                assert(!is_mantissa(t));
                assert forall|i: int|
                    0 <= i < t.len() && is_e(#[trigger] t[i]) implies !(is_mantissa(t.take(i))
                    && is_exponent(t.skip(i + 1))) by {
                    if i < fe - start {
                        assert(t[i] == v@[start + i]);
                        assert(!is_e(t[i]));
                    } else if i == fe - start {
                        assert(!is_mantissa(t.take(i)));
                    } else {
                        assert(t.take(i)[fe - start] == t[fe - start]);
                        assert(!is_mantissa(t.take(i)));
                    }
                }
                assert(!is_number(t));
            }
        }
        return false;
    }
    if fe == n {
        proof {
            assert(t.take(fe - start) =~= t);
            assert(is_mantissa(t));
        }
        return true;
    }
    let expo_ok = exponent_range(v, fe + 1, n);
    proof {
        assert(t.skip(fe - start + 1) =~= v@.subrange(fe + 1 as int, n as int));
        assert(is_e(t[fe - start]));
        assert(!is_mantissa(t));
        if expo_ok {
            assert(is_mantissa(t.take(fe - start)) && is_exponent(t.skip(fe - start + 1)));
            assert(is_number(t));
        } else {
            assert forall|i: int|
                0 <= i < t.len() && is_e(#[trigger] t[i]) implies !(is_mantissa(t.take(i))
                && is_exponent(t.skip(i + 1))) by {
                if i < fe - start {
                    assert(t[i] == v@[start + i]);
                    assert(!is_e(t[i]));
                } else if i == fe - start {
                    assert(!is_exponent(t.skip(i + 1)));
                } else {
                    assert(t.take(i)[fe - start] == t[fe - start]);
                    assert(!is_mantissa(t.take(i)));
                }
            }
            assert(!is_number(t));
        }
    }
    expo_ok
}

/// The type assigned to a raw value: the first parse in the cascade that
/// accepts it wins, and a string always succeeds.
pub open spec fn classify_spec(v: Seq<char>) -> ValueModel {
    if parses_as_i32(v) {
        ValueModel::I32(int_literal_val(v))
    } else if is_f32_literal(v) {
        ValueModel::F32(v)
    } else {
        ValueModel::Str(v)
    }
}

/// Classifies a raw value string by trying, in order: a 32-bit signed
/// integer parse, a 32-bit float parse, and the string fallback.
pub fn classify(value: &str) -> (r: EnvType)
    ensures
        r@ == classify_spec(value@),
{
    match parse_i32(value) {
        Some(x) => EnvType::I32(x),
        None => {
            if is_float_text(value) {
                EnvType::F32(value.to_owned())
            } else {
                EnvType::StaticStr(value.to_owned())
            }
        },
    }
}

} // verus!
