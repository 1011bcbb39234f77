//! Number literals of unquoted HOCON values: the texts that Rust's `i64` and
//! `f64` `FromStr` implementations accept.

use vstd::prelude::*;

use crate::text::{
    ascii_lower, ascii_lowercase, digit_run, digits_value, is_digit,
    lemma_digit_run_exact, lemma_digit_run_prefix, lemma_digits_value_monotone,
};

verus! {

/// `t` without one leading `+` or `-`, and whether that sign was `-`.
pub open spec fn split_sign(t: Seq<char>) -> (bool, Seq<char>) {
    if t.len() > 0 && t[0] == '-' {
        (true, t.drop_first())
    } else if t.len() > 0 && t[0] == '+' {
        (false, t.drop_first())
    } else {
        (false, t)
    }
}

/// The value of an integer literal as `i64::from_str` reads it: an optional
/// sign followed by at least one ASCII digit, and a value in the `i64` range.
pub open spec fn int_literal(t: Seq<char>) -> Option<int> {
    let (negative, digits) = split_sign(t);
    if digits.len() == 0 || digit_run(digits) != digits.len() {
        None
    } else {
        let magnitude = digits_value(digits) as int;
        let value = if negative {
            -magnitude
        } else {
            magnitude
        };
        if i64::MIN <= value <= i64::MAX {
            Some(value)
        } else {
            None
        }
    }
}

/// Whether `e` is empty or an exponent: `e` or `E`, an optional sign and at
/// least one digit, up to the end.
pub open spec fn is_exponent(e: Seq<char>) -> bool {
    ||| e.len() == 0
    ||| {
        &&& (e[0] == 'e' || e[0] == 'E')
        &&& {
            let digits = split_sign(e.drop_first()).1;
            digits.len() > 0 && digit_run(digits) == digits.len()
        }
    }
}

/// Whether `u` is a decimal number: digits, optionally a `.` and more digits,
/// with at least one digit in all, then an optional exponent.
pub open spec fn is_decimal_number(u: Seq<char>) -> bool {
    let a = digit_run(u);
    let r = u.skip(a as int);
    if r.len() > 0 && r[0] == '.' {
        let b = digit_run(r.drop_first());
        a + b > 0 && is_exponent(r.drop_first().skip(b as int))
    } else {
        a > 0 && is_exponent(r)
    }
}

/// Whether `t` is accepted by `f64::from_str`: an optional sign, then
/// `inf`, `infinity` or `nan` in any case, or a decimal number (the grammar
/// documented for `impl FromStr for f64`).
pub open spec fn float_literal(t: Seq<char>) -> bool {
    let u = split_sign(t).1;
    let l = ascii_lowercase(u);
    ||| l == seq!['i', 'n', 'f']
    ||| l == seq!['i', 'n', 'f', 'i', 'n', 'i', 't', 'y']
    ||| l == seq!['n', 'a', 'n']
    ||| is_decimal_number(u)
}

/// The end of the digit run starting at `from`.
fn digit_run_end(chars: &Vec<char>, from: usize, to: usize) -> (end: usize)
    requires
        from <= to <= chars@.len(),
    ensures
        from <= end <= to,
        end - from == digit_run(chars@.subrange(from as int, to as int)),
{
    let mut i = from;
    while i < to && '0' <= chars[i] && chars[i] <= '9'
        invariant
            from <= i <= to <= chars@.len(),
            forall|k: int| from <= k < i ==> is_digit(#[trigger] chars@[k]),
        decreases to - i,
    {
        i += 1;
    }
    proof {
        let s = chars@.subrange(from as int, to as int);
        assert forall|k: int| 0 <= k < i - from implies is_digit(#[trigger] s[k]) by {
            assert(s[k] == chars@[from + k]);
        }
        lemma_digit_run_exact(s, (i - from) as nat);
    }
    i
}

/// The value of `chars[from..to]` as an integer literal, as `i64::from_str`
/// reads it.
pub fn parse_int(chars: &Vec<char>, from: usize, to: usize) -> (value: Option<i64>)
    requires
        from <= to <= chars@.len(),
    ensures
        match value {
            Some(v) => int_literal(chars@.subrange(from as int, to as int)) == Some(v as int),
            None => int_literal(chars@.subrange(from as int, to as int)) is None,
        },
{
    let ghost t = chars@.subrange(from as int, to as int);
    let negative = from < to && chars[from] == '-';
    let start = if from < to && (chars[from] == '-' || chars[from] == '+') {
        from + 1
    } else {
        from
    };
    let ghost digits = chars@.subrange(start as int, to as int);
    assert(split_sign(t) == (negative, digits)) by {
        if from < to {
            assert(t.drop_first() =~= chars@.subrange(from + 1, to as int));
        }
    }
    let end = digit_run_end(chars, start, to);
    if start == to || end != to {
        return None;
    }
    assert forall|k: int| 0 <= k < digits.len() implies is_digit(#[trigger] digits[k]) by {
        lemma_digit_run_prefix(digits, k);
    }
    // the largest magnitude the sign allows
    let limit: u64 = if negative {
        9223372036854775808
    } else {
        9223372036854775807
    };
    let mut magnitude: u64 = 0;
    let mut i = start;
    while i < to
        invariant
            start <= i <= to <= chars@.len(),
            digits == chars@.subrange(start as int, to as int),
            forall|k: int| 0 <= k < digits.len() ==> is_digit(#[trigger] digits[k]),
            magnitude == digits_value(chars@.subrange(start as int, i as int)),
            magnitude <= limit,
            negative ==> limit == 9223372036854775808,
            !negative ==> limit == 9223372036854775807,
            split_sign(chars@.subrange(from as int, to as int)) == (negative, digits),
            digits.len() > 0,
            digit_run(digits) == digits.len(),
        decreases to - i,
    {
        assert(is_digit(digits[i - start]));
        assert(digits[i - start] == chars@[i as int]);
        let d = (chars[i] as u32 - '0' as u32) as u64;
        let ghost prefix = chars@.subrange(start as int, i as int + 1);
        assert(prefix.drop_last() =~= chars@.subrange(start as int, i as int));
        assert(prefix.last() == chars@[i as int]);
        assert(d <= 9);
        assert(digits_value(prefix) == magnitude * 10 + d);
        if magnitude > (limit - d) / 10 {
            proof {
                assert(magnitude * 10 + d > limit) by (nonlinear_arith)
                    requires
                        magnitude > (limit - d) / 10,
                        d <= limit,
                ;
                assert(digits.subrange(0, (i + 1 - start) as int) =~= prefix);
                lemma_digits_value_monotone(digits, (i + 1 - start) as nat);
                assert(digits_value(digits) > limit);
                assert(int_literal(chars@.subrange(from as int, to as int)) is None);
            }
            return None;
        }
        assert(magnitude * 10 + d <= limit) by (nonlinear_arith)
            requires
                magnitude <= (limit - d) / 10,
                d <= 9,
                limit >= 9,
        ;
        magnitude = magnitude * 10 + d;
        i += 1;
    }
    assert(chars@.subrange(start as int, to as int) =~= digits);
    if negative {
        if magnitude == 9223372036854775808 {
            Some(i64::MIN)
        } else {
            Some(-(magnitude as i64))
        }
    } else {
        Some(magnitude as i64)
    }
}


/// Whether `chars[from..to]` is empty or an exponent.
fn exponent_at(chars: &Vec<char>, from: usize, to: usize) -> (b: bool)
    requires
        from <= to <= chars@.len(),
    ensures
        b == is_exponent(chars@.subrange(from as int, to as int)),
{
    let ghost e = chars@.subrange(from as int, to as int);
    if from == to {
        return true;
    }
    if chars[from] != 'e' && chars[from] != 'E' {
        return false;
    }
    let q = from + 1;
    let r = if q < to && (chars[q] == '+' || chars[q] == '-') {
        q + 1
    } else {
        q
    };
    assert(split_sign(e.drop_first()).1 =~= chars@.subrange(r as int, to as int)) by {
        assert(e.drop_first() =~= chars@.subrange(q as int, to as int));
        if q < to {
            assert(e.drop_first().drop_first() =~= chars@.subrange(q + 1, to as int));
        }
    }
    r < to && digit_run_end(chars, r, to) == to
}

/// Whether `c`, lowercased, is `lower` (itself a lowercase ASCII letter).
fn is_letter(c: char, lower: char, upper: char) -> (b: bool)
    requires
        'a' <= lower <= 'z',
        upper as int == lower as int - 32,
    ensures
        b == (ascii_lower(c) == lower),
{
    c == lower || c == upper
}

/// Whether `chars[from..to]` is accepted by `f64::from_str`.
pub fn is_float(chars: &Vec<char>, from: usize, to: usize) -> (b: bool)
    requires
        from <= to <= chars@.len(),
    ensures
        b == float_literal(chars@.subrange(from as int, to as int)),
{
    let ghost t = chars@.subrange(from as int, to as int);
    let start = if from < to && (chars[from] == '-' || chars[from] == '+') {
        from + 1
    } else {
        from
    };
    let ghost u = chars@.subrange(start as int, to as int);
    assert(split_sign(t).1 == u) by {
        if from < to {
            assert(t.drop_first() =~= chars@.subrange(from + 1, to as int));
        }
    }
    let ghost l = ascii_lowercase(u);
    let n = to - start;
    let inf = n >= 3 && is_letter(chars[start], 'i', 'I') && is_letter(chars[start + 1], 'n', 'N')
        && is_letter(chars[start + 2], 'f', 'F');
    let special = (n == 3 && inf) || (n == 8 && inf && is_letter(chars[start + 3], 'i', 'I')
        && is_letter(chars[start + 4], 'n', 'N') && is_letter(chars[start + 5], 'i', 'I')
        && is_letter(chars[start + 6], 't', 'T') && is_letter(chars[start + 7], 'y', 'Y')) || (n
        == 3 && is_letter(chars[start], 'n', 'N') && is_letter(chars[start + 1], 'a', 'A')
        && is_letter(chars[start + 2], 'n', 'N'));
    assert(special == (l == seq!['i', 'n', 'f'] || l == seq!['i', 'n', 'f', 'i', 'n', 'i', 't', 'y']
        || l == seq!['n', 'a', 'n'])) by {
        assert(l.len() == n);
        assert forall|k: int| 0 <= k < n implies #[trigger] l[k] == ascii_lower(chars@[start + k]) by {
            assert(u[k] == chars@[start + k]);
        }
        if l == seq!['i', 'n', 'f'] || l == seq!['i', 'n', 'f', 'i', 'n', 'i', 't', 'y'] || l
            == seq!['n', 'a', 'n'] {
            assert(l[0] == ascii_lower(chars@[start as int]));
            assert(l[1] == ascii_lower(chars@[start + 1]));
            assert(l[2] == ascii_lower(chars@[start + 2]));
            if n == 8 {
                assert(l[3] == ascii_lower(chars@[start + 3]));
                assert(l[4] == ascii_lower(chars@[start + 4]));
                assert(l[5] == ascii_lower(chars@[start + 5]));
                assert(l[6] == ascii_lower(chars@[start + 6]));
                assert(l[7] == ascii_lower(chars@[start + 7]));
            }
        }
        if special {
            if n == 3 && inf {
                assert(l =~= seq!['i', 'n', 'f']);
            } else if n == 8 {
                assert(l =~= seq!['i', 'n', 'f', 'i', 'n', 'i', 't', 'y']);
            } else {
                assert(l =~= seq!['n', 'a', 'n']);
            }
        }
    }
    if special {
        return true;
    }
    let a_end = digit_run_end(chars, start, to);
    let a = a_end - start;
    assert(u.skip(a as int) =~= chars@.subrange(a_end as int, to as int));
    if a_end < to && chars[a_end] == '.' {
        let b_end = digit_run_end(chars, a_end + 1, to);
        let b = b_end - (a_end + 1);
        assert(u.skip(a as int).drop_first() =~= chars@.subrange(a_end + 1, to as int));
        assert(u.skip(a as int).drop_first().skip(b as int) =~= chars@.subrange(
            b_end as int,
            to as int,
        ));
        (a + b > 0) && exponent_at(chars, b_end, to)
    } else {
        a > 0 && exponent_at(chars, a_end, to)
    }
}

} // verus!
