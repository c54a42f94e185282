//! The grammar of decimal float literals: exactly the strings that
//! `str::parse::<f64>` accepts — an optional sign, then `inf`, `infinity`
//! or `nan` in any letter case, or digits with at most one decimal point
//! and an optional exponent part.
//!
//! The parser only needs to decide membership; the value of a literal is
//! computed outside the library, where floating point is available.

use vstd::prelude::*;
use crate::text::{
    all_digits, byte_is_digit, is_digit, is_space, lemma_scan, scan, sign_split, subrange_vec,
};

verus! {

pub open spec fn to_lower(b: u8) -> u8 {
    if 65 <= b && b <= 90 {
        (b + 32) as u8
    } else {
        b
    }
}

pub open spec fn is_word_inf(s: Seq<u8>) -> bool {
    s.len() == 3 && to_lower(s[0]) == 105 && to_lower(s[1]) == 110 && to_lower(s[2]) == 102
}

pub open spec fn is_word_infinity(s: Seq<u8>) -> bool {
    s.len() == 8 && to_lower(s[0]) == 105 && to_lower(s[1]) == 110 && to_lower(s[2]) == 102
        && to_lower(s[3]) == 105 && to_lower(s[4]) == 110 && to_lower(s[5]) == 105
        && to_lower(s[6]) == 116 && to_lower(s[7]) == 121
}

pub open spec fn is_word_nan(s: Seq<u8>) -> bool {
    s.len() == 3 && to_lower(s[0]) == 110 && to_lower(s[1]) == 97 && to_lower(s[2]) == 110
}

/// A byte allowed in the mantissa: an ASCII digit or the decimal point.
pub open spec fn is_mantissa_byte(b: u8) -> bool {
    is_digit(b) || b == 46
}

/// Number of decimal points in `s`.
pub open spec fn n_dots(s: Seq<u8>) -> int
    decreases s.len(),
{
    if s.len() == 0 {
        0
    } else {
        n_dots(s.drop_last()) + if s.last() == 46 {
            1int
        } else {
            0int
        }
    }
}

/// digits `.` digits, with at most one point and at least one digit.
pub open spec fn is_mantissa(s: Seq<u8>) -> bool {
    &&& forall|k: int| 0 <= k < s.len() ==> is_mantissa_byte(s[k])
    &&& n_dots(s) <= 1
    &&& s.len() > n_dots(s)
}

/// `e` or `E`, an optional sign, then one or more digits.
pub open spec fn is_exponent(s: Seq<u8>) -> bool {
    &&& s.len() >= 1
    &&& (s[0] == 101 || s[0] == 69)
    &&& sign_split(s.drop_first()).1.len() > 0
    &&& all_digits(sign_split(s.drop_first()).1)
}

/// A mantissa followed by an optional exponent part.
pub open spec fn is_number(s: Seq<u8>) -> bool {
    exists|i: int|
        0 <= i <= s.len() && is_mantissa(s.take(i)) && (i == s.len() || is_exponent(s.skip(i)))
}

/// Whether `str::parse::<f64>` accepts `s`.
pub open spec fn float_ok(s: Seq<u8>) -> bool {
    let b = sign_split(s).1;
    is_word_inf(b) || is_word_infinity(b) || is_word_nan(b) || is_number(b)
}

/// The predicate "starts an exponent part", for use with `scan`.
pub open spec fn expchar_p() -> spec_fn(u8) -> bool {
    |b: u8| b == 101 || b == 69
}

/// Executable mirror of `to_lower`.
fn byte_to_lower(b: u8) -> (r: u8)
    ensures
        r == to_lower(b),
{
    if 65 <= b && b <= 90 {
        b + 32
    } else {
        b
    }
}

fn check_special(s: &[u8]) -> (r: bool)
    ensures
        r == (is_word_inf(s@) || is_word_infinity(s@) || is_word_nan(s@)),
{
    if s.len() == 3 {
        let a = byte_to_lower(s[0]);
        let b = byte_to_lower(s[1]);
        let c = byte_to_lower(s[2]);
        (a == 105 && b == 110 && c == 102) || (a == 110 && b == 97 && c == 110)
    } else if s.len() == 8 {
        byte_to_lower(s[0]) == 105 && byte_to_lower(s[1]) == 110 && byte_to_lower(s[2]) == 102
            && byte_to_lower(s[3]) == 105 && byte_to_lower(s[4]) == 110
            && byte_to_lower(s[5]) == 105 && byte_to_lower(s[6]) == 116
            && byte_to_lower(s[7]) == 121
    } else {
        false
    }
}

fn check_mantissa(s: &[u8]) -> (r: bool)
    ensures
        r == is_mantissa(s@),
{
    let mut dots: usize = 0;
    let mut i: usize = 0;
    while i < s.len()
        invariant
            i <= s@.len(),
            forall|k: int| 0 <= k < i ==> is_mantissa_byte(s@[k]),
            dots == n_dots(s@.take(i as int)),
            dots <= i,
        decreases s@.len() - i,
    {
        proof {
            assert(s@.take(i + 1).drop_last() =~= s@.take(i as int));
        }
        let b = s[i];
        if b == 46 {
            dots = dots + 1;
        } else if !byte_is_digit(b) {
            return false;
        }
        i = i + 1;
    }
    proof {
        assert(s@.take(s@.len() as int) =~= s@);
    }
    dots <= 1 && s.len() > dots
}

fn check_exponent(s: &[u8]) -> (r: bool)
    ensures
        r == is_exponent(s@),
{
    if s.len() == 0 {
        return false;
    }
    if !(s[0] == 101 || s[0] == 69) {
        return false;
    }
    let start: usize = if s.len() > 1 && (s[1] == 43 || s[1] == 45) {
        2
    } else {
        1
    };
    let body = subrange_vec(s, start, s.len());
    proof {
        let t = s@.drop_first();
        if t.len() > 0 && (t[0] == 45 || t[0] == 43) {
            assert(t.drop_first() =~= s@.subrange(2, s@.len() as int));
        } else {
            assert(t =~= s@.subrange(1, s@.len() as int));
        }
        assert(body@ == sign_split(s@.drop_first()).1);
    }
    if body.len() == 0 {
        proof {
            assert(sign_split(s@.drop_first()).1.len() == 0);
            assert(!is_exponent(s@));
        }
        return false;
    }
    let mut i: usize = 0;
    while i < body.len()
        invariant
            i <= body@.len(),
            s@.len() >= 1,
            s@[0] == 101 || s@[0] == 69,
            body@ == sign_split(s@.drop_first()).1,
            body@.len() > 0,
            forall|k: int| 0 <= k < i ==> is_digit(body@[k]),
        decreases body@.len() - i,
    {
        if !byte_is_digit(body[i]) {
            return false;
        }
        i = i + 1;
    }
    true
}

/// First `e` or `E` position at or after `from`.
fn find_expchar(s: &[u8], from: usize) -> (r: usize)
    requires
        from <= s@.len(),
    ensures
        r == scan(s@, from as int, expchar_p()),
    decreases s@.len() - from,
{
    if from == s.len() {
        from
    } else if s[from] == 101 || s[from] == 69 {
        from
    } else {
        find_expchar(s, from + 1)
    }
}

/// Decides `float_ok`: whether `str::parse::<f64>` would accept `s`.
pub fn is_float_text(s: &[u8]) -> (r: bool)
    ensures
        r == float_ok(s@),
{
    let start: usize = if s.len() > 0 && (s[0] == 45 || s[0] == 43) {
        1
    } else {
        0
    };
    let body = subrange_vec(s, start, s.len());
    proof {
        if s@.len() > 0 && (s@[0] == 45 || s@[0] == 43) {
            assert(s@.subrange(1, s@.len() as int) =~= s@.drop_first());
        } else {
            assert(s@.subrange(0, s@.len() as int) =~= s@);
        }
    }
    if check_special(body.as_slice()) {
        return true;
    }
    let j = find_expchar(body.as_slice(), 0);
    proof {
        lemma_scan(body@, 0, expchar_p());
    }
    if j == body.len() {
        let m = check_mantissa(body.as_slice());
        proof {
            assert(body@.take(body@.len() as int) =~= body@);
            if !m {
                assert forall|i: int|
                    0 <= i <= body@.len() && is_mantissa(body@.take(i)) implies !(i == body@.len()
                    || is_exponent(body@.skip(i))) by {
                    if i < body@.len() {
                        assert(!expchar_p()(body@[i]));
                    }
                }
            }
        }
        m
    } else {
        let m = check_mantissa(subrange_vec(body.as_slice(), 0, j).as_slice());
        let e = check_exponent(subrange_vec(body.as_slice(), j, body.len()).as_slice());
        proof {
            assert(body@.subrange(0, j as int) =~= body@.take(j as int));
            assert(body@.subrange(j as int, body@.len() as int) =~= body@.skip(j as int));
            if m && e {
                assert(is_number(body@)) by {
                    assert(is_mantissa(body@.take(j as int)) && is_exponent(
                        body@.skip(j as int),
                    ));
                }
            } else {
                assert forall|i: int|
                    0 <= i <= body@.len() && is_mantissa(body@.take(i)) implies !(i == body@.len()
                    || is_exponent(body@.skip(i))) by {
                    if i < j {
                        if i < body@.len() && is_exponent(body@.skip(i)) {
                            assert(expchar_p()(body@[i]));
                        }
                    } else if i == j {
                        assert(!(m && e));
                    } else {
                        assert(expchar_p()(body@[j as int]));
                        assert(is_mantissa_byte(body@.take(i)[j as int]));
                        assert(false);
                    }
                }
            }
        }
        m && e
    }
}

} // verus!
