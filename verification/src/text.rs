//! Byte-level text primitives: whitespace classification, scanning,
//! trimming, and decimal integer parsing, each proved against a direct
//! mathematical statement.

use vstd::prelude::*;

verus! {

/// The bytes `str::trim` removes at either end of an ASCII line:
/// space and the control characters tab through carriage return.
pub open spec fn is_space(b: u8) -> bool {
    b == 32 || (9 <= b && b <= 13)
}

pub open spec fn is_digit(b: u8) -> bool {
    48 <= b && b <= 57
}

/// Executable mirror of `is_space`.
pub fn byte_is_space(b: u8) -> (r: bool)
    ensures
        r == is_space(b),
{
    b == 32 || (9 <= b && b <= 13)
}

/// Executable mirror of `is_digit`.
pub fn byte_is_digit(b: u8) -> (r: bool)
    ensures
        r == is_digit(b),
{
    48 <= b && b <= 57
}

/// Position of the first byte at or after `from` satisfying `p`,
/// or `s.len()` if there is none.
pub open spec fn scan(s: Seq<u8>, from: int, p: spec_fn(u8) -> bool) -> int
    decreases s.len() - from,
{
    if from >= s.len() {
        s.len() as int
    } else if p(s[from]) {
        from
    } else {
        scan(s, from + 1, p)
    }
}

pub proof fn lemma_scan(s: Seq<u8>, from: int, p: spec_fn(u8) -> bool)
    requires
        0 <= from <= s.len(),
    ensures
        from <= scan(s, from, p) <= s.len(),
        forall|k: int| from <= k < scan(s, from, p) ==> !p(s[k]),
        scan(s, from, p) < s.len() ==> p(s[scan(s, from, p)]),
    decreases s.len() - from,
{
    if from < s.len() && !p(s[from]) {
        lemma_scan(s, from + 1, p);
    }
}

/// The predicate "is not a space", for use with `scan`.
pub open spec fn nonspace_p() -> spec_fn(u8) -> bool {
    |b: u8| !is_space(b)
}

/// The predicate "is a space", for use with `scan`.
pub open spec fn space_p() -> spec_fn(u8) -> bool {
    |b: u8| is_space(b)
}

/// Copy of `s[i..j]` as an owned vector.
pub fn subrange_vec(s: &[u8], i: usize, j: usize) -> (r: Vec<u8>)
    requires
        i <= j <= s@.len(),
    ensures
        r@ == s@.subrange(i as int, j as int),
{
    let mut r: Vec<u8> = Vec::new();
    let mut k: usize = i;
    while k < j
        invariant
            i <= k <= j <= s@.len(),
            r@ == s@.subrange(i as int, k as int),
        decreases j - k,
    {
        r.push(s[k]);
        k = k + 1;
        proof {
            assert(s@.subrange(i as int, k as int) =~= s@.subrange(i as int, k - 1).push(s@[k - 1]));
        }
    }
    r
}

/// Start of the trimmed portion of `s`: its first non-space byte.
pub open spec fn trim_start(s: Seq<u8>) -> int {
    scan(s, 0, nonspace_p())
}

/// End of the trimmed portion of `s`: one past its last non-space byte,
/// or 0 when `s` is all spaces.
pub open spec fn trim_end_from(s: Seq<u8>, from: int) -> int
    decreases from,
{
    if from <= 0 {
        0
    } else if !is_space(s[from - 1]) {
        from
    } else {
        trim_end_from(s, from - 1)
    }
}

/// `s` with leading and trailing whitespace removed, as `str::trim`
/// does on ASCII text.
pub open spec fn trim_spec(s: Seq<u8>) -> Seq<u8> {
    if trim_start(s) >= trim_end_from(s, s.len() as int) {
        Seq::empty()
    } else {
        s.subrange(trim_start(s), trim_end_from(s, s.len() as int))
    }
}

/// First non-space position at or after `from`.
pub fn find_nonspace(s: &[u8], from: usize) -> (r: usize)
    requires
        from <= s@.len(),
    ensures
        r == scan(s@, from as int, nonspace_p()),
    decreases s@.len() - from,
{
    if from == s.len() {
        from
    } else if !byte_is_space(s[from]) {
        from
    } else {
        find_nonspace(s, from + 1)
    }
}

/// First space position at or after `from`.
pub fn find_space(s: &[u8], from: usize) -> (r: usize)
    requires
        from <= s@.len(),
    ensures
        r == scan(s@, from as int, space_p()),
    decreases s@.len() - from,
{
    if from == s.len() {
        from
    } else if byte_is_space(s[from]) {
        from
    } else {
        find_space(s, from + 1)
    }
}

/// `str::trim` on a byte slice.
pub fn trim_bytes(s: &[u8]) -> (r: Vec<u8>)
    ensures
        r@ == trim_spec(s@),
{
    let start = find_nonspace(s, 0);
    proof {
        lemma_scan(s@, 0, nonspace_p());
    }
    let mut end: usize = s.len();
    while end > 0 && byte_is_space(s[end - 1])
        invariant
            end <= s@.len(),
            trim_end_from(s@, s@.len() as int) == trim_end_from(s@, end as int),
        decreases end,
    {
        end = end - 1;
    }
    if start >= end {
        Vec::new()
    } else {
        subrange_vec(s, start, end)
    }
}

/// The predicate "is a line feed", for use with `scan`.
pub open spec fn newline_p() -> spec_fn(u8) -> bool {
    |b: u8| b == 10
}

/// The whitespace-separated tokens of `s` at or after `from`, as
/// `str::split_whitespace` yields them.
pub open spec fn tokens_from(s: Seq<u8>, from: int) -> Seq<Seq<u8>>
    decreases s.len() - from,
    via tokens_from_dec
{
    let st = scan(s, from, nonspace_p());
    let en = scan(s, st, space_p());
    if from < 0 || st >= s.len() {
        Seq::empty()
    } else {
        seq![s.subrange(st, en)] + tokens_from(s, en)
    }
}

#[via_fn]
proof fn tokens_from_dec(s: Seq<u8>, from: int) {
    if !(from < 0 || scan(s, from, nonspace_p()) >= s.len()) {
        let st = scan(s, from, nonspace_p());
        lemma_scan(s, from, nonspace_p());
        lemma_scan(s, st, space_p());
        assert(!space_p()(s[st]));
    }
}

/// `str::split_whitespace` on a byte slice.
pub fn split_ws(s: &[u8]) -> (r: Vec<Vec<u8>>)
    ensures
        r@.map_values(|t: Vec<u8>| t@) == tokens_from(s@, 0),
{
    let mut r: Vec<Vec<u8>> = Vec::new();
    let mut from: usize = 0;
    let mut done = false;
    while !done
        invariant
            from <= s@.len(),
            tokens_from(s@, 0) == r@.map_values(|t: Vec<u8>| t@) + tokens_from(s@, from as int),
            done ==> tokens_from(s@, from as int) =~~= Seq::<Seq<u8>>::empty(),
        decreases (if done { 0int } else { 1int }), s@.len() - from,
    {
        let st = find_nonspace(s, from);
        proof {
            lemma_scan(s@, from as int, nonspace_p());
        }
        if st == s.len() {
            done = true;
        } else {
            let en = find_space(s, st);
            proof {
                lemma_scan(s@, st as int, space_p());
                assert(!space_p()(s@[st as int]));
            }
            let tok = subrange_vec(s, st, en);
            let ghost pre = r@.map_values(|t: Vec<u8>| t@);
            r.push(tok);
            proof {
                assert(r@.map_values(|t: Vec<u8>| t@) =~~= pre.push(tok@));
                assert(tokens_from(s@, from as int) == seq![s@.subrange(st as int, en as int)]
                    + tokens_from(s@, en as int));
                assert(tokens_from(s@, 0) =~~= r@.map_values(|t: Vec<u8>| t@) + tokens_from(s@, en as int));
            }
            from = en;
        }
    }
    proof {
        assert(tokens_from(s@, 0) =~~= r@.map_values(|t: Vec<u8>| t@));
    }
    r
}

/// The lines of `s`: pieces separated by line feeds, with a final piece
/// only when it is non-empty, as a reader that pulls whole lines sees them.
pub open spec fn lines_from(s: Seq<u8>, from: int) -> Seq<Seq<u8>>
    decreases s.len() - from,
    via lines_from_dec
{
    if from < 0 || from >= s.len() {
        Seq::empty()
    } else {
        let j = scan(s, from, newline_p());
        if j >= s.len() {
            seq![s.subrange(from, s.len() as int)]
        } else {
            seq![s.subrange(from, j)] + lines_from(s, j + 1)
        }
    }
}

#[via_fn]
proof fn lines_from_dec(s: Seq<u8>, from: int) {
    if !(from < 0 || from >= s.len()) {
        lemma_scan(s, from, newline_p());
    }
}

/// First line-feed position at or after `from`.
pub fn find_newline(s: &[u8], from: usize) -> (r: usize)
    requires
        from <= s@.len(),
    ensures
        r == scan(s@, from as int, newline_p()),
    decreases s@.len() - from,
{
    if from == s.len() {
        from
    } else if s[from] == 10 {
        from
    } else {
        find_newline(s, from + 1)
    }
}

/// Split `s` into its lines.
pub fn split_lines(s: &[u8]) -> (r: Vec<Vec<u8>>)
    ensures
        r@.map_values(|t: Vec<u8>| t@) == lines_from(s@, 0),
{
    let mut r: Vec<Vec<u8>> = Vec::new();
    let mut from: usize = 0;
    let mut done = false;
    while !done
        invariant
            from <= s@.len(),
            lines_from(s@, 0) == r@.map_values(|t: Vec<u8>| t@) + lines_from(s@, from as int),
            done ==> lines_from(s@, from as int) =~~= Seq::<Seq<u8>>::empty(),
        decreases (if done { 0int } else { 1int }), s@.len() - from,
    {
        if from == s.len() {
            done = true;
        } else {
            let j = find_newline(s, from);
            proof {
                lemma_scan(s@, from as int, newline_p());
            }
            let piece = subrange_vec(s, from, j);
            let ghost pre = r@.map_values(|t: Vec<u8>| t@);
            r.push(piece);
            proof {
                assert(r@.map_values(|t: Vec<u8>| t@) =~~= pre.push(piece@));
            }
            if j == s.len() {
                proof {
                    assert(lines_from(s@, from as int) == seq![s@.subrange(from as int, s@.len() as int)]);
                    assert(lines_from(s@, 0) =~~= r@.map_values(|t: Vec<u8>| t@) + Seq::<Seq<u8>>::empty());
                }
                from = j;
                done = true;
            } else {
                proof {
                    assert(lines_from(s@, from as int) == seq![s@.subrange(from as int, j as int)]
                        + lines_from(s@, j + 1));
                    assert(lines_from(s@, 0) =~~= r@.map_values(|t: Vec<u8>| t@) + lines_from(s@, j + 1));
                }
                from = j + 1;
            }
        }
    }
    proof {
        assert(lines_from(s@, 0) =~~= r@.map_values(|t: Vec<u8>| t@));
    }
    r
}

/// Value of an all-digit string read in base 10.
pub open spec fn digits_val(s: Seq<u8>) -> int
    decreases s.len(),
{
    if s.len() == 0 {
        0
    } else {
        digits_val(s.drop_last()) * 10 + (s.last() - 48)
    }
}

pub open spec fn all_digits(s: Seq<u8>) -> bool {
    forall|k: int| 0 <= k < s.len() ==> is_digit(s[k])
}

/// An all-digit string has a non-negative value.
pub proof fn lemma_digits_val_nonneg(s: Seq<u8>)
    requires
        all_digits(s),
    ensures
        digits_val(s) >= 0,
    decreases s.len(),
{
    if s.len() > 0 {
        assert(all_digits(s.drop_last()));
        lemma_digits_val_nonneg(s.drop_last());
        assert(is_digit(s.last()));
        assert(digits_val(s.drop_last()) * 10 >= 0) by (nonlinear_arith)
            requires
                digits_val(s.drop_last()) >= 0,
        ;
    }
}

/// Appending digits never decreases the value.
pub proof fn lemma_digits_val_grows(s: Seq<u8>, k: int)
    requires
        all_digits(s),
        0 <= k <= s.len(),
    ensures
        digits_val(s.take(k)) <= digits_val(s),
    decreases s.len() - k,
{
    if k < s.len() {
        lemma_digits_val_grows(s, k + 1);
        assert(s.take(k + 1).drop_last() =~= s.take(k));
        assert(is_digit(s[k]));
        assert(all_digits(s.take(k)));
        lemma_digits_val_nonneg(s.take(k));
        assert(digits_val(s.take(k)) <= digits_val(s.take(k + 1))) by {
            assert(digits_val(s.take(k + 1)) == digits_val(s.take(k)) * 10 + (s[k] - 48));
            assert(digits_val(s.take(k)) * 10 >= digits_val(s.take(k))) by (nonlinear_arith)
                requires
                    digits_val(s.take(k)) >= 0,
            ;
        }
    } else {
        assert(s.take(k) =~= s);
    }
}

pub proof fn lemma_trim_end_bounds(s: Seq<u8>, from: int)
    ensures
        0 <= trim_end_from(s, from),
        trim_end_from(s, from) <= if from > 0 {
            from
        } else {
            0
        },
    decreases from,
{
    if from > 0 && is_space(s[from - 1]) {
        lemma_trim_end_bounds(s, from - 1);
    }
}

/// Trimming never lengthens a string.
pub proof fn lemma_trim_len(s: Seq<u8>)
    ensures
        trim_spec(s).len() <= s.len(),
{
    lemma_scan(s, 0, nonspace_p());
    lemma_trim_end_bounds(s, s.len() as int);
}

pub open spec fn pow10(n: nat) -> int
    decreases n,
{
    if n == 0 {
        1
    } else {
        10 * pow10((n - 1) as nat)
    }
}

/// A digit string of length `n` denotes less than ten to the `n`.
pub proof fn lemma_digits_val_upper(s: Seq<u8>)
    requires
        all_digits(s),
    ensures
        digits_val(s) < pow10(s.len()),
    decreases s.len(),
{
    if s.len() > 0 {
        assert(all_digits(s.drop_last()));
        lemma_digits_val_upper(s.drop_last());
        assert(is_digit(s.last()));
        assert(digits_val(s.drop_last()) * 10 + (s.last() - 48) < 10 * pow10(s.drop_last().len()))
            by (nonlinear_arith)
            requires
                digits_val(s.drop_last()) < pow10(s.drop_last().len()),
                s.last() - 48 <= 9,
        ;
    }
}

pub proof fn lemma_pow10_pos(n: nat)
    ensures
        pow10(n) >= 1,
    decreases n,
{
    if n > 0 {
        lemma_pow10_pos((n - 1) as nat);
    }
}

pub proof fn lemma_pow10_le(a: nat, b: nat)
    requires
        a <= b,
    ensures
        pow10(a) <= pow10(b),
    decreases b,
{
    if a < b {
        lemma_pow10_le(a, (b - 1) as nat);
        lemma_pow10_pos((b - 1) as nat);
    }
}

/// A width-5 unsigned column holds a value below one hundred thousand.
pub proof fn lemma_uint_of_width5(t: Seq<u8>)
    requires
        t.len() <= 5,
        uint_of(t) is Some,
    ensures
        uint_of(t)->Some_0 < 100000,
{
    let body = if t.len() > 0 && t[0] == 43 {
        t.drop_first()
    } else {
        t
    };
    lemma_digits_val_upper(body);
    lemma_digits_val_nonneg(body);
    assert(pow10(5) == 100000) by {
        reveal_with_fuel(pow10, 6);
    }
    lemma_pow10_le(body.len(), 5);
}

/// The body of a decimal integer after an optional leading sign:
/// whether the sign was `-`, and the rest.
pub open spec fn sign_split(s: Seq<u8>) -> (bool, Seq<u8>) {
    if s.len() > 0 && s[0] == 45 {
        (true, s.drop_first())
    } else if s.len() > 0 && s[0] == 43 {
        (false, s.drop_first())
    } else {
        (false, s)
    }
}

/// What `str::parse::<i32>` accepts and returns: an optional sign, then
/// one or more ASCII digits, with the signed value in `i32` range.
pub open spec fn int32_of(s: Seq<u8>) -> Option<i32> {
    let (neg, body) = sign_split(s);
    if body.len() == 0 || !all_digits(body) {
        None
    } else if neg {
        if digits_val(body) <= 0x8000_0000 {
            Some((-(digits_val(body) as int)) as i32)
        } else {
            None
        }
    } else {
        if digits_val(body) <= 0x7fff_ffff {
            Some(digits_val(body) as i32)
        } else {
            None
        }
    }
}

/// What `str::parse::<usize>` accepts and returns: an optional `+`, then
/// one or more ASCII digits, with the value in `usize` range.
pub open spec fn uint_of(s: Seq<u8>) -> Option<usize> {
    let body = if s.len() > 0 && s[0] == 43 {
        s.drop_first()
    } else {
        s
    };
    if body.len() == 0 || !all_digits(body) {
        None
    } else if digits_val(body) <= usize::MAX {
        Some(digits_val(body) as usize)
    } else {
        None
    }
}

/// Value of the digit string `s`, bailing out once it exceeds `cap`.
/// Mirrors the overflow behaviour of the standard integer parsers.
fn digits_to_u64(s: &[u8], cap: u64) -> (r: Option<u64>)
    requires
        all_digits(s@),
    ensures
        match r {
            Some(v) => digits_val(s@) == v && v <= cap,
            None => digits_val(s@) > cap,
        },
{
    let mut acc: u64 = 0;
    let mut i: usize = 0;
    while i < s.len()
        invariant
            i <= s@.len(),
            all_digits(s@),
            acc == digits_val(s@.take(i as int)),
            acc <= cap,
        decreases s@.len() - i,
    {
        proof {
            assert(is_digit(s@[i as int]));
            assert(s@.take(i + 1).drop_last() =~= s@.take(i as int));
        }
        let d = s[i] - 48;
        let du: u64 = d as u64;
        if acc > cap / 10 || (acc == cap / 10 && du > cap % 10) {
            proof {
                assert(digits_val(s@.take(i + 1)) == acc * 10 + du);
                if acc > cap / 10 {
                    assert(acc * 10 + du > cap) by (nonlinear_arith)
                        requires
                            acc > cap / 10,
                            0 <= du,
                    ;
                } else {
                    assert(acc * 10 + du > cap) by (nonlinear_arith)
                        requires
                            acc == cap / 10,
                            du > cap % 10,
                    ;
                }
                lemma_digits_val_grows(s@, i + 1);
            }
            return None;
        }
        proof {
            assert(acc * 10 + du <= cap) by (nonlinear_arith)
                requires
                    du <= 9,
                    acc <= cap / 10,
                    acc < cap / 10 || du <= cap % 10,
            ;
        }
        acc = acc * 10 + du;
        i = i + 1;
    }
    proof {
        assert(s@.take(s@.len() as int) =~= s@);
    }
    Some(acc)
}

/// Whether every byte of `s` is an ASCII digit.
fn check_all_digits(s: &[u8]) -> (r: bool)
    ensures
        r == all_digits(s@),
{
    let mut i: usize = 0;
    while i < s.len()
        invariant
            i <= s@.len(),
            forall|k: int| 0 <= k < i ==> is_digit(s@[k]),
        decreases s@.len() - i,
    {
        if !byte_is_digit(s[i]) {
            return false;
        }
        i = i + 1;
    }
    true
}

/// `str::parse::<i32>` on a byte slice, written out and proved against
/// `int32_of`.
pub fn parse_i32(s: &[u8]) -> (r: Option<i32>)
    ensures
        r == int32_of(s@),
{
    let (neg, start): (bool, usize) = if s.len() > 0 && s[0] == 45 {
        (true, 1)
    } else if s.len() > 0 && s[0] == 43 {
        (false, 1)
    } else {
        (false, 0)
    };
    let body = subrange_vec(s, start, s.len());
    proof {
        if s@.len() > 0 && (s@[0] == 45 || s@[0] == 43) {
            assert(s@.subrange(1, s@.len() as int) =~= s@.drop_first());
        } else {
            assert(s@.subrange(0, s@.len() as int) =~= s@);
        }
    }
    if body.len() == 0 {
        return None;
    }
    if !check_all_digits(body.as_slice()) {
        return None;
    }
    let cap: u64 = if neg {
        0x8000_0000
    } else {
        0x7fff_ffff
    };
    match digits_to_u64(body.as_slice(), cap) {
        None => None,
        Some(v) => {
            if neg {
                if v == 0x8000_0000 {
                    Some(i32::MIN)
                } else {
                    Some(0i32 - (v as i32))
                }
            } else {
                Some(v as i32)
            }
        },
    }
}

/// `str::parse::<usize>` on a byte slice, written out and proved against
/// `uint_of`.
pub fn parse_usize(s: &[u8]) -> (r: Option<usize>)
    ensures
        r == uint_of(s@),
{
    let start: usize = if s.len() > 0 && s[0] == 43 {
        1
    } else {
        0
    };
    let body = subrange_vec(s, start, s.len());
    proof {
        if s@.len() > 0 && s@[0] == 43 {
            assert(s@.subrange(1, s@.len() as int) =~= s@.drop_first());
        } else {
            assert(s@.subrange(0, s@.len() as int) =~= s@);
        }
    }
    if body.len() == 0 {
        return None;
    }
    if !check_all_digits(body.as_slice()) {
        return None;
    }
    match digits_to_u64(body.as_slice(), usize::MAX as u64) {
        None => None,
        Some(v) => Some(v as usize),
    }
}

} // verus!
