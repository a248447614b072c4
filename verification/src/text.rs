//! Character-level text helpers shared by the capture, lyrics and theme
//! logic: conversion to character vectors, trimming, substring search,
//! ASCII case folding, digit parsing, and display truncation.

use vstd::prelude::*;
use vstd::string::StrSliceExecFns;
use vstd::string::StringExecFns;

verus! {

/// The characters of `s`, one per vector slot.
pub fn str_to_chars(s: &str) -> (r: Vec<char>)
    ensures
        r@ == s@,
{
    let len = s.unicode_len();
    let mut r: Vec<char> = Vec::new();
    let mut i: usize = 0;
    while i < len
        invariant
            i <= len,
            len == s@.len(),
            r@.len() == i,
            forall|j: int| 0 <= j < i ==> r@[j] == s@[j],
        decreases len - i,
    {
        r.push(s.get_char(i));
        i = i + 1;
    }
    proof {
        assert(r@ =~= s@);
    }
    r
}

/// Relies on `String`'s `FromIterator<char>` impl: collecting characters
/// yields the string of exactly those characters, in order.
#[verifier::external_body]
pub(crate) fn chars_to_string(v: &Vec<char>) -> (r: String)
    ensures
        r@ == v@,
{
    v.iter().collect()
}

/// ASCII whitespace.
pub open spec fn is_space(c: char) -> bool {
    c == ' ' || c == '\t' || c == '\r' || c == '\n'
}

/// `s` without leading whitespace.
pub open spec fn trim_start_spec(s: Seq<char>) -> Seq<char>
    decreases s.len(),
{
    if s.len() > 0 && is_space(s[0]) {
        trim_start_spec(s.skip(1))
    } else {
        s
    }
}

/// `s` without trailing whitespace.
pub open spec fn trim_end_spec(s: Seq<char>) -> Seq<char>
    decreases s.len(),
{
    if s.len() > 0 && is_space(s[s.len() - 1]) {
        trim_end_spec(s.take(s.len() - 1))
    } else {
        s
    }
}

/// `s` without leading or trailing whitespace.
pub open spec fn trim_spec(s: Seq<char>) -> Seq<char> {
    trim_end_spec(trim_start_spec(s))
}

/// Dropping `a` leading spaces reaches the untrimmed tail.
proof fn lemma_trim_start_skip(s: Seq<char>, a: int)
    requires
        0 <= a <= s.len(),
        forall|j: int| 0 <= j < a ==> is_space(#[trigger] s[j]),
        a < s.len() ==> !is_space(s[a]),
    ensures
        trim_start_spec(s) == s.skip(a),
    decreases a,
{
    if a == 0 {
        assert(s.skip(0) =~= s);
    } else {
        lemma_trim_start_skip(s.skip(1), a - 1);
        assert(s.skip(1).skip(a - 1) =~= s.skip(a));
    }
}

/// Dropping `b` trailing spaces reaches the untrimmed head.
proof fn lemma_trim_end_take(s: Seq<char>, b: int)
    requires
        0 <= b <= s.len(),
        forall|j: int| b <= j < s.len() ==> is_space(#[trigger] s[j]),
        0 < b ==> !is_space(s[b - 1]),
    ensures
        trim_end_spec(s) == s.take(b),
    decreases s.len() - b,
{
    if b == s.len() {
        assert(s.take(b) =~= s);
    } else {
        lemma_trim_end_take(s.take(s.len() - 1), b);
        assert(s.take(s.len() - 1).take(b) =~= s.take(b));
    }
}

/// The characters of `v` without leading or trailing ASCII whitespace.
pub fn trim_chars(v: &Vec<char>) -> (r: Vec<char>)
    ensures
        r@ == trim_spec(v@),
{
    let len = v.len();
    let mut a: usize = 0;
    while a < len && is_space_at(v, a)
        invariant
            a <= len,
            len == v@.len(),
            forall|j: int| 0 <= j < a ==> is_space(#[trigger] v@[j]),
        decreases len - a,
    {
        a = a + 1;
    }
    let mut b: usize = len;
    while b > a && is_space_at(v, b - 1)
        invariant
            a <= b <= len,
            len == v@.len(),
            forall|j: int| 0 <= j < a ==> is_space(#[trigger] v@[j]),
            forall|j: int| b <= j < len ==> is_space(#[trigger] v@[j]),
        decreases b,
    {
        b = b - 1;
    }
    let mut r: Vec<char> = Vec::new();
    let mut i: usize = a;
    while i < b
        invariant
            a <= i <= b <= len,
            len == v@.len(),
            r@.len() == i - a,
            forall|j: int| 0 <= j < i - a ==> r@[j] == v@[a + j],
        decreases b - i,
    {
        r.push(v[i]);
        i = i + 1;
    }
    proof {
        lemma_trim_start_skip(v@, a as int);
        if b == a {
            lemma_trim_end_take(v@.skip(a as int), 0);
        } else {
            lemma_trim_end_take(v@.skip(a as int), b - a);
        }
        assert(r@ =~= v@.skip(a as int).take(b - a));
    }
    r
}

/// Whether the character at `i` is ASCII whitespace.
fn is_space_at(v: &Vec<char>, i: usize) -> (r: bool)
    requires
        i < v@.len(),
    ensures
        r == is_space(v@[i as int]),
{
    let c = v[i];
    c == ' ' || c == '\t' || c == '\r' || c == '\n'
}

/// The needle `ndl` occurs in `h` starting at position `i`.
pub open spec fn matches_at(h: Seq<char>, ndl: Seq<char>, i: int) -> bool {
    0 <= i && i + ndl.len() <= h.len() && h.subrange(i, i + ndl.len()) == ndl
}

/// The needle `ndl` occurs somewhere in `h`.
pub open spec fn contains_seq(h: Seq<char>, ndl: Seq<char>) -> bool {
    exists|i: int| matches_at(h, ndl, i)
}

/// Substring search: whether `ndl` occurs in `h`.
pub fn chars_contains(h: &Vec<char>, ndl: &Vec<char>) -> (r: bool)
    ensures
        r == contains_seq(h@, ndl@),
{
    let hn = h.len();
    let nn = ndl.len();
    if nn > hn {
        proof {
            assert(forall|i: int| !matches_at(h@, ndl@, i));
        }
        return false;
    }
    let mut i: usize = 0;
    while i <= hn - nn
        invariant
            nn <= hn,
            hn == h@.len(),
            nn == ndl@.len(),
            i <= hn - nn + 1,
            forall|p: int| 0 <= p < i ==> !matches_at(h@, ndl@, p),
        decreases hn - nn + 1 - i,
    {
        let mut j: usize = 0;
        while j < nn && h[i + j] == ndl[j]
            invariant
                i + nn <= hn,
                hn == h@.len(),
                nn == ndl@.len(),
                j <= nn,
                forall|q: int| 0 <= q < j ==> #[trigger] ndl@[q] == h@[i + q],
            decreases nn - j,
        {
            j = j + 1;
        }
        if j == nn {
            proof {
                assert(h@.subrange(i as int, i + nn) =~= ndl@);
                assert(matches_at(h@, ndl@, i as int));
            }
            return true;
        }
        proof {
            assert(ndl@[j as int] != h@[i + j]);
            if matches_at(h@, ndl@, i as int) {
                assert(forall|q: int|
                    0 <= q < nn ==> #[trigger] h@.subrange(i as int, i + nn)[q] == h@[i + q]);
                assert(false);
            }
        }
        i = i + 1;
    }
    proof {
        assert(forall|p: int| matches_at(h@, ndl@, p) ==> 0 <= p <= hn - nn);
    }
    false
}

/// Index of the first occurrence of `c` in `s`, or `s.len()` when `c` does
/// not occur.
pub open spec fn first_idx(s: Seq<char>, c: char) -> int
    decreases s.len(),
{
    if s.len() == 0 {
        0
    } else if s[0] == c {
        0
    } else {
        1 + first_idx(s.skip(1), c)
    }
}

/// What `first_idx` returns: the position of the first occurrence, or the
/// length when there is none.
pub proof fn lemma_first_idx(s: Seq<char>, c: char)
    ensures
        0 <= first_idx(s, c) <= s.len(),
        first_idx(s, c) < s.len() ==> s[first_idx(s, c)] == c,
        forall|j: int| 0 <= j < first_idx(s, c) ==> s[j] != c,
    decreases s.len(),
{
    if s.len() > 0 && s[0] != c {
        lemma_first_idx(s.skip(1), c);
        assert forall|j: int| 0 <= j < first_idx(s, c) implies s[j] != c by {
            if j > 0 {
                assert(s.skip(1)[j - 1] != c);
            }
        }
    }
}

/// Any position that is a first occurrence (or witnesses absence) is the
/// `first_idx`.
pub proof fn lemma_first_idx_agrees(s: Seq<char>, c: char, p: int)
    requires
        0 <= p <= s.len(),
        p < s.len() ==> s[p] == c,
        forall|j: int| 0 <= j < p ==> s[j] != c,
    ensures
        first_idx(s, c) == p,
    decreases s.len(),
{
    if s.len() > 0 && s[0] != c {
        lemma_first_idx_agrees(s.skip(1), c, p - 1);
    }
}

/// Finds the first occurrence of `c` in `v[from .. to]`, returning `to` when
/// there is none: the position `first_idx` gives on that range.
pub fn find_char_from(v: &Vec<char>, c: char, from: usize, to: usize) -> (r: usize)
    requires
        from <= to <= v@.len(),
    ensures
        from <= r <= to,
        r - from == first_idx(v@.subrange(from as int, to as int), c),
        r < to ==> v@[r as int] == c,
        forall|j: int| from <= j < r ==> v@[j] != c,
{
    let mut i: usize = from;
    while i < to && v[i] != c
        invariant
            from <= i <= to,
            to <= v@.len(),
            forall|j: int| from <= j < i ==> v@[j] != c,
        decreases to - i,
    {
        i = i + 1;
    }
    proof {
        let sub = v@.subrange(from as int, to as int);
        assert(forall|j: int| 0 <= j < i - from ==> #[trigger] sub[j] != c);
        lemma_first_idx_agrees(sub, c, i - from);
    }
    i
}

/// Copies `v[from .. to]` into a fresh vector.
pub fn subvec(v: &Vec<char>, from: usize, to: usize) -> (r: Vec<char>)
    requires
        from <= to <= v@.len(),
    ensures
        r@ == v@.subrange(from as int, to as int),
{
    let mut r: Vec<char> = Vec::new();
    let mut i: usize = from;
    while i < to
        invariant
            from <= i <= to,
            to <= v@.len(),
            r@.len() == i - from,
            forall|j: int| 0 <= j < i - from ==> r@[j] == v@[from + j],
        decreases to - i,
    {
        r.push(v[i]);
        i = i + 1;
    }
    proof {
        assert(r@ =~= v@.subrange(from as int, to as int));
    }
    r
}

/// ASCII lower-casing of one character; other characters are unchanged.
pub open spec fn lower_char(c: char) -> char {
    if 65 <= (c as u32) && (c as u32) <= 90 {
        ((((c as u32) + 32) as u8) as char)
    } else {
        c
    }
}

/// `s` with ASCII upper-case letters folded to lower case.
pub open spec fn lower_seq(s: Seq<char>) -> Seq<char> {
    s.map_values(|c: char| lower_char(c))
}

/// The characters of `v`, ASCII upper-case letters folded to lower case.
pub fn to_ascii_lower(v: &Vec<char>) -> (r: Vec<char>)
    ensures
        r@.len() == v@.len(),
        forall|i: int| 0 <= i < v@.len() ==> #[trigger] r@[i] == lower_char(v@[i]),
{
    let mut r: Vec<char> = Vec::new();
    let mut i: usize = 0;
    let len = v.len();
    while i < len
        invariant
            i <= len,
            len == v@.len(),
            r@.len() == i,
            forall|j: int| 0 <= j < i ==> #[trigger] r@[j] == lower_char(v@[j]),
        decreases len - i,
    {
        let c = v[i];
        let u = c as u32;
        if 65 <= u && u <= 90 {
            r.push(((u + 32) as u8) as char);
        } else {
            r.push(c);
        }
        i = i + 1;
    }
    r
}

/// ASCII decimal digit.
pub open spec fn is_digit(c: char) -> bool {
    48 <= (c as u32) && (c as u32) <= 57
}

/// Numeric value of a digit character.
pub open spec fn digit_val(c: char) -> int {
    (c as u32) - 48
}

/// Value of the decimal digits `s[0 .. m]`.
pub open spec fn dec_value(s: Seq<char>, m: int) -> int
    decreases m,
{
    if m <= 0 {
        0
    } else {
        dec_value(s, m - 1) * 10 + digit_val(s[m - 1])
    }
}

/// All of `s[0 .. m]` are decimal digits.
pub open spec fn all_digits(s: Seq<char>, m: int) -> bool {
    forall|j: int| 0 <= j < m ==> is_digit(#[trigger] s[j])
}

/// Parses the decimal digits of `v` as a `u64`.
///
/// Returns the value exactly when `v` is non-empty, all digits, and the value
/// fits in a `u64`; returns `None` otherwise.
pub fn parse_u64_chars(v: &Vec<char>) -> (r: Option<u64>)
    ensures
        match r {
            Some(x) => v@.len() > 0 && all_digits(v@, v@.len() as int) && x as int == dec_value(
                v@,
                v@.len() as int,
            ),
            None => v@.len() == 0 || !all_digits(v@, v@.len() as int) || dec_value(
                v@,
                v@.len() as int,
            ) > u64::MAX,
        },
{
    let len = v.len();
    if len == 0 {
        return None;
    }
    let mut acc: u64 = 0;
    let mut i: usize = 0;
    while i < len
        invariant
            i <= len,
            len == v@.len(),
            all_digits(v@, i as int),
            acc as int == dec_value(v@, i as int),
        decreases len - i,
    {
        let c = v[i];
        let u = c as u32;
        if !(48 <= u && u <= 57) {
            proof {
                assert(!is_digit(v@[i as int]));
            }
            return None;
        }
        let d: u64 = (u - 48) as u64;
        proof {
            assert(is_digit(v@[i as int]));
            assert(dec_value(v@, i + 1) == (acc as int) * 10 + digit_val(v@[i as int]));
        }
        let shifted = match acc.checked_mul(10) {
            Some(x) => x,
            None => {
                proof {
                    if all_digits(v@, len as int) {
                        lemma_dec_value_grows(v@, i + 1, len as int);
                    }
                }
                return None;
            },
        };
        let next = match shifted.checked_add(d) {
            Some(x) => x,
            None => {
                proof {
                    if all_digits(v@, len as int) {
                        lemma_dec_value_grows(v@, i + 1, len as int);
                    }
                }
                return None;
            },
        };
        acc = next;
        i = i + 1;
    }
    Some(acc)
}

/// Longer digit prefixes have values at least as large: digits only grow the
/// accumulated value.
proof fn lemma_dec_value_grows(s: Seq<char>, m: int, n: int)
    requires
        0 <= m <= n <= s.len(),
        all_digits(s, n),
    ensures
        dec_value(s, m) <= dec_value(s, n),
        0 <= dec_value(s, m),
    decreases n - m,
{
    if m < n {
        lemma_dec_value_grows(s, m, n - 1);
        lemma_dec_value_nonneg(s, m);
        lemma_dec_value_nonneg(s, n - 1);
        assert(dec_value(s, n) == dec_value(s, n - 1) * 10 + digit_val(s[n - 1]));
        assert(dec_value(s, n - 1) * 10 >= dec_value(s, n - 1)) by (nonlinear_arith)
            requires
                dec_value(s, n - 1) >= 0,
        ;
    } else {
        lemma_dec_value_nonneg(s, m);
    }
}

/// A digit string's value is non-negative.
proof fn lemma_dec_value_nonneg(s: Seq<char>, m: int)
    requires
        0 <= m <= s.len(),
        all_digits(s, m),
    ensures
        0 <= dec_value(s, m),
    decreases m,
{
    if m > 0 {
        lemma_dec_value_nonneg(s, m - 1);
        assert(dec_value(s, m - 1) * 10 >= 0) by (nonlinear_arith)
            requires
                dec_value(s, m - 1) >= 0,
        ;
    }
}

/// Shortens `text` to at most `max_width` characters for display, replacing
/// the removed tail with an ellipsis of three dots.
pub fn truncate(text: &str, max_width: usize) -> (r: String)
    ensures
        text@.len() <= max_width ==> r@ == text@,
        text@.len() > max_width ==> r@ == text@.subrange(
            0,
            if max_width >= 3 {
                max_width - 3
            } else {
                0
            },
        ) + "..."@,
{
    let len = text.unicode_len();
    if len <= max_width {
        String::from_str(text)
    } else {
        let keep: usize = if max_width >= 3 {
            max_width - 3
        } else {
            0
        };
        let head = text.substring_char(0, keep);
        String::from_str(head).concat("...")
    }
}

} // verus!
