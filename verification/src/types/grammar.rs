//! The grammars of numbers, as texts: which sequences of characters
//! denote an integer or a decimal number, and which a negative one.

use vstd::prelude::*;
use crate::text::{is_digit, char_is_digit, chars_of};

verus! {

/// A sign: `+` or `-`.
pub open spec fn is_sign(c: char) -> bool {
    c == '+' || c == '-'
}

/// Index of the first character at or after `i` that is no digit.
pub open spec fn skip_digits(s: Seq<char>, i: int) -> int
    decreases s.len() - i,
{
    if 0 <= i < s.len() && is_digit(s[i]) {
        skip_digits(s, i + 1)
    } else {
        i
    }
}

/// Skipping digits ends at or after its start, within the text.
pub proof fn lemma_skip_digits_bounds(s: Seq<char>, i: int)
    requires
        0 <= i <= s.len(),
    ensures
        i <= skip_digits(s, i) <= s.len(),
    decreases s.len() - i,
{
    if i < s.len() && is_digit(s[i]) {
        lemma_skip_digits_bounds(s, i + 1);
    }
}

/// Skips the digits that start at `i`.
pub fn digits_end(cs: &[char], i: usize) -> (r: usize)
    requires
        i <= cs@.len(),
    ensures
        r == skip_digits(cs@, i as int),
        i <= r <= cs@.len(),
{
    let n: usize = cs.len();
    let mut j: usize = i;
    while j < n && char_is_digit(cs[j])
        invariant
            i <= j <= n,
            n == cs@.len(),
            skip_digits(cs@, i as int) == skip_digits(cs@, j as int),
        decreases n - j,
    {
        j += 1;
    }
    j
}

/// One or more digits and nothing else.
pub open spec fn all_digits(s: Seq<char>) -> bool {
    s.len() > 0 && skip_digits(s, 0) == s.len()
}

/// An unsigned whole number: digits, with an optional `+` in front.
pub open spec fn is_unsigned(s: Seq<char>) -> bool {
    if s.len() > 0 && s[0] == '+' {
        all_digits(s.skip(1))
    } else {
        all_digits(s)
    }
}

/// Skipping digits in a suffix is skipping them in the whole text,
/// shifted.
pub proof fn lemma_skip_digits_shift(s: Seq<char>, k: int, i: int)
    requires
        0 <= k <= s.len(),
        0 <= i <= s.len() - k,
    ensures
        skip_digits(s.skip(k), i) == skip_digits(s, i + k) - k,
    decreases s.len() - k - i,
{
    let t = s.skip(k);
    if i < t.len() {
        assert(t[i] == s[i + k]);
        if is_digit(t[i]) {
            lemma_skip_digits_shift(s, k, i + 1);
        }
    }
}

/// Skipping digits in a part of a text is skipping them in the whole
/// text, cut at the end of the part.
pub proof fn lemma_skip_digits_sub(s: Seq<char>, a: int, b: int, i: int)
    requires
        0 <= a <= b <= s.len(),
        0 <= i <= b - a,
    ensures
        skip_digits(s.subrange(a, b), i) == if skip_digits(s, a + i) < b {
            skip_digits(s, a + i) - a
        } else {
            b - a
        },
    decreases b - a - i,
{
    let t = s.subrange(a, b);
    lemma_skip_digits_bounds(s, a + i);
    if i < t.len() {
        assert(t[i] == s[a + i]);
        if is_digit(t[i]) {
            lemma_skip_digits_sub(s, a, b, i + 1);
        }
    }
}

/// Whether `cs[from..to]` is an unsigned whole number.
pub fn range_is_unsigned(cs: &[char], from: usize, to: usize) -> (r: bool)
    requires
        from <= to <= cs@.len(),
    ensures
        r == is_unsigned(cs@.subrange(from as int, to as int)),
{
    let ghost t = cs@.subrange(from as int, to as int);
    let start: usize = if from < to && cs[from] == '+' {
        from + 1
    } else {
        from
    };
    proof {
        if from < to {
            assert(t[0] == cs@[from as int]);
        }
        lemma_skip_digits_sub(cs@, from as int, to as int, 0);
        if start > from {
            assert(t.skip(1) =~= cs@.subrange(from + 1, to as int));
            lemma_skip_digits_sub(cs@, from + 1, to as int, 0);
        }
    }
    if start >= to {
        return false;
    }
    let e = digits_end(cs, start);
    e >= to
}

/// The value of the digits of `s`, read from the left after `acc`.
pub open spec fn digits_value(s: Seq<char>, i: int, acc: int) -> int
    decreases s.len() - i,
{
    if 0 <= i < s.len() {
        digits_value(s, i + 1, acc * 10 + (s[i] as int - '0' as int))
    } else {
        acc
    }
}

/// A whole number that fits in 32 bits with sign: an optional sign,
/// then digits, with a value from -2147483648 to 2147483647.
pub open spec fn is_int32(s: Seq<char>) -> bool {
    if s.len() > 0 && is_sign(s[0]) {
        let d = s.skip(1);
        all_digits(d) && if s[0] == '-' {
            digits_value(d, 0, 0) <= 2147483648
        } else {
            digits_value(d, 0, 0) <= 2147483647
        }
    } else {
        all_digits(s) && digits_value(s, 0, 0) <= 2147483647
    }
}

/// Reading further digits does not lower the value.
pub proof fn lemma_digits_value_grows(s: Seq<char>, i: int, acc: int)
    requires
        0 <= i <= s.len(),
        acc >= 0,
        forall|j: int| i <= j < s.len() ==> is_digit(#[trigger] s[j]),
    ensures
        digits_value(s, i, acc) >= acc,
    decreases s.len() - i,
{
    if i < s.len() {
        assert(is_digit(s[i]));
        lemma_digits_value_grows(s, i + 1, acc * 10 + (s[i] as int - '0' as int));
    }
}

/// Where skipping digits from `i` reaches the end, every character from
/// `i` on is a digit.
pub proof fn lemma_all_digits(s: Seq<char>, i: int)
    requires
        0 <= i <= s.len(),
        skip_digits(s, i) == s.len(),
    ensures
        forall|j: int| i <= j < s.len() ==> is_digit(#[trigger] s[j]),
    decreases s.len() - i,
{
    if i < s.len() {
        lemma_all_digits(s, i + 1);
    }
}

/// Whether `s` is a whole number that fits in 32 bits with sign.
pub fn text_is_int32(s: &str) -> (r: bool)
    ensures
        r == is_int32(s@),
{
    let cs = chars_of(s);
    let n: usize = cs.len();
    let signed = n > 0 && (cs[0] == '+' || cs[0] == '-');
    let start: usize = if signed {
        1
    } else {
        0
    };
    let ghost d = if signed {
        s@.skip(1)
    } else {
        s@
    };
    proof {
        if signed {
            lemma_skip_digits_shift(s@, 1, 0);
        }
    }
    if start >= n {
        return false;
    }
    let e = digits_end(cs.as_slice(), start);
    if e < n {
        return false;
    }
    let limit: u64 = if signed && cs[0] == '-' {
        2147483648
    } else {
        2147483647
    };
    proof {
        lemma_all_digits(s@, start as int);
        assert(is_int32(s@) == (digits_value(d, 0, 0) <= limit));
    }
    let mut acc: u64 = 0;
    let mut i: usize = start;
    while i < n
        invariant
            start <= i <= n,
            is_int32(s@) == (digits_value(d, 0, 0) <= limit),
            n == cs@.len(),
            cs@ == s@,
            d == s@.skip(start as int),
            acc <= limit,
            limit <= 2147483648,
            forall|j: int| start <= j < n ==> is_digit(#[trigger] s@[j]),
            digits_value(d, 0, 0) == digits_value(d, i - start, acc as int),
        decreases n - i,
    {
        let c = cs[i];
        proof {
            assert(is_digit(s@[i as int]));
            assert(d[i - start] == s@[i as int]);
        }
        let v: u64 = (c as u64) - ('0' as u64);
        acc = acc * 10 + v;
        proof {
            assert(d.len() == n - start);
            assert(digits_value(d, 0, 0) == digits_value(d, i + 1 - start, acc as int));
        }
        if acc > limit {
            proof {
                assert forall|j: int| i + 1 - start <= j < d.len() implies is_digit(
                    #[trigger] d[j],
                ) by {
                    assert(d[j] == s@[j + start]);
                }
                lemma_digits_value_grows(d, i + 1 - start, acc as int);
            }
            return false;
        }
        i += 1;
    }
    true
}

/// ASCII lower case of `c`.
pub open spec fn lower(c: char) -> char {
    if 'A' <= c && c <= 'Z' {
        ((c as u8) + 32) as char
    } else {
        c
    }
}

/// `s` equals `word` when upper-case ASCII letters of `s` are read as
/// lower case.
pub open spec fn is_word(s: Seq<char>, word: Seq<char>) -> bool {
    s.len() == word.len() && forall|i: int| 0 <= i < s.len() ==> lower(#[trigger] s[i]) == word[i]
}

/// The ASCII lower case of `c`.
pub fn to_lower(c: char) -> (r: char)
    ensures
        r == lower(c),
{
    if 'A' <= c && c <= 'Z' {
        ((c as u8) + 32) as char
    } else {
        c
    }
}

/// Whether `cs[from..]` reads as `word`, ignoring ASCII case.
pub fn tail_is_word(cs: &[char], from: usize, word: &str) -> (r: bool)
    requires
        from <= cs@.len(),
    ensures
        r == is_word(cs@.skip(from as int), word@),
{
    let w = chars_of(word);
    let n: usize = cs.len();
    let ghost t = cs@.skip(from as int);
    if n - from != w.len() {
        return false;
    }
    let m: usize = w.len();
    let mut i: usize = 0;
    while i < m
        invariant
            i <= m,
            m == w@.len(),
            w@ == word@,
            n == cs@.len(),
            from + m == n,
            t == cs@.skip(from as int),
            forall|j: int| 0 <= j < i ==> lower(#[trigger] t[j]) == word@[j],
        decreases m - i,
    {
        proof {
            assert(t[i as int] == cs@[from + i]);
        }
        if to_lower(cs[from + i]) != w[i] {
            return false;
        }
        i += 1;
    }
    true
}

/// A number without sign: digits with at most one `.` among them and
/// at least one digit, then optionally `e` or `E`, an optional sign and
/// one or more digits.
pub open spec fn is_number(s: Seq<char>) -> bool {
    let a = skip_digits(s, 0);
    let dot = a < s.len() && s[a] == '.';
    let b = if dot {
        skip_digits(s, a + 1)
    } else {
        a
    };
    let mantissa_digits = if dot {
        b - 1
    } else {
        a
    };
    mantissa_digits > 0 && (b == s.len() || (b < s.len() && (s[b] == 'e' || s[b] == 'E') && {
        let c = if b + 1 < s.len() && is_sign(s[b + 1]) {
            b + 2
        } else {
            b + 1
        };
        c < s.len() && skip_digits(s, c) == s.len()
    }))
}

/// `inf` or `infinity`, in any case.
pub open spec fn is_infinite_word(s: Seq<char>) -> bool {
    is_word(s, "inf"@) || is_word(s, "infinity"@)
}

/// `nan`, in any case.
pub open spec fn is_nan_word(s: Seq<char>) -> bool {
    is_word(s, "nan"@)
}

/// `s` without a sign in front.
pub open spec fn unsigned_part(s: Seq<char>) -> Seq<char> {
    if s.len() > 0 && is_sign(s[0]) {
        s.skip(1)
    } else {
        s
    }
}

/// A decimal number: an optional sign, then a number, `inf`,
/// `infinity` or `nan`.
pub open spec fn is_float(s: Seq<char>) -> bool {
    let t = unsigned_part(s);
    is_number(t) || is_infinite_word(t) || is_nan_word(t)
}

/// Whether a digit other than 0 stands at or after `i`, before any
/// exponent.
pub open spec fn has_nonzero_digit(s: Seq<char>, i: int) -> bool
    decreases s.len() - i,
{
    if 0 <= i < s.len() && s[i] != 'e' && s[i] != 'E' {
        ('1' <= s[i] && s[i] <= '9') || has_nonzero_digit(s, i + 1)
    } else {
        false
    }
}

/// A decimal number that is zero or more: neither `nan`, nor a `-`
/// followed by infinity or by a number other than zero.
pub open spec fn is_non_negative_float(s: Seq<char>) -> bool {
    let t = unsigned_part(s);
    is_float(s) && !is_nan_word(t) && !(s.len() > 0 && s[0] == '-' && (is_infinite_word(t)
        || has_nonzero_digit(t, 0)))
}

/// Whether `cs[from..]` is a number without sign.
fn tail_is_number(cs: &[char], from: usize) -> (r: bool)
    requires
        from <= cs@.len(),
    ensures
        r == is_number(cs@.skip(from as int)),
{
    let n: usize = cs.len();
    let ghost t = cs@.skip(from as int);
    let a = digits_end(cs, from);
    proof {
        lemma_skip_digits_shift(cs@, from as int, 0);
        if a < n {
            assert(t[a - from] == cs@[a as int]);
            lemma_skip_digits_shift(cs@, from as int, a + 1 - from);
        }
    }
    let dot = a < n && cs[a] == '.';
    let b: usize = if dot {
        digits_end(cs, a + 1)
    } else {
        a
    };
    let mantissa: usize = if dot {
        b - from - 1
    } else {
        a - from
    };
    if mantissa == 0 {
        return false;
    }
    if b == n {
        return true;
    }
    proof {
        assert(t[b - from] == cs@[b as int]);
        if b + 1 < n {
            assert(t[b + 1 - from] == cs@[b + 1]);
        }
    }
    if !(cs[b] == 'e' || cs[b] == 'E') {
        return false;
    }
    let c: usize = if b + 1 < n && (cs[b + 1] == '+' || cs[b + 1] == '-') {
        b + 2
    } else {
        b + 1
    };
    if c >= n {
        return false;
    }
    proof {
        lemma_skip_digits_shift(cs@, from as int, c - from);
    }
    let e = digits_end(cs, c);
    e == n
}

/// Whether `s` is a decimal number.
pub fn text_is_float(s: &str) -> (r: bool)
    ensures
        r == is_float(s@),
{
    let cs = chars_of(s);
    let n: usize = cs.len();
    let from: usize = if n > 0 && (cs[0] == '+' || cs[0] == '-') {
        1
    } else {
        0
    };
    proof {
        assert(unsigned_part(s@) =~= cs@.skip(from as int));
    }
    tail_is_number(cs.as_slice(), from) || tail_is_word(cs.as_slice(), from, "inf")
        || tail_is_word(cs.as_slice(), from, "infinity") || tail_is_word(
        cs.as_slice(),
        from,
        "nan",
    )
}

/// Whether `s` is a decimal number that is zero or more.
pub fn text_is_non_negative_float(s: &str) -> (r: bool)
    ensures
        r == is_non_negative_float(s@),
{
    if !text_is_float(s) {
        return false;
    }
    let cs = chars_of(s);
    let n: usize = cs.len();
    let from: usize = if n > 0 && (cs[0] == '+' || cs[0] == '-') {
        1
    } else {
        0
    };
    let ghost t = cs@.skip(from as int);
    proof {
        assert(unsigned_part(s@) =~= t);
    }
    if tail_is_word(cs.as_slice(), from, "nan") {
        return false;
    }
    if !(n > 0 && cs[0] == '-') {
        return true;
    }
    if tail_is_word(cs.as_slice(), from, "inf") || tail_is_word(cs.as_slice(), from, "infinity") {
        return false;
    }
    let mut i: usize = from;
    while i < n && cs[i] != 'e' && cs[i] != 'E'
        invariant
            from <= i <= n,
            n == cs@.len(),
            t == cs@.skip(from as int),
            has_nonzero_digit(t, 0) == has_nonzero_digit(t, i - from),
            is_non_negative_float(s@) == !has_nonzero_digit(t, 0),
        decreases n - i,
    {
        proof {
            assert(t.len() == n - from);
            assert(t[i - from] == cs@[i as int]);
        }
        if '1' <= cs[i] && cs[i] <= '9' {
            proof {
                assert(has_nonzero_digit(t, i - from));
            }
            return false;
        }
        i += 1;
    }
    proof {
        if i < n {
            assert(t[i - from] == cs@[i as int]);
        }
    }
    true
}

} // verus!
