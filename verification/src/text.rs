//! Character classes, trimming and conversions between strings and
//! character slices. Everything else in the crate is built on these.

use vstd::prelude::*;
use vstd::string::StrSliceExecFns;
use vstd::string::StringExecFns;

verus! {

/// Unicode white space, the class that trimming removes.
pub open spec fn is_space(c: char) -> bool {
    let n = c as u32;
    ||| (0x09 <= n && n <= 0x0D)
    ||| n == 0x20
    ||| n == 0x85
    ||| n == 0xA0
    ||| n == 0x1680
    ||| (0x2000 <= n && n <= 0x200A)
    ||| n == 0x2028
    ||| n == 0x2029
    ||| n == 0x202F
    ||| n == 0x205F
    ||| n == 0x3000
}

/// ASCII white space: space, tab, line feed, form feed, carriage return.
pub open spec fn is_ascii_space(c: char) -> bool {
    c == ' ' || c == '\t' || c == '\n' || c == '\x0C' || c == '\r'
}

/// A decimal digit.
pub open spec fn is_digit(c: char) -> bool {
    '0' <= c && c <= '9'
}

/// Whether `c` is Unicode white space.
pub fn char_is_space(c: char) -> (r: bool)
    ensures
        r == is_space(c),
{
    let n: u32 = c as u32;
    (0x09 <= n && n <= 0x0D) || n == 0x20 || n == 0x85 || n == 0xA0 || n == 0x1680 || (0x2000 <= n
        && n <= 0x200A) || n == 0x2028 || n == 0x2029 || n == 0x202F || n == 0x205F || n == 0x3000
}

/// Whether `c` is ASCII white space.
pub fn char_is_ascii_space(c: char) -> (r: bool)
    ensures
        r == is_ascii_space(c),
{
    c == ' ' || c == '\t' || c == '\n' || c == '\x0C' || c == '\r'
}

/// Whether `c` is a decimal digit.
pub fn char_is_digit(c: char) -> (r: bool)
    ensures
        r == is_digit(c),
{
    '0' <= c && c <= '9'
}

/// Number of white-space characters at the front of `s`.
pub open spec fn leading_spaces(s: Seq<char>) -> nat
    decreases s.len(),
{
    if s.len() > 0 && is_space(s[0]) {
        1 + leading_spaces(s.drop_first())
    } else {
        0
    }
}

/// Number of white-space characters at the back of `s`.
pub open spec fn trailing_spaces(s: Seq<char>) -> nat
    decreases s.len(),
{
    if s.len() > 0 && is_space(s.last()) {
        1 + trailing_spaces(s.drop_last())
    } else {
        0
    }
}

/// `s` without the white space at its front.
pub open spec fn trim_start(s: Seq<char>) -> Seq<char> {
    s.skip(leading_spaces(s) as int)
}

/// `s` without the white space at its back.
pub open spec fn trim_end(s: Seq<char>) -> Seq<char> {
    s.take(s.len() - trailing_spaces(s))
}

/// `s` without the white space at either end.
pub open spec fn trim(s: Seq<char>) -> Seq<char> {
    trim_end(trim_start(s))
}

/// Where the first `i` characters are white space and the next is none,
/// `i` is the number of leading spaces.
pub proof fn lemma_leading_spaces(s: Seq<char>, i: int)
    requires
        0 <= i <= s.len(),
        forall|j: int| 0 <= j < i ==> is_space(#[trigger] s[j]),
        i == s.len() || !is_space(s[i]),
    ensures
        leading_spaces(s) == i,
    decreases i,
{
    if i > 0 {
        let t = s.drop_first();
        assert forall|j: int| 0 <= j < i - 1 implies is_space(#[trigger] t[j]) by {
            assert(t[j] == s[j + 1]);
        }
        lemma_leading_spaces(t, i - 1);
    }
}

/// Where the characters from `i` on are white space and the one before is
/// none, they are the trailing spaces.
pub proof fn lemma_trailing_spaces(s: Seq<char>, i: int)
    requires
        0 <= i <= s.len(),
        forall|j: int| i <= j < s.len() ==> is_space(#[trigger] s[j]),
        i == 0 || !is_space(s[i - 1]),
    ensures
        trailing_spaces(s) == s.len() - i,
    decreases s.len() - i,
{
    if i < s.len() {
        let t = s.drop_last();
        assert forall|j: int| i <= j < t.len() implies is_space(#[trigger] t[j]) by {
            assert(t[j] == s[j]);
        }
        lemma_trailing_spaces(t, i);
    }
}

/// There are no more leading spaces than characters.
pub proof fn lemma_leading_spaces_bound(s: Seq<char>)
    ensures
        leading_spaces(s) <= s.len(),
    decreases s.len(),
{
    if s.len() > 0 && is_space(s[0]) {
        lemma_leading_spaces_bound(s.drop_first());
    }
}

/// There are no more trailing spaces than characters.
pub proof fn lemma_trailing_spaces_bound(s: Seq<char>)
    ensures
        trailing_spaces(s) <= s.len(),
    decreases s.len(),
{
    if s.len() > 0 && is_space(s.last()) {
        lemma_trailing_spaces_bound(s.drop_last());
    }
}

/// A trimmed text neither starts nor ends with white space, and is no
/// longer than the text it was taken from.
pub proof fn lemma_trim_shape(s: Seq<char>)
    ensures
        trim(s).len() <= s.len(),
        trim(s).len() > 0 ==> !is_space(trim(s)[0]) && !is_space(trim(s).last()),
        trim(trim(s)) == trim(s),
{
    lemma_leading_spaces_bound(s);
    let a = trim_start(s);
    lemma_trailing_spaces_bound(a);
    lemma_leading_spaces_first(s);
    lemma_trailing_spaces_last(a);
    let t = trim(s);
    if t.len() > 0 {
        assert(t[0] == a[0]);
        assert(!is_space(t[0]));
        assert(!is_space(t.last()));
        lemma_leading_spaces(t, 0);
        lemma_trailing_spaces(t, t.len() as int);
        assert(trim_start(t) =~= t);
        assert(trim_end(t) =~= t);
    } else {
        lemma_leading_spaces(t, 0);
        lemma_trailing_spaces(t, 0);
        assert(trim_start(t) =~= t);
        assert(trim_end(t) =~= t);
    }
}

/// The leading spaces are white space, and what follows them is none.
pub proof fn lemma_leading_spaces_first(s: Seq<char>)
    ensures
        leading_spaces(s) <= s.len(),
        leading_spaces(s) < s.len() ==> !is_space(s[leading_spaces(s) as int]),
        forall|j: int| 0 <= j < leading_spaces(s) ==> is_space(#[trigger] s[j]),
    decreases s.len(),
{
    if s.len() > 0 && is_space(s[0]) {
        let t = s.drop_first();
        lemma_leading_spaces_first(t);
        assert forall|j: int| 0 <= j < leading_spaces(s) implies is_space(#[trigger] s[j]) by {
            if j > 0 {
                assert(s[j] == t[j - 1]);
            }
        }
        if leading_spaces(s) < s.len() {
            assert(s[leading_spaces(s) as int] == t[leading_spaces(t) as int]);
        }
    }
}

/// The trailing spaces are white space, and what precedes them is none.
pub proof fn lemma_trailing_spaces_last(s: Seq<char>)
    ensures
        trailing_spaces(s) <= s.len(),
        trailing_spaces(s) < s.len() ==> !is_space(s[s.len() - trailing_spaces(s) - 1]),
        forall|j: int| s.len() - trailing_spaces(s) <= j < s.len() ==> is_space(#[trigger] s[j]),
    decreases s.len(),
{
    if s.len() > 0 && is_space(s.last()) {
        let t = s.drop_last();
        lemma_trailing_spaces_last(t);
        assert forall|j: int| s.len() - trailing_spaces(s) <= j < s.len() implies is_space(
            #[trigger] s[j],
        ) by {
            if j < s.len() - 1 {
                assert(s[j] == t[j]);
            }
        }
        if trailing_spaces(s) < s.len() {
            assert(s[s.len() - trailing_spaces(s) - 1] == t[t.len() - trailing_spaces(t) - 1]);
        }
    }
}

/// Where the trimmed part of `s` starts and ends.
pub fn trim_range(s: &[char]) -> (r: (usize, usize))
    ensures
        r.0 <= r.1 <= s@.len(),
        s@.subrange(r.0 as int, r.1 as int) == trim(s@),
{
    let n: usize = s.len();
    let mut lo: usize = 0;
    while lo < n && char_is_space(s[lo])
        invariant
            lo <= n,
            n == s@.len(),
            forall|j: int| 0 <= j < lo ==> is_space(#[trigger] s@[j]),
        decreases n - lo,
    {
        lo += 1;
    }
    let mut hi: usize = n;
    while hi > lo && char_is_space(s[hi - 1])
        invariant
            lo <= hi <= n,
            n == s@.len(),
            forall|j: int| hi <= j < n ==> is_space(#[trigger] s@[j]),
        decreases hi,
    {
        hi -= 1;
    }
    proof {
        lemma_leading_spaces(s@, lo as int);
        let a = trim_start(s@);
        assert(a =~= s@.skip(lo as int));
        assert forall|j: int| hi - lo <= j < a.len() implies is_space(#[trigger] a[j]) by {
            assert(a[j] == s@[j + lo]);
        }
        if hi > lo {
            assert(a[hi - lo - 1] == s@[hi - 1]);
        }
        lemma_trailing_spaces(a, hi - lo);
        assert(trim(s@) =~= s@.subrange(lo as int, hi as int));
    }
    (lo, hi)
}

/// `s` without the white space at either end.
pub fn trim_str<'a>(s: &'a str) -> (r: &'a str)
    ensures
        r@ == trim(s@),
{
    let cs = chars_of(s);
    let (lo, hi) = trim_range(cs.as_slice());
    s.substring_char(lo, hi)
}

/// The characters of `s`, in order.
pub fn chars_of(s: &str) -> (r: Vec<char>)
    ensures
        r@ == s@,
{
    let mut out: Vec<char> = Vec::new();
    for c in it: s.chars()
        invariant
            out@ == it.seq().take(it.index() as int),
            it.seq() == s@,
    {
        out.push(c);
    }
    out
}

/// Appends one character to a string.
///
/// Calls `String::push`; the contract says that the new text is the old
/// text followed by `c`.
#[verifier::external_body]
pub(crate) fn push_char(s: &mut String, c: char)
    ensures
        final(s)@ == old(s)@.push(c),
{
    s.push(c)
}

/// Whether two strings hold the same text.
pub fn str_eq(a: &str, b: &str) -> (r: bool)
    ensures
        r == (a@ == b@),
{
    let x = chars_of(a);
    let y = chars_of(b);
    same_text(x.as_slice(), y.as_slice())
}

/// The characters of `s` from index `from` up to, not including, `to`.
pub fn string_of_range(s: &[char], from: usize, to: usize) -> (r: String)
    requires
        from <= to <= s@.len(),
    ensures
        r@ == s@.subrange(from as int, to as int),
{
    let mut out = String::new();
    let mut i: usize = from;
    while i < to
        invariant
            from <= i <= to <= s@.len(),
            out@ == s@.subrange(from as int, i as int),
        decreases to - i,
    {
        push_char(&mut out, s[i]);
        proof {
            assert(s@.subrange(from as int, i + 1) =~= s@.subrange(from as int, i as int).push(
                s@[i as int],
            ));
        }
        i += 1;
    }
    out
}

/// Whether two character slices hold the same text.
pub fn same_text(a: &[char], b: &[char]) -> (r: bool)
    ensures
        r == (a@ == b@),
{
    if a.len() != b.len() {
        return false;
    }
    let n: usize = a.len();
    let mut i: usize = 0;
    while i < n
        invariant
            i <= n,
            n == a@.len(),
            n == b@.len(),
            forall|j: int| 0 <= j < i ==> a@[j] == b@[j],
        decreases n - i,
    {
        if a[i] != b[i] {
            return false;
        }
        i += 1;
    }
    proof {
        assert(a@ =~= b@);
    }
    true
}

/// `s` begins with the text `p`.
pub open spec fn starts_with(s: Seq<char>, p: Seq<char>) -> bool {
    p.len() <= s.len() && s.take(p.len() as int) == p
}

/// Whether `cs[at..]` begins with `pat`.
pub fn occurs_at(cs: &[char], at: usize, pat: &[char]) -> (r: bool)
    requires
        at <= cs@.len(),
    ensures
        r == starts_with(cs@.skip(at as int), pat@),
{
    let n: usize = cs.len();
    let m: usize = pat.len();
    if m > n - at {
        return false;
    }
    let ghost t = cs@.skip(at as int);
    let mut i: usize = 0;
    while i < m
        invariant
            i <= m,
            m == pat@.len(),
            n == cs@.len(),
            at + m <= n,
            t == cs@.skip(at as int),
            forall|j: int| 0 <= j < i ==> #[trigger] t[j] == pat@[j],
        decreases m - i,
    {
        proof {
            assert(t[i as int] == cs@[at + i]);
        }
        if cs[at + i] != pat[i] {
            proof {
                assert(t.take(m as int)[i as int] == t[i as int]);
            }
            return false;
        }
        i += 1;
    }
    proof {
        assert(t.take(m as int) =~= pat@);
    }
    true
}

/// `s` without the text `p` in front, where it begins with `p`.
pub fn strip_prefix<'a>(s: &'a str, p: &str) -> (r: Option<&'a str>)
    ensures
        match r {
            Some(t) => starts_with(s@, p@) && t@ == s@.skip(p@.len() as int),
            None => !starts_with(s@, p@),
        },
{
    let cs = chars_of(s);
    let ps = chars_of(p);
    proof {
        assert(cs@.skip(0) =~= cs@);
    }
    if occurs_at(cs.as_slice(), 0, ps.as_slice()) {
        proof {
            assert(s@.subrange(ps@.len() as int, cs@.len() as int) =~= s@.skip(p@.len() as int));
        }
        Some(s.substring_char(ps.len(), cs.len()))
    } else {
        None
    }
}

/// Index of the first occurrence of `pat` in `s` at or after `i`; the
/// length of `s` where there is none.
pub open spec fn find_text(s: Seq<char>, pat: Seq<char>, i: int) -> int
    decreases s.len() - i,
{
    if i < 0 || i >= s.len() {
        s.len() as int
    } else if starts_with(s.skip(i), pat) {
        i
    } else {
        find_text(s, pat, i + 1)
    }
}

/// Finds the first occurrence of `pat` at or after `from`.
pub fn find_in(cs: &[char], pat: &[char], from: usize) -> (r: usize)
    requires
        from <= cs@.len(),
    ensures
        r == find_text(cs@, pat@, from as int),
        from <= r <= cs@.len(),
        r < cs@.len() ==> starts_with(cs@.skip(r as int), pat@),
{
    let n: usize = cs.len();
    let mut i: usize = from;
    while i < n
        invariant
            from <= i <= n,
            n == cs@.len(),
            find_text(cs@, pat@, from as int) == find_text(cs@, pat@, i as int),
        decreases n - i,
    {
        if occurs_at(cs, i, pat) {
            return i;
        }
        i += 1;
    }
    n
}

/// The pieces of `s` between occurrences of `sep`, scanning from `i`,
/// where the open piece began at `start` and `acc` holds the pieces
/// closed so far.
pub open spec fn split_from(
    s: Seq<char>,
    sep: char,
    i: int,
    start: int,
    acc: Seq<Seq<char>>,
) -> Seq<Seq<char>>
    decreases s.len() - i,
{
    if i < 0 || i >= s.len() {
        acc.push(s.subrange(start, s.len() as int))
    } else if s[i] == sep {
        split_from(s, sep, i + 1, i + 1, acc.push(s.subrange(start, i)))
    } else {
        split_from(s, sep, i + 1, start, acc)
    }
}

/// The pieces of `s` between occurrences of `sep`; one more than there
/// are separators.
pub open spec fn split_on(s: Seq<char>, sep: char) -> Seq<Seq<char>> {
    split_from(s, sep, 0, 0, Seq::empty())
}

/// The texts that a vector of strings holds.
pub open spec fn texts(v: Seq<String>) -> Seq<Seq<char>> {
    v.map_values(|x: String| x@)
}

/// The texts that a slice of string slices holds.
pub open spec fn slices(v: Seq<&str>) -> Seq<Seq<char>> {
    v.map_values(|x: &str| x@)
}

/// The strings of `v` as string slices.
pub fn as_strs<'a>(v: &'a Vec<String>) -> (r: Vec<&'a str>)
    ensures
        slices(r@) == texts(v@),
{
    let mut out: Vec<&'a str> = Vec::new();
    let n: usize = v.len();
    let mut i: usize = 0;
    while i < n
        invariant
            i <= n,
            n == v@.len(),
            slices(out@) == texts(v@).take(i as int),
        decreases n - i,
    {
        let s = v[i].as_str();
        proof {
            assert(texts(v@)[i as int] == v@[i as int]@);
            assert(slices(out@.push(s)) =~= slices(out@).push(s@));
            assert(texts(v@).take(i + 1) =~= texts(v@).take(i as int).push(s@));
        }
        out.push(s);
        i += 1;
    }
    proof {
        assert(texts(v@).take(n as int) =~= texts(v@));
    }
    out
}

/// Splits `s` at every `sep`.
pub fn split_chars(s: &str, sep: char) -> (r: Vec<String>)
    ensures
        texts(r@) == split_on(s@, sep),
{
    let cs = chars_of(s);
    let n: usize = cs.len();
    let mut items: Vec<String> = Vec::new();
    let mut start: usize = 0;
    let mut i: usize = 0;
    proof {
        assert(texts(items@) =~= Seq::empty());
    }
    while i < n
        invariant
            start <= i <= n,
            n == cs@.len(),
            cs@ == s@,
            split_on(s@, sep) == split_from(s@, sep, i as int, start as int, texts(items@)),
        decreases n - i,
    {
        if cs[i] == sep {
            let piece = string_of_range(cs.as_slice(), start, i);
            proof {
                assert(texts(items@.push(piece)) =~= texts(items@).push(piece@));
            }
            items.push(piece);
            start = i + 1;
        }
        i += 1;
    }
    let piece = string_of_range(cs.as_slice(), start, n);
    proof {
        assert(texts(items@.push(piece)) =~= texts(items@).push(piece@));
    }
    items.push(piece);
    items
}

/// The strings `a`, `b` and `c` in a row.
pub fn join3(a: &str, b: &str, c: &str) -> (r: String)
    ensures
        r@ == a@ + b@ + c@,
{
    let mut out = String::from_str(a);
    out.append(b);
    out.append(c);
    out
}

/// The strings `a` to `e` in a row.
pub fn join5(a: &str, b: &str, c: &str, d: &str, e: &str) -> (r: String)
    ensures
        r@ == a@ + b@ + c@ + d@ + e@,
{
    let mut out = String::from_str(a);
    out.append(b);
    out.append(c);
    out.append(d);
    out.append(e);
    out
}

/// Index of the first `c` in `s` at or after `i`; the length of `s`
/// where there is none.
pub open spec fn find_char(s: Seq<char>, c: char, i: int) -> int
    decreases s.len() - i,
{
    if i < 0 || i >= s.len() {
        s.len() as int
    } else if s[i] == c {
        i
    } else {
        find_char(s, c, i + 1)
    }
}

/// Index of the last `c` in `s`, or -1 where there is none.
pub open spec fn rfind_char(s: Seq<char>, c: char) -> int
    decreases s.len(),
{
    if s.len() == 0 {
        -1
    } else if s.last() == c {
        s.len() - 1
    } else {
        rfind_char(s.drop_last(), c)
    }
}

/// Finds the first `c` at or after `from`.
pub fn index_of_char(cs: &[char], c: char, from: usize) -> (r: usize)
    requires
        from <= cs@.len(),
    ensures
        r == find_char(cs@, c, from as int),
        from <= r <= cs@.len(),
{
    let n: usize = cs.len();
    let mut i: usize = from;
    while i < n
        invariant
            from <= i <= n,
            n == cs@.len(),
            find_char(cs@, c, from as int) == find_char(cs@, c, i as int),
        decreases n - i,
    {
        if cs[i] == c {
            return i;
        }
        i += 1;
    }
    n
}

/// Finds the last `c`; the length of the slice where there is none.
pub fn last_index_of_char(cs: &[char], c: char) -> (r: usize)
    ensures
        r <= cs@.len(),
        r < cs@.len() ==> rfind_char(cs@, c) == r,
        r == cs@.len() ==> rfind_char(cs@, c) == -1,
{
    let n: usize = cs.len();
    let mut i: usize = n;
    proof {
        assert(cs@.take(n as int) =~= cs@);
    }
    while i > 0
        invariant
            i <= n,
            n == cs@.len(),
            rfind_char(cs@, c) == rfind_char(cs@.take(i as int), c),
        decreases i,
    {
        proof {
            assert(cs@.take(i as int).drop_last() =~= cs@.take(i - 1));
        }
        if cs[i - 1] == c {
            return i - 1;
        }
        i -= 1;
    }
    n
}

} // verus!
