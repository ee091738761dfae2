//! Scanning of single lines: comments, assignments, quotes, and the
//! pieces of inline objects.

use vstd::prelude::*;
use vstd::string::StrSliceExecFns;
use vstd::string::StringExecFns;
use crate::text::{
    chars_of, is_ascii_space, char_is_ascii_space, string_of_range, trim, trim_range, trim_str,
    lemma_trim_shape, texts,
};

verus! {

/// The quote that is open after `c` is read while `q` was open.
pub open spec fn next_quote(q: Option<char>, c: char) -> Option<char> {
    match q {
        None => if c == '"' || c == '\'' {
            Some(c)
        } else {
            None
        },
        Some(open) => if c == open {
            None
        } else {
            q
        },
    }
}

/// Whether the `#` at `i` stands alone: white space or a line boundary
/// on both sides.
pub open spec fn comment_at(s: Seq<char>, i: int) -> bool
    recommends
        0 <= i < s.len(),
{
    &&& s[i] == '#'
    &&& (i == 0 || is_ascii_space(s[i - 1]))
    &&& (i + 1 == s.len() || is_ascii_space(s[i + 1]))
}

/// Index of the first comment at or after `i`, read with quote `q` open;
/// the length of `s` where there is none.
pub open spec fn comment_start(s: Seq<char>, i: int, q: Option<char>) -> int
    decreases s.len() - i,
{
    if i < 0 || i >= s.len() {
        s.len() as int
    } else if q is None && comment_at(s, i) {
        i
    } else {
        comment_start(s, i + 1, next_quote(q, s[i]))
    }
}

/// The line without its trailing comment.
pub open spec fn strip_comment_spec(s: Seq<char>) -> Seq<char> {
    s.take(comment_start(s, 0, None))
}

/// A comment starts at or after the place the scan is at, within the
/// line.
pub proof fn lemma_comment_start_bounds(s: Seq<char>, i: int, q: Option<char>)
    requires
        0 <= i <= s.len(),
    ensures
        i <= comment_start(s, i, q) <= s.len(),
    decreases s.len() - i,
{
    if i < s.len() && !(q is None && comment_at(s, i)) {
        lemma_comment_start_bounds(s, i + 1, next_quote(q, s[i]));
    }
}

/// Removes a trailing `#` comment from one line.
///
/// A `#` starts a comment only outside quotes and only where white space
/// or a line boundary stands on both sides of it.
pub fn strip_comment<'a>(line: &'a str) -> (r: &'a str)
    ensures
        r@ == strip_comment_spec(line@),
{
    let cs = chars_of(line);
    let n: usize = cs.len();
    let mut quote: Option<char> = None;
    let mut i: usize = 0;
    while i < n
        invariant
            i <= n,
            n == cs@.len(),
            cs@ == line@,
            comment_start(cs@, 0, None) == comment_start(cs@, i as int, quote),
        decreases n - i,
    {
        let c = cs[i];
        if quote.is_none() && c == '#' {
            let before = i == 0 || char_is_ascii_space(cs[i - 1]);
            let after = i + 1 == n || char_is_ascii_space(cs[i + 1]);
            if before && after {
                proof {
                    assert(line@.subrange(0, i as int) =~= line@.take(i as int));
                }
                return line.substring_char(0, i);
            }
        }
        quote =
        match quote {
            None => if c == '"' || c == '\'' {
                Some(c)
            } else {
                None
            },
            Some(open) => if c == open {
                None
            } else {
                quote
            },
        };
        i += 1;
    }
    proof {
        assert(line@.subrange(0, n as int) =~= line@.take(n as int));
    }
    line.substring_char(0, n)
}

/// `s` is at least two characters long, starts with `open` and ends
/// with `close`.
pub open spec fn wrapped_in(s: Seq<char>, open: char, close: char) -> bool {
    s.len() >= 2 && s[0] == open && s.last() == close
}

/// The trimmed text, without one pair of surrounding quotes if it has one.
pub open spec fn unwrap_quotes_spec(s: Seq<char>) -> Seq<char> {
    let t = trim(s);
    if wrapped_in(t, '"', '"') || wrapped_in(t, '\'', '\'') {
        t.subrange(1, t.len() - 1)
    } else {
        t
    }
}

/// Strips white space and then one matching pair of `"…"` or `'…'`.
pub fn unwrap_quotes<'a>(s: &'a str) -> (r: &'a str)
    ensures
        r@ == unwrap_quotes_spec(s@),
{
    let cs = chars_of(s);
    let (lo, hi) = trim_range(cs.as_slice());
    proof {
        let t = trim(s@);
        if hi - lo >= 2 {
            assert(t[0] == cs@[lo as int]);
            assert(t.last() == cs@[hi - 1]);
            assert(t.subrange(1, t.len() - 1) =~= s@.subrange(lo + 1, hi - 1));
        }
    }
    if hi - lo >= 2 && ((cs[lo] == '"' && cs[hi - 1] == '"') || (cs[lo] == '\'' && cs[hi - 1]
        == '\'')) {
        s.substring_char(lo + 1, hi - 1)
    } else {
        s.substring_char(lo, hi)
    }
}

/// An opening bracket.
pub open spec fn is_open(c: char) -> bool {
    c == '{' || c == '['
}

/// A closing bracket.
pub open spec fn is_close(c: char) -> bool {
    c == '}' || c == ']'
}

/// Nesting depth after `c` is read at depth `d`.
pub open spec fn depth_step(d: int, c: char) -> int {
    if is_open(c) {
        d + 1
    } else if is_close(c) {
        d - 1
    } else {
        d
    }
}

/// Whether `c` separates a name from a value: `=`, and `:` where
/// `colon` allows it.
pub open spec fn is_separator(c: char, colon: bool) -> bool {
    c == '=' || (colon && c == ':')
}

/// Index of the first separator at nesting depth 0, scanning from `i`
/// at depth `d`; the length of `s` where there is none.
pub open spec fn first_top_level(s: Seq<char>, i: int, d: int, colon: bool) -> int
    decreases s.len() - i,
{
    if i < 0 || i >= s.len() {
        s.len() as int
    } else if d == 0 && is_separator(s[i], colon) {
        i
    } else {
        first_top_level(s, i + 1, depth_step(d, s[i]), colon)
    }
}

/// A separator is found at or after the place the scan is at, within the
/// text.
pub proof fn lemma_first_top_level_bounds(s: Seq<char>, i: int, d: int, colon: bool)
    requires
        0 <= i <= s.len(),
    ensures
        i <= first_top_level(s, i, d, colon) <= s.len(),
    decreases s.len() - i,
{
    if i < s.len() && !(d == 0 && is_separator(s[i], colon)) {
        lemma_first_top_level_bounds(s, i + 1, depth_step(d, s[i]), colon);
    }
}

/// Finds the first `=` (or `:`, with `colon`) outside all brackets.
pub fn find_separator(cs: &[char], colon: bool) -> (r: usize)
    ensures
        r == first_top_level(cs@, 0, 0, colon),
        r <= cs@.len(),
{
    let n: usize = cs.len();
    let mut i: usize = 0;
    let mut depth: i128 = 0;
    while i < n
        invariant
            i <= n,
            n == cs@.len(),
            -(i as int) <= depth <= i as int,
            first_top_level(cs@, 0, 0, colon) == first_top_level(cs@, i as int, depth as int, colon),
        decreases n - i,
    {
        let c = cs[i];
        if depth == 0 && (c == '=' || (colon && c == ':')) {
            return i;
        }
        if c == '{' || c == '[' {
            depth += 1;
        } else if c == '}' || c == ']' {
            depth -= 1;
        }
        i += 1;
    }
    n
}

/// The value as it is stored: a literal in brackets as it stands,
/// anything else without surrounding quotes.
pub open spec fn value_text(raw: Seq<char>) -> Seq<char> {
    let t = trim(raw);
    if t.len() > 0 && is_open(t[0]) {
        t
    } else {
        unwrap_quotes_spec(t)
    }
}

/// Trims `raw` and, unless it is a bracketed literal, removes one pair
/// of surrounding quotes.
pub fn stored_value<'a>(raw: &'a str) -> (r: &'a str)
    ensures
        r@ == value_text(raw@),
        r@.len() <= raw@.len(),
{
    let t = trim_str(raw);
    let cs = chars_of(t);
    proof {
        lemma_trim_shape(raw@);
        lemma_trim_shape(t@);
    }
    if cs.len() > 0 && (cs[0] == '{' || cs[0] == '[') {
        t
    } else {
        unwrap_quotes(t)
    }
}

/// Why a line without `=` is no assignment.
pub open spec fn missing_operator() -> Seq<char> {
    "Missing assignment operator '='"@
}

/// Why a line with nothing before `=` is no assignment.
pub open spec fn empty_key() -> Seq<char> {
    "Key cannot be empty"@
}

/// What an assignment line splits into: the key and the stored value,
/// or the reason why the line is no assignment.
pub open spec fn parse_assignment_spec(line: Seq<char>) -> Result<
    (Seq<char>, Seq<char>),
    Seq<char>,
> {
    let p = first_top_level(line, 0, 0, false);
    if p >= line.len() {
        Err(missing_operator())
    } else {
        let key = trim(line.take(p));
        if key.len() == 0 {
            Err(empty_key())
        } else {
            Ok((key, value_text(line.skip(p + 1))))
        }
    }
}

/// Splits `key = value` at the first `=` outside brackets.
pub fn parse_assignment<'a>(line: &'a str) -> (r: Result<(&'a str, &'a str), &'static str>)
    ensures
        match r {
            Ok((k, v)) => parse_assignment_spec(line@) == Ok::<_, Seq<char>>((k@, v@)),
            Err(e) => parse_assignment_spec(line@) == Err::<(Seq<char>, Seq<char>), _>(e@),
        },
{
    let cs = chars_of(line);
    let n: usize = cs.len();
    let p = find_separator(cs.as_slice(), false);
    if p >= n {
        return Err("Missing assignment operator '='");
    }
    proof {
        assert(line@.subrange(0, p as int) =~= line@.take(p as int));
        assert(line@.subrange(p + 1, n as int) =~= line@.skip(p + 1));
    }
    let key = trim_str(line.substring_char(0, p));
    if key.unicode_len() == 0 {
        return Err("Key cannot be empty");
    }
    let value = stored_value(line.substring_char(p + 1, n));
    Ok((key, value))
}

/// How often `c` occurs in `s`.
pub open spec fn count_char(s: Seq<char>, c: char) -> nat
    decreases s.len(),
{
    if s.len() == 0 {
        0
    } else {
        count_char(s.drop_last(), c) + if s.last() == c {
            1nat
        } else {
            0nat
        }
    }
}

/// Counts the occurrences of `c`.
pub fn count_of(cs: &[char], c: char) -> (r: usize)
    ensures
        r == count_char(cs@, c),
{
    let n: usize = cs.len();
    let mut i: usize = 0;
    let mut k: usize = 0;
    while i < n
        invariant
            i <= n,
            n == cs@.len(),
            k <= i,
            k == count_char(cs@.take(i as int), c),
        decreases n - i,
    {
        proof {
            assert(cs@.take(i + 1).drop_last() =~= cs@.take(i as int));
        }
        if cs[i] == c {
            k += 1;
        }
        i += 1;
    }
    proof {
        assert(cs@.take(n as int) =~= cs@);
    }
    k
}

/// A directive that opens more braces than it closes.
pub open spec fn needs_accumulation_spec(text: Seq<char>) -> bool {
    text.len() > 0 && text[0] == '@' && count_char(text, '{') > count_char(text, '}')
}

/// At least as many closing as opening braces.
pub open spec fn block_is_complete_spec(buf: Seq<char>) -> bool {
    count_char(buf, '}') >= count_char(buf, '{')
}

/// Whether `text` is a directive whose `{` block is still open at the
/// end of the line.
pub fn needs_accumulation(text: &str) -> (r: bool)
    ensures
        r == needs_accumulation_spec(text@),
{
    let cs = chars_of(text);
    if cs.len() == 0 || cs[0] != '@' {
        return false;
    }
    count_of(cs.as_slice(), '{') > count_of(cs.as_slice(), '}')
}

/// Whether the gathered lines close every brace they open.
pub fn block_is_complete(buf: &str) -> (r: bool)
    ensures
        r == block_is_complete_spec(buf@),
{
    let cs = chars_of(buf);
    count_of(cs.as_slice(), '}') >= count_of(cs.as_slice(), '{')
}

/// The trimmed text starts with `{` and ends with `}`.
pub open spec fn is_inline_object_spec(value: Seq<char>) -> bool {
    let v = trim(value);
    v.len() > 0 && v[0] == '{' && v.last() == '}'
}

/// Whether `value` is an inline object literal `{ ... }`.
pub fn is_inline_object(value: &str) -> (r: bool)
    ensures
        r == is_inline_object_spec(value@),
{
    let cs = chars_of(value);
    let (lo, hi) = trim_range(cs.as_slice());
    proof {
        let v = trim(value@);
        if hi > lo {
            assert(v[0] == cs@[lo as int]);
            assert(v.last() == cs@[hi - 1]);
        }
    }
    hi > lo && cs[lo] == '{' && cs[hi - 1] == '}'
}

/// The pieces of `s` between commas at nesting depth 0, scanning from
/// `i` at depth `d`, where the open piece began at `start` and `acc`
/// holds the pieces closed so far.
pub open spec fn pieces_from(
    s: Seq<char>,
    i: int,
    d: int,
    start: int,
    acc: Seq<Seq<char>>,
) -> Seq<Seq<char>>
    decreases s.len() - i,
{
    if i < 0 || i >= s.len() {
        acc.push(s.subrange(start, s.len() as int))
    } else if d == 0 && s[i] == ',' {
        pieces_from(s, i + 1, d, i + 1, acc.push(s.subrange(start, i)))
    } else {
        pieces_from(s, i + 1, depth_step(d, s[i]), start, acc)
    }
}

/// The pieces of `s` between its top-level commas, untrimmed.
pub open spec fn top_level_pieces(s: Seq<char>) -> Seq<Seq<char>> {
    pieces_from(s, 0, 0, 0, Seq::empty())
}

/// Splits `s` on the commas that stand outside `{}` and `[]`.
pub fn split_top_level_fields(s: &str) -> (r: Vec<String>)
    ensures
        texts(r@) == top_level_pieces(s@),
        forall|k: int| 0 <= k < r@.len() ==> (#[trigger] r@[k])@.len() <= s@.len(),
{
    let cs = chars_of(s);
    let n: usize = cs.len();
    let mut items: Vec<String> = Vec::new();
    let mut depth: i128 = 0;
    let mut start: usize = 0;
    let mut i: usize = 0;
    proof {
        assert(texts(items@) =~= Seq::empty());
    }
    while i < n
        invariant
            start <= i <= n,
            n == cs@.len(),
            cs@ == s@,
            -(i as int) <= depth <= i as int,
            top_level_pieces(s@) == pieces_from(
                s@,
                i as int,
                depth as int,
                start as int,
                texts(items@),
            ),
            forall|k: int| 0 <= k < items@.len() ==> (#[trigger] items@[k])@.len() <= n,
        decreases n - i,
    {
        let c = cs[i];
        if depth == 0 && c == ',' {
            let piece = string_of_range(cs.as_slice(), start, i);
            proof {
                assert(texts(items@.push(piece)) =~= texts(items@).push(piece@));
            }
            items.push(piece);
            start = i + 1;
        } else if c == '{' || c == '[' {
            depth += 1;
        } else if c == '}' || c == ']' {
            depth -= 1;
        }
        i += 1;
    }
    let piece = string_of_range(cs.as_slice(), start, n);
    proof {
        assert(texts(items@.push(piece)) =~= texts(items@).push(piece@));
    }
    items.push(piece);
    items
}

/// The two sides of a field: what stands before and after the first
/// `=` or `:` at nesting depth 0, or nothing where there is none.
pub open spec fn split_field_pair_spec(entry: Seq<char>) -> Option<(Seq<char>, Seq<char>)> {
    let p = first_top_level(entry, 0, 0, true);
    if p >= entry.len() {
        None
    } else {
        Some((entry.take(p), entry.skip(p + 1)))
    }
}

/// Why a field without `=` and `:` is no field.
pub open spec fn no_separator(entry: Seq<char>) -> Seq<char> {
    "Inline object field '"@ + entry + "' has no '=' or ':' separator"@
}

/// Splits `key = val` or `key: val` on the first `=` or `:` outside
/// brackets.
pub fn split_field_pair<'a>(entry: &'a str) -> (r: Result<(&'a str, &'a str), String>)
    ensures
        match r {
            Ok((k, v)) => split_field_pair_spec(entry@) == Some((k@, v@)),
            Err(e) => split_field_pair_spec(entry@) is None && e@ == no_separator(entry@),
        },
{
    let cs = chars_of(entry);
    let n: usize = cs.len();
    let p = find_separator(cs.as_slice(), true);
    if p >= n {
        let mut msg = String::from_str("Inline object field '");
        msg.append(entry);
        msg.append("' has no '=' or ':' separator");
        return Err(msg);
    }
    proof {
        assert(entry@.subrange(0, p as int) =~= entry@.take(p as int));
        assert(entry@.subrange(p + 1, n as int) =~= entry@.skip(p + 1));
    }
    Ok((entry.substring_char(0, p), entry.substring_char(p + 1, n)))
}

/// Why a text that is not wrapped in braces is no inline object.
pub open spec fn not_wrapped(value: Seq<char>) -> Seq<char> {
    "Inline object must be wrapped in '{}', got: '"@ + value + "'"@
}

/// Why a field with nothing before its separator is no field.
pub open spec fn empty_field_key(entry: Seq<char>) -> Seq<char> {
    "Empty key in inline object field '"@ + entry + "'"@
}

/// The fields read from `pieces[i..]`, after those in `acc`; the first
/// malformed piece ends the reading with its message.
pub open spec fn fields_from(
    pieces: Seq<Seq<char>>,
    i: int,
    acc: Seq<(Seq<char>, Seq<char>)>,
) -> Result<Seq<(Seq<char>, Seq<char>)>, Seq<char>>
    decreases pieces.len() - i,
{
    if i < 0 || i >= pieces.len() {
        Ok(acc)
    } else {
        let entry = trim(pieces[i]);
        if entry.len() == 0 {
            fields_from(pieces, i + 1, acc)
        } else {
            match split_field_pair_spec(entry) {
                None => Err(no_separator(entry)),
                Some((k, v)) => if trim(k).len() == 0 {
                    Err(empty_field_key(entry))
                } else {
                    fields_from(pieces, i + 1, acc.push((trim(k), value_text(v))))
                },
            }
        }
    }
}

/// The fields of an inline object, in the order written, or why the
/// text is no inline object.
pub open spec fn parse_inline_object_spec(value: Seq<char>) -> Result<
    Seq<(Seq<char>, Seq<char>)>,
    Seq<char>,
> {
    let s = trim(value);
    if !wrapped_in(s, '{', '}') {
        Err(not_wrapped(value))
    } else {
        fields_from(top_level_pieces(s.subrange(1, s.len() - 1)), 0, Seq::empty())
    }
}

/// The texts that a vector of pairs of strings holds.
pub open spec fn pair_texts(v: Seq<(String, String)>) -> Seq<(Seq<char>, Seq<char>)> {
    v.map_values(|p: (String, String)| (p.0@, p.1@))
}

/// Reads an inline object `{ key = val, key2: val2, ... }` into its
/// fields. Nested `{}` and `[]` values are kept whole.
pub fn parse_inline_object(value: &str) -> (r: Result<Vec<(String, String)>, String>)
    ensures
        match r {
            Ok(fields) => parse_inline_object_spec(value@) == Ok::<_, Seq<char>>(
                pair_texts(fields@),
            ) && forall|k: int|
                0 <= k < fields@.len() ==> (#[trigger] fields@[k]).1@.len() < value@.len(),
            Err(e) => parse_inline_object_spec(value@) == Err::<
                Seq<(Seq<char>, Seq<char>)>,
                _,
            >(e@),
        },
{
    let s = trim_str(value);
    let cs = chars_of(s);
    let n: usize = cs.len();
    proof {
        lemma_trim_shape(value@);
    }
    if !(n >= 2 && cs[0] == '{' && cs[n - 1] == '}') {
        let mut msg = String::from_str("Inline object must be wrapped in '{}', got: '");
        msg.append(value);
        msg.append("'");
        return Err(msg);
    }
    let inner = s.substring_char(1, n - 1);
    let pieces = split_top_level_fields(inner);
    let mut fields: Vec<(String, String)> = Vec::new();
    let m: usize = pieces.len();
    let mut i: usize = 0;
    proof {
        assert(pair_texts(fields@) =~= Seq::empty());
        assert(trim(value@).subrange(1, n - 1) == inner@);
    }
    while i < m
        invariant
            i <= m,
            m == pieces@.len(),
            texts(pieces@) == top_level_pieces(inner@),
            inner@.len() + 2 <= value@.len(),
            parse_inline_object_spec(value@) == fields_from(texts(pieces@), 0, Seq::empty()),
            forall|k: int| 0 <= k < pieces@.len() ==> (#[trigger] pieces@[k])@.len() <= inner@.len(),
            fields_from(texts(pieces@), 0, Seq::empty()) == fields_from(
                texts(pieces@),
                i as int,
                pair_texts(fields@),
            ),
            forall|k: int|
                0 <= k < fields@.len() ==> (#[trigger] fields@[k]).1@.len() < value@.len(),
        decreases m - i,
    {
        let entry = trim_str(pieces[i].as_str());
        proof {
            assert(texts(pieces@)[i as int] == pieces@[i as int]@);
            lemma_trim_shape(pieces@[i as int]@);
        }
        if entry.unicode_len() != 0 {
            match split_field_pair(entry) {
                Err(e) => {
                    return Err(e);
                },
                Ok((k, v)) => {
                    let key = trim_str(k);
                    if key.unicode_len() == 0 {
                        let mut msg = String::from_str("Empty key in inline object field '");
                        msg.append(entry);
                        msg.append("'");
                        return Err(msg);
                    }
                    let val = stored_value(v);
                    let pair = (String::from_str(key), String::from_str(val));
                    proof {
                        assert(pair_texts(fields@.push(pair)) =~= pair_texts(fields@).push(
                            (key@, val@),
                        ));
                        lemma_first_top_level_bounds(entry@, 0, 0, true);
                    }
                    fields.push(pair);
                },
            }
        }
        i += 1;
    }
    Ok(fields)
}

/// What is stored for a value is no longer than what was written.
pub proof fn lemma_value_text_short(raw: Seq<char>)
    ensures
        value_text(raw).len() <= raw.len(),
{
    lemma_trim_shape(raw);
    lemma_trim_shape(trim(raw));
}

/// No piece is longer than the text it was cut from.
pub proof fn lemma_pieces_short(s: Seq<char>, i: int, d: int, start: int, acc: Seq<Seq<char>>)
    requires
        0 <= start <= i <= s.len(),
        forall|k: int| 0 <= k < acc.len() ==> (#[trigger] acc[k]).len() <= s.len(),
    ensures
        forall|k: int|
            0 <= k < pieces_from(s, i, d, start, acc).len() ==> (#[trigger] pieces_from(
                s,
                i,
                d,
                start,
                acc,
            )[k]).len() <= s.len(),
    decreases s.len() - i,
{
    let r = pieces_from(s, i, d, start, acc);
    if i >= s.len() {
        let next = acc.push(s.subrange(start, s.len() as int));
        assert(r == next);
        assert forall|k: int| 0 <= k < r.len() implies (#[trigger] r[k]).len() <= s.len() by {
            if k < acc.len() {
                assert(r[k] == acc[k]);
            }
        }
    } else if d == 0 && s[i] == ',' {
        let next = acc.push(s.subrange(start, i));
        assert forall|k: int| 0 <= k < next.len() implies (#[trigger] next[k]).len()
            <= s.len() by {
            if k < acc.len() {
                assert(next[k] == acc[k]);
            }
        }
        lemma_pieces_short(s, i + 1, d, i + 1, next);
        assert(r == pieces_from(s, i + 1, d, i + 1, next));
    } else {
        lemma_pieces_short(s, i + 1, depth_step(d, s[i]), start, acc);
        assert(r == pieces_from(s, i + 1, depth_step(d, s[i]), start, acc));
    }
}

/// The value of a field is shorter than the piece it was read from.
pub proof fn lemma_fields_short(
    pieces: Seq<Seq<char>>,
    i: int,
    acc: Seq<(Seq<char>, Seq<char>)>,
    bound: int,
)
    requires
        0 <= i <= pieces.len(),
        forall|k: int| 0 <= k < pieces.len() ==> (#[trigger] pieces[k]).len() <= bound,
        forall|k: int| 0 <= k < acc.len() ==> (#[trigger] acc[k]).1.len() < bound,
    ensures
        fields_from(pieces, i, acc) matches Ok(fields) ==> forall|k: int|
            0 <= k < fields.len() ==> (#[trigger] fields[k]).1.len() < bound,
    decreases pieces.len() - i,
{
    if i < pieces.len() {
        let entry = trim(pieces[i]);
        lemma_trim_shape(pieces[i]);
        if entry.len() == 0 {
            lemma_fields_short(pieces, i + 1, acc, bound);
        } else {
            match split_field_pair_spec(entry) {
                None => {},
                Some((k, v)) => {
                    if trim(k).len() > 0 {
                        lemma_first_top_level_bounds(entry, 0, 0, true);
                        lemma_value_text_short(v);
                        let next = acc.push((trim(k), value_text(v)));
                        assert forall|j: int| 0 <= j < next.len() implies (
                        #[trigger] next[j]).1.len() < bound by {
                            if j < acc.len() {
                                assert(next[j] == acc[j]);
                            }
                        }
                        lemma_fields_short(pieces, i + 1, next, bound);
                    }
                },
            }
        }
    }
}

/// Every value of an inline object is shorter than the object.
pub proof fn lemma_inline_values_shorter(value: Seq<char>)
    ensures
        parse_inline_object_spec(value) matches Ok(fields) ==> forall|k: int|
            0 <= k < fields.len() ==> (#[trigger] fields[k]).1.len() < value.len(),
{
    lemma_trim_shape(value);
    let s = trim(value);
    if wrapped_in(s, '{', '}') {
        let inner = s.subrange(1, s.len() - 1);
        lemma_pieces_short(inner, 0, 0, 0, Seq::empty());
        lemma_fields_short(top_level_pieces(inner), 0, Seq::empty(), value.len() as int);
    }
}

} // verus!
