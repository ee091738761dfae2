//! `list<T>`: a list literal `[item, item, ...]` whose items all have
//! the type `T`.

use vstd::prelude::*;
use vstd::string::StringExecFns;
use vstd::string::StrSliceExecFns;
use crate::aaml::parsing::{depth_step, wrapped_in};
use crate::error::{AamlError, ErrorModel};
use crate::text::{
    chars_of, lemma_trim_shape, starts_with, string_of_range, strip_prefix, texts, trim,
    trim_range, trim_str,
};
use crate::types::Type;
use crate::types::primitive_type::PrimitiveType;
use crate::types::{check_list, validate_list};

verus! {

/// A list type; holds the name of the type of its items.
#[derive(Clone, Debug)]
pub struct ListType {
    pub inner_type: String,
}

/// `acc` with the trimmed `piece` at its end, unless that is empty.
pub open spec fn push_item(acc: Seq<Seq<char>>, piece: Seq<char>) -> Seq<Seq<char>> {
    let t = trim(piece);
    if t.len() > 0 {
        acc.push(t)
    } else {
        acc
    }
}

/// The trimmed, non-empty pieces of `s` between commas at nesting
/// depth 0, scanning from `i` at depth `d`, where the open piece began
/// at `start` and `acc` holds the items found so far.
pub open spec fn items_from(
    s: Seq<char>,
    i: int,
    d: int,
    start: int,
    acc: Seq<Seq<char>>,
) -> Seq<Seq<char>>
    decreases s.len() - i,
{
    if i < 0 || i >= s.len() {
        push_item(acc, s.subrange(start, s.len() as int))
    } else if d == 0 && s[i] == ',' {
        items_from(s, i + 1, d, i + 1, push_item(acc, s.subrange(start, i)))
    } else {
        items_from(s, i + 1, depth_step(d, s[i]), start, acc)
    }
}

/// The items of `s`: split at top-level commas, trimmed, empty ones
/// dropped.
pub open spec fn split_top_level_spec(s: Seq<char>) -> Seq<Seq<char>> {
    items_from(s, 0, 0, 0, Seq::empty())
}

/// No item is longer than the text it was cut from.
pub proof fn lemma_items_short(
    s: Seq<char>,
    i: int,
    d: int,
    start: int,
    acc: Seq<Seq<char>>,
)
    requires
        0 <= start <= i <= s.len(),
        forall|k: int| 0 <= k < acc.len() ==> (#[trigger] acc[k]).len() <= s.len(),
    ensures
        forall|k: int|
            0 <= k < items_from(s, i, d, start, acc).len() ==> (#[trigger] items_from(
                s,
                i,
                d,
                start,
                acc,
            )[k]).len() <= s.len(),
    decreases s.len() - i,
{
    let r = items_from(s, i, d, start, acc);
    if i >= s.len() {
        let piece = s.subrange(start, s.len() as int);
        lemma_trim_shape(piece);
        assert(r == push_item(acc, piece));
        assert forall|k: int| 0 <= k < r.len() implies (#[trigger] r[k]).len() <= s.len() by {
            if k < acc.len() {
                assert(r[k] == acc[k]);
            }
        }
    } else if d == 0 && s[i] == ',' {
        let piece = s.subrange(start, i);
        lemma_trim_shape(piece);
        let next = push_item(acc, piece);
        assert forall|k: int| 0 <= k < next.len() implies (#[trigger] next[k]).len()
            <= s.len() by {
            if k < acc.len() {
                assert(next[k] == acc[k]);
            }
        }
        lemma_items_short(s, i + 1, d, i + 1, next);
        assert(r == items_from(s, i + 1, d, i + 1, next));
    } else {
        lemma_items_short(s, i + 1, depth_step(d, s[i]), start, acc);
        assert(r == items_from(s, i + 1, depth_step(d, s[i]), start, acc));
    }
}

/// Splits `s` on the commas that stand outside `{}` and `[]`, trims
/// the pieces and drops the empty ones.
pub fn split_top_level(s: &str) -> (r: Vec<String>)
    ensures
        texts(r@) == split_top_level_spec(s@),
{
    let cs = chars_of(s);
    let n: usize = cs.len();
    let mut items: Vec<String> = Vec::new();
    let mut depth: i128 = 0;
    let mut start: usize = 0;
    let mut i: usize = 0;
    proof {
        assert(texts(items@) =~= Seq::empty());
    }
    while i < n
        invariant
            start <= i <= n,
            n == cs@.len(),
            cs@ == s@,
            -(i as int) <= depth <= i as int,
            split_top_level_spec(s@) == items_from(
                s@,
                i as int,
                depth as int,
                start as int,
                texts(items@),
            ),
        decreases n - i,
    {
        let c = cs[i];
        if depth == 0 && c == ',' {
            push_trimmed(&mut items, &cs, start, i);
            start = i + 1;
        } else if c == '{' || c == '[' {
            depth += 1;
        } else if c == '}' || c == ']' {
            depth -= 1;
        }
        i += 1;
    }
    push_trimmed(&mut items, &cs, start, n);
    items
}

/// Appends `cs[from..to]`, trimmed, to `items` unless it is empty.
fn push_trimmed(items: &mut Vec<String>, cs: &Vec<char>, from: usize, to: usize)
    requires
        from <= to <= cs@.len(),
    ensures
        texts(final(items)@) == push_item(texts(old(items)@), cs@.subrange(from as int, to as int)),
{
    let piece = vstd::slice::slice_subrange(cs.as_slice(), from, to);
    let (lo, hi) = trim_range(piece);
    if hi > lo {
        let item = string_of_range(piece, lo, hi);
        proof {
            assert(texts(items@.push(item)) =~= texts(items@).push(item@));
        }
        items.push(item);
    }
}

/// The name between `list<` and `>`, trimmed, where `type_str` has
/// that form and the name is not empty.
pub open spec fn list_inner(type_str: Seq<char>) -> Option<Seq<char>> {
    let t = trim(type_str);
    if starts_with(t, "list<"@) {
        let rest = t.skip("list<"@.len() as int);
        if rest.len() > 0 && rest.last() == '>' {
            let inner = trim(rest.drop_last());
            if inner.len() > 0 {
                Some(inner)
            } else {
                None
            }
        } else {
            None
        }
    } else {
        None
    }
}

/// The name of an item type is shorter than the name of its list type.
pub proof fn lemma_list_inner_shorter(type_str: Seq<char>)
    ensures
        list_inner(type_str) matches Some(inner) ==> inner.len() < type_str.len(),
{
    lemma_trim_shape(type_str);
    let t = trim(type_str);
    if starts_with(t, "list<"@) {
        let rest = t.skip("list<"@.len() as int);
        if rest.len() > 0 {
            lemma_trim_shape(rest.drop_last());
        }
    }
}

/// The items of a list literal: what stands between `[` and `]`,
/// split at top-level commas.
pub open spec fn parse_items_spec(value: Seq<char>) -> Option<Seq<Seq<char>>> {
    let t = trim(value);
    if wrapped_in(t, '[', ']') {
        Some(split_top_level_spec(t.subrange(1, t.len() - 1)))
    } else {
        None
    }
}

/// Every item of a list literal is shorter than the literal.
pub proof fn lemma_items_shorter(value: Seq<char>)
    ensures
        parse_items_spec(value) matches Some(items) ==> forall|k: int|
            0 <= k < items.len() ==> (#[trigger] items[k]).len() < value.len(),
{
    lemma_trim_shape(value);
    let t = trim(value);
    if wrapped_in(t, '[', ']') {
        lemma_items_short(t.subrange(1, t.len() - 1), 0, 0, 0, Seq::empty());
    }
}

impl ListType {
    /// A list type over the item type named `inner_type`.
    pub fn new(inner_type: String) -> (r: Self)
        ensures
            r.inner_type == inner_type,
    {
        ListType { inner_type }
    }

    /// Reads `list<T>` and returns `T`.
    pub fn parse_inner(type_str: &str) -> (r: Option<String>)
        ensures
            match r {
                Some(inner) => list_inner(type_str@) == Some(inner@),
                None => list_inner(type_str@) is None,
            },
    {
        let t = trim_str(type_str);
        match strip_prefix(t, "list<") {
            None => None,
            Some(rest) => {
                let cs = chars_of(rest);
                let n: usize = cs.len();
                if n > 0 && cs[n - 1] == '>' {
                    proof {
                        assert(rest@.subrange(0, n - 1) =~= rest@.drop_last());
                    }
                    let inner = trim_str(rest.substring_char(0, n - 1));
                    if inner.unicode_len() > 0 {
                        Some(String::from_str(inner))
                    } else {
                        None
                    }
                } else {
                    None
                }
            },
        }
    }

    /// Splits a `[…]` literal into its items, keeping nested `{}` and
    /// `[]` whole.
    pub fn parse_items(value: &str) -> (r: Option<Vec<String>>)
        ensures
            match r {
                Some(items) => parse_items_spec(value@) == Some(texts(items@)),
                None => parse_items_spec(value@) is None,
            },
    {
        let t = trim_str(value);
        let cs = chars_of(t);
        let n: usize = cs.len();
        if n >= 2 && cs[0] == '[' && cs[n - 1] == ']' {
            Some(split_top_level(t.substring_char(1, n - 1)))
        } else {
            None
        }
    }
}

impl Type for ListType {
    open spec fn named(name: Seq<char>) -> Result<Self, ErrorModel> {
        Err(ErrorModel::NotFound("ListType::from_name — use ListType::new instead"@))
    }

    open spec fn base(&self) -> PrimitiveType {
        PrimitiveType::String
    }

    open spec fn check(&self, value: Seq<char>) -> Result<(), ErrorModel> {
        check_list(self.inner_type@, value)
    }

    fn from_name(name: &str) -> (r: Result<Self, AamlError>) {
        Err(AamlError::NotFound(String::from_str("ListType::from_name — use ListType::new instead")))
    }

    fn base_type(&self) -> (r: PrimitiveType) {
        PrimitiveType::String
    }

    fn validate(&self, value: &str) -> (r: Result<(), AamlError>) {
        validate_list(self.inner_type.as_str(), value)
    }
}

} // verus!
