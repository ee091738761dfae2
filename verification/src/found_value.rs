//! The value that a lookup returns.

use vstd::prelude::*;
use vstd::std_specs::cmp::PartialEqSpecImpl;
use vstd::std_specs::convert::FromSpecImpl;
use vstd::string::StringExecFns;
use crate::aaml::parsing::{
    is_inline_object, is_inline_object_spec, pair_texts, parse_inline_object,
    parse_inline_object_spec, wrapped_in,
};
use crate::table::{Table, put};
use crate::text::{chars_of, occurs_at, push_char, starts_with, str_eq, texts, trim, trim_range};
use crate::types::list::{ListType, parse_items_spec};

verus! {

/// A value found in a document, with helpers to read it as a list or
/// as an inline object.
#[derive(Debug, Clone)]
pub struct FoundValue {
    inner: String,
}

impl View for FoundValue {
    type V = Seq<char>;

    closed spec fn view(&self) -> Seq<char> {
        self.inner@
    }
}

/// `s` from `i` on, without the occurrences of `pat`. Occurrences are
/// found from the left and do not overlap. An empty `pat` removes
/// nothing.
pub open spec fn remove_all(s: Seq<char>, pat: Seq<char>, i: int) -> Seq<char>
    decreases s.len() - i,
{
    if i < 0 || i >= s.len() {
        Seq::empty()
    } else if pat.len() > 0 && starts_with(s.skip(i), pat) {
        remove_all(s, pat, i + pat.len())
    } else {
        seq![s[i]] + remove_all(s, pat, i + 1)
    }
}

/// The table that results from binding the pairs from the `i`-th on,
/// in order, starting from `acc`.
pub open spec fn bind_all(
    pairs: Seq<(Seq<char>, Seq<char>)>,
    i: int,
    acc: Seq<(Seq<char>, Seq<char>)>,
) -> Seq<(Seq<char>, Seq<char>)>
    decreases pairs.len() - i,
{
    if i < 0 || i >= pairs.len() {
        acc
    } else {
        bind_all(pairs, i + 1, put(acc, pairs[i].0, pairs[i].1))
    }
}

/// The fields of an inline object as a table; a key written twice is
/// bound to its last value.
pub open spec fn as_object_spec(value: Seq<char>) -> Option<Seq<(Seq<char>, Seq<char>)>> {
    if !is_inline_object_spec(value) {
        None
    } else {
        match parse_inline_object_spec(value) {
            Err(_) => None,
            Ok(pairs) => Some(bind_all(pairs, 0, Seq::empty())),
        }
    }
}

impl FoundValue {
    /// A value with the text `value`.
    pub fn new(value: &str) -> (r: FoundValue)
        ensures
            r@ == value@,
    {
        FoundValue { inner: String::from_str(value) }
    }

    /// A value that takes over the string `value`.
    pub fn from_string(value: String) -> (r: FoundValue)
        ensures
            r@ == value@,
    {
        FoundValue { inner: value }
    }

    /// Removes every occurrence of `target` from the value.
    pub fn remove(&mut self, target: &str) -> (r: &mut Self)
        ensures
            r@ == remove_all(old(self)@, target@, 0),
            *final(self) == *final(r),
    {
        let cs = chars_of(self.inner.as_str());
        let pat = chars_of(target);
        let n: usize = cs.len();
        let m: usize = pat.len();
        let mut out = String::new();
        let mut i: usize = 0;
        while i < n
            invariant
                i <= n,
                n == cs@.len(),
                m == pat@.len(),
                pat@ == target@,
                remove_all(cs@, target@, 0) == out@ + remove_all(cs@, target@, i as int),
            decreases n - i,
        {
            if m > 0 && occurs_at(cs.as_slice(), i, pat.as_slice()) {
                i += m;
            } else {
                push_char(&mut out, cs[i]);
                proof {
                    assert(out@.drop_last() + (seq![cs@[i as int]] + remove_all(
                        cs@,
                        target@,
                        i + 1,
                    )) =~= out@ + remove_all(cs@, target@, i + 1));
                }
                i += 1;
            }
        }
        proof {
            assert(out@ + Seq::<char>::empty() =~= out@);
        }
        self.inner = out;
        self
    }

    /// The value as a string slice.
    pub fn as_str(&self) -> (r: &str)
        ensures
            r@ == self@,
    {
        self.inner.as_str()
    }

    /// The value as a line of text.
    pub fn to_string(&self) -> (r: String)
        ensures
            r@ == self@,
    {
        self.inner.clone()
    }

    /// The items of the value read as a list literal `[item, ...]`, or
    /// nothing where it is none.
    pub fn as_list(&self) -> (r: Option<Vec<String>>)
        ensures
            match r {
                Some(items) => parse_items_spec(self@) == Some(texts(items@)),
                None => parse_items_spec(self@) is None,
            },
    {
        ListType::parse_items(self.inner.as_str())
    }

    /// The fields of the value read as an inline object
    /// `{ k = v, ... }`, or nothing where it is none.
    pub fn as_object(&self) -> (r: Option<Table<String>>)
        ensures
            match r {
                Some(t) => as_object_spec(self@) == Some(t@),
                None => as_object_spec(self@) is None,
            },
    {
        if !is_inline_object(self.inner.as_str()) {
            return None;
        }
        let pairs = match parse_inline_object(self.inner.as_str()) {
            Ok(pairs) => pairs,
            Err(_) => {
                return None;
            },
        };
        let mut table: Table<String> = Table::new();
        let n: usize = pairs.len();
        let mut i: usize = 0;
        while i < n
            invariant
                i <= n,
                n == pairs@.len(),
                bind_all(pair_texts(pairs@), 0, Seq::empty()) == bind_all(
                    pair_texts(pairs@),
                    i as int,
                    table@,
                ),
            decreases n - i,
        {
            table.insert(pairs[i].0.clone(), pairs[i].1.clone());
            i += 1;
        }
        Some(table)
    }

    /// Whether the value is a list literal `[...]`.
    pub fn is_list(&self) -> (r: bool)
        ensures
            r == wrapped_in(trim(self@), '[', ']'),
    {
        let cs = chars_of(self.inner.as_str());
        let (lo, hi) = trim_range(cs.as_slice());
        proof {
            let t = trim(self@);
            if hi > lo {
                assert(t[0] == cs@[lo as int]);
                assert(t.last() == cs@[hi - 1]);
            }
        }
        hi - lo >= 2 && cs[lo] == '[' && cs[hi - 1] == ']'
    }

    /// Whether the value is an inline object literal `{...}`.
    pub fn is_object(&self) -> (r: bool)
        ensures
            r == is_inline_object_spec(self@),
    {
        is_inline_object(self.inner.as_str())
    }
}

impl From<String> for FoundValue {
    fn from(value: String) -> (r: Self) {
        FoundValue { inner: value }
    }
}

impl FromSpecImpl<String> for FoundValue {
    open spec fn obeys_from_spec() -> bool {
        true
    }

    closed spec fn from_spec(v: String) -> Self {
        FoundValue { inner: v }
    }
}

impl PartialEq for FoundValue {
    fn eq(&self, other: &FoundValue) -> (r: bool) {
        str_eq(self.inner.as_str(), other.inner.as_str())
    }
}

impl PartialEqSpecImpl for FoundValue {
    open spec fn obeys_eq_spec() -> bool {
        true
    }

    open spec fn eq_spec(&self, other: &FoundValue) -> bool {
        self@ == other@
    }
}

impl PartialEq<&str> for FoundValue {
    fn eq(&self, other: &&str) -> (r: bool) {
        str_eq(self.inner.as_str(), *other)
    }
}

impl PartialEqSpecImpl<&str> for FoundValue {
    open spec fn obeys_eq_spec() -> bool {
        true
    }

    open spec fn eq_spec(&self, other: &&str) -> bool {
        self@ == other@
    }
}

impl core::ops::Deref for FoundValue {
    type Target = String;

    fn deref(&self) -> (r: &String)
        ensures
            r@ == self@,
    {
        &self.inner
    }
}

} // verus!
