//! The `@derive` directive: `@derive path[::Schema[::Schema…]]`.
//!
//! The base document is read on its own. Its schemas (all of them, or
//! the selected ones) and all its keys are taken over where the
//! deriving document has none of that name: the child wins.

use vstd::prelude::*;
use vstd::string::StringExecFns;
use vstd::string::StrSliceExecFns;
use crate::aaml::AAML;
use crate::aaml::merge::derive_spec;
use crate::error::{AamlError, outcome};
use crate::table::{Table, lemma_without_shorter};
use crate::text::{chars_of, find_char, index_of_char, slices, trim, trim_range, trim_str};
use crate::types::list::push_item;

verus! {

/// Whether `::` stands at `i`.
pub open spec fn colons_at(s: Seq<char>, i: int) -> bool {
    0 <= i && i + 1 < s.len() && s[i] == ':' && s[i + 1] == ':'
}

/// Index of the first `::` at or after `i`; the length of `s` where
/// there is none.
pub open spec fn find_colons(s: Seq<char>, i: int) -> int
    decreases s.len() - i,
{
    if i < 0 || i >= s.len() {
        s.len() as int
    } else if colons_at(s, i) {
        i
    } else {
        find_colons(s, i + 1)
    }
}

/// The trimmed, non-empty pieces of `s` between occurrences of `::`,
/// scanning from `i`, where the open piece began at `start`.
pub open spec fn selectors_from(s: Seq<char>, i: int, start: int, acc: Seq<Seq<char>>) -> Seq<
    Seq<char>,
>
    decreases s.len() - i,
{
    if i < 0 || i >= s.len() {
        push_item(acc, s.subrange(start, s.len() as int))
    } else if colons_at(s, i) {
        selectors_from(s, i + 2, i + 2, push_item(acc, s.subrange(start, i)))
    } else {
        selectors_from(s, i + 1, start, acc)
    }
}

/// The schema names in the tail of a `@derive` argument.
pub open spec fn selectors_of(rest: Seq<char>) -> Seq<Seq<char>> {
    selectors_from(rest, 0, 0, Seq::empty())
}

/// `s` without the `:` characters at its front.
pub open spec fn skip_colons(s: Seq<char>) -> Seq<char>
    decreases s.len(),
{
    if s.len() > 0 && s[0] == ':' {
        skip_colons(s.drop_first())
    } else {
        s
    }
}

/// What a `@derive` argument names: a file and the schemas to take.
pub struct DeriveArg {
    pub path: Seq<char>,
    pub selectors: Seq<Seq<char>>,
}

/// The raw path and the selector tail of a `@derive` argument. A path
/// in quotes ends at the closing quote; a bare path ends at the first
/// `::`.
pub open spec fn derive_parts(raw: Seq<char>) -> (Seq<char>, Seq<char>) {
    if raw.len() > 0 && (raw[0] == '"' || raw[0] == '\'') {
        let close = find_char(raw, raw[0], 1);
        if close < raw.len() {
            (raw.subrange(1, close), trim(skip_colons(raw.skip(close + 1))))
        } else {
            (raw, Seq::empty())
        }
    } else {
        let at = find_colons(raw, 0);
        if at < raw.len() {
            (raw.take(at), raw.skip(at + 2))
        } else {
            (raw, Seq::empty())
        }
    }
}

/// The file and the selectors that a `@derive` argument names.
pub open spec fn parse_derive_arg_spec(raw: Seq<char>) -> DeriveArg {
    let (path, rest) = derive_parts(raw);
    DeriveArg { path: trim(path), selectors: selectors_of(rest) }
}

/// Finds the first `::` at or after `from`.
pub fn index_of_colons(cs: &[char], from: usize) -> (r: usize)
    requires
        from <= cs@.len(),
    ensures
        r == find_colons(cs@, from as int),
        from <= r <= cs@.len(),
        r < cs@.len() ==> r + 2 <= cs@.len(),
{
    let n: usize = cs.len();
    let mut i: usize = from;
    while i < n
        invariant
            from <= i <= n,
            n == cs@.len(),
            find_colons(cs@, from as int) == find_colons(cs@, i as int),
        decreases n - i,
    {
        if cs[i] == ':' && i + 1 < n && cs[i + 1] == ':' {
            return i;
        }
        i += 1;
    }
    n
}

/// Appends the part of `rest` from `from` to `to`, trimmed, to `items`
/// unless it is empty.
fn push_selector<'a>(
    items: &mut Vec<&'a str>,
    rest: &'a str,
    cs: &Vec<char>,
    from: usize,
    to: usize,
)
    requires
        cs@ == rest@,
        from <= to <= cs@.len(),
    ensures
        slices(final(items)@) == push_item(
            slices(old(items)@),
            rest@.subrange(from as int, to as int),
        ),
{
    let piece = vstd::slice::slice_subrange(cs.as_slice(), from, to);
    let (lo, hi) = trim_range(piece);
    if hi > lo {
        let item = rest.substring_char(from + lo, from + hi);
        proof {
            assert(item@ =~= piece@.subrange(lo as int, hi as int));
            assert(slices(items@.push(item)) =~= slices(items@).push(item@));
        }
        items.push(item);
    }
}

/// Splits the selector tail at every `::`.
pub fn split_selectors<'a>(rest: &'a str) -> (r: Vec<&'a str>)
    ensures
        slices(r@) == selectors_of(rest@),
{
    let cs = chars_of(rest);
    let n: usize = cs.len();
    let mut items: Vec<&'a str> = Vec::new();
    let mut start: usize = 0;
    let mut i: usize = 0;
    proof {
        assert(slices(items@) =~= Seq::empty());
    }
    while i < n
        invariant
            start <= i <= n,
            n == cs@.len(),
            cs@ == rest@,
            selectors_of(rest@) == selectors_from(rest@, i as int, start as int, slices(items@)),
        decreases n - i,
    {
        if cs[i] == ':' && i + 1 < n && cs[i + 1] == ':' {
            push_selector(&mut items, rest, &cs, start, i);
            start = i + 2;
            i += 2;
        } else {
            i += 1;
        }
    }
    push_selector(&mut items, rest, &cs, start, n);
    items
}

/// Splits a `@derive` argument into the file path and the schema
/// selectors.
///
/// - `base.aam` names the file alone;
/// - `base.aam::Foo::Bar` selects the schemas `Foo` and `Bar`;
/// - `"base.aam"::Foo` does so with the path in quotes.
pub fn parse_derive_arg<'a>(raw: &'a str) -> (r: (&'a str, Vec<&'a str>))
    ensures
        r.0@ == parse_derive_arg_spec(raw@).path,
        slices(r.1@) == parse_derive_arg_spec(raw@).selectors,
{
    let cs = chars_of(raw);
    let n: usize = cs.len();
    if n > 0 && (cs[0] == '"' || cs[0] == '\'') {
        let close = index_of_char(cs.as_slice(), cs[0], 1);
        if close < n {
            let path = raw.substring_char(1, close);
            proof {
                assert(raw@.subrange(close + 1, n as int) =~= raw@.skip(close + 1));
            }
            let tail = raw.substring_char(close + 1, n);
            let ts = chars_of(tail);
            let m: usize = ts.len();
            let mut k: usize = 0;
            proof {
                assert(tail@.skip(0) =~= tail@);
            }
            while k < m && ts[k] == ':'
                invariant
                    k <= m,
                    m == ts@.len(),
                    ts@ == tail@,
                    skip_colons(tail@) == skip_colons(tail@.skip(k as int)),
                decreases m - k,
            {
                proof {
                    assert(tail@.skip(k as int).drop_first() =~= tail@.skip(k + 1));
                }
                k += 1;
            }
            proof {
                assert(tail@.skip(0) =~= tail@);
                assert(tail@.subrange(k as int, m as int) =~= tail@.skip(k as int));
            }
            let rest = trim_str(tail.substring_char(k, m));
            (trim_str(path), split_selectors(rest))
        } else {
            proof {
                assert(selectors_of(Seq::<char>::empty()) =~= Seq::<Seq<char>>::empty()) by {
                    crate::text::lemma_trim_shape(Seq::<char>::empty());
                    assert(Seq::<char>::empty().subrange(0, 0) =~= Seq::<char>::empty());
                }
            }
            (trim_str(raw), Vec::new())
        }
    } else {
        let at = index_of_colons(cs.as_slice(), 0);
        if at < n {
            proof {
                assert(raw@.subrange(0, at as int) =~= raw@.take(at as int));
                assert(raw@.subrange(at + 2, n as int) =~= raw@.skip(at + 2));
            }
            (
                trim_str(raw.substring_char(0, at)),
                split_selectors(raw.substring_char(at + 2, n)),
            )
        } else {
            proof {
                assert(selectors_of(Seq::<char>::empty()) =~= Seq::<Seq<char>>::empty()) by {
                    crate::text::lemma_trim_shape(Seq::<char>::empty());
                    assert(Seq::<char>::empty().subrange(0, 0) =~= Seq::<char>::empty());
                }
            }
            (trim_str(raw), Vec::new())
        }
    }
}

/// Handler of the `@derive` directive.
#[derive(Clone, Copy, Debug, PartialEq, Eq, Structural)]
pub struct DeriveCommand;

impl DeriveCommand {
    /// The directive's name.
    pub fn name(&self) -> (r: &'static str)
        ensures
            r@ == "derive"@,
    {
        "derive"
    }

    /// Reads the base file that `args` names into a document of its
    /// own and lets `aaml` inherit from it.
    ///
    /// Fails where the path is missing, the file cannot be read or
    /// holds an error, a selected schema is not in the base, or a
    /// schema that `aaml` had before lacks a required field after the
    /// merge.
    pub fn execute(&self, aaml: &mut AAML, args: &str, files: &Table<String>) -> (r: Result<
        (),
        AamlError,
    >)
        ensures
            final(aaml)@ == derive_spec(old(aaml)@, args@, files@).doc,
            outcome(r) == derive_spec(old(aaml)@, args@, files@).result,
        decreases files@.len(), 0nat, 0nat,
    {
        let raw = trim_str(args);
        if raw.unicode_len() == 0 {
            return Err(
                AamlError::DirectiveError(
                    String::from_str("derive"),
                    String::from_str("Missing file path"),
                ),
            );
        }
        let (path, selectors) = parse_derive_arg(raw);
        let text = match files.get(path) {
            Some(text) => text,
            None => {
                return Err(AamlError::IoError(String::from_str(path)));
            },
        };
        let rest = files.duplicate_without(path);
        proof {
            lemma_without_shorter(files@, path@);
        }
        let mut base = AAML::new();
        match base.merge_with(text.as_str(), &rest) {
            Ok(_) => {},
            Err(e) => {
                return Err(e);
            },
        }
        aaml.inherit(&base, selectors.as_slice(), path)
    }
}

} // verus!
