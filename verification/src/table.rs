//! A map from text keys to values that remembers the order in which
//! its keys were first inserted.

use vstd::prelude::*;
use vstd::pervasive::VecAdditionalExecFns;
use crate::text::str_eq;

verus! {

/// Index of the first entry at or after `i` whose key is `key`; the
/// number of entries where there is none.
pub open spec fn position<T>(e: Seq<(Seq<char>, T)>, key: Seq<char>, i: int) -> int
    decreases e.len() - i,
{
    if i < 0 || i >= e.len() {
        e.len() as int
    } else if e[i].0 == key {
        i
    } else {
        position(e, key, i + 1)
    }
}

/// Whether some entry has the key `key`.
pub open spec fn contains<T>(e: Seq<(Seq<char>, T)>, key: Seq<char>) -> bool {
    position(e, key, 0) < e.len()
}

/// The value of the first entry with the key `key`.
pub open spec fn lookup<T>(e: Seq<(Seq<char>, T)>, key: Seq<char>) -> Option<T> {
    if contains(e, key) {
        Some(e[position(e, key, 0)].1)
    } else {
        None
    }
}

/// `e` with `key` bound to `value`: in place where the key is present,
/// at the end where it is not.
pub open spec fn put<T>(e: Seq<(Seq<char>, T)>, key: Seq<char>, value: T) -> Seq<(Seq<char>, T)> {
    if contains(e, key) {
        e.update(position(e, key, 0), (key, value))
    } else {
        e.push((key, value))
    }
}

/// `e` with `key` bound to `value` only if the key is not present yet.
pub open spec fn put_absent<T>(e: Seq<(Seq<char>, T)>, key: Seq<char>, value: T) -> Seq<
    (Seq<char>, T),
> {
    if contains(e, key) {
        e
    } else {
        e.push((key, value))
    }
}

/// `e` without its first entry for `key`.
pub open spec fn without<T>(e: Seq<(Seq<char>, T)>, key: Seq<char>) -> Seq<(Seq<char>, T)> {
    if contains(e, key) {
        e.remove(position(e, key, 0))
    } else {
        e
    }
}

/// No key occurs twice.
pub open spec fn distinct_keys<T>(e: Seq<(Seq<char>, T)>) -> bool {
    forall|i: int, j: int| 0 <= i < j < e.len() ==> (#[trigger] e[i]).0 != (#[trigger] e[j]).0
}

/// The position of a key lies within bounds, holds the key where it is an
/// index, and no index before it holds the key.
pub proof fn lemma_position<T>(e: Seq<(Seq<char>, T)>, key: Seq<char>, i: int)
    requires
        0 <= i <= e.len(),
    ensures
        i <= position(e, key, i) <= e.len(),
        position(e, key, i) < e.len() ==> e[position(e, key, i)].0 == key,
        forall|j: int| i <= j < position(e, key, i) ==> (#[trigger] e[j]).0 != key,
    decreases e.len() - i,
{
    if i < e.len() && e[i].0 != key {
        lemma_position(e, key, i + 1);
    }
}

/// The position of a key is the only index that holds the key and has
/// no entry with that key before it.
pub proof fn lemma_position_is<T>(e: Seq<(Seq<char>, T)>, key: Seq<char>, p: int)
    requires
        0 <= p <= e.len(),
        p < e.len() ==> e[p].0 == key,
        forall|j: int| 0 <= j < p ==> (#[trigger] e[j]).0 != key,
    ensures
        position(e, key, 0) == p,
{
    lemma_position(e, key, 0);
    let q = position(e, key, 0);
    if q < p {
        assert(e[q].0 != key);
    }
}

/// After `put`, the key is bound to the value, every other key is
/// bound as before, and keys stay distinct.
pub proof fn lemma_put<T>(e: Seq<(Seq<char>, T)>, key: Seq<char>, value: T, other: Seq<char>)
    ensures
        lookup(put(e, key, value), key) == Some(value),
        other != key ==> lookup(put(e, key, value), other) == lookup(e, other),
        distinct_keys(e) ==> distinct_keys(put(e, key, value)),
{
    let r = put(e, key, value);
    let p = position(e, key, 0);
    lemma_position(e, key, 0);
    assert(r[p] == (key, value));
    assert forall|j: int| 0 <= j < p implies (#[trigger] r[j]).0 != key by {
        assert(r[j] == e[j]);
    }
    lemma_position_is(r, key, p);
    if other != key {
        let q = position(e, other, 0);
        lemma_position(e, other, 0);
        if q < e.len() {
            assert(r[q] == e[q]);
            assert forall|j: int| 0 <= j < q implies (#[trigger] r[j]).0 != other by {
                if j != p {
                    assert(r[j] == e[j]);
                }
            }
            lemma_position_is(r, other, q);
        } else {
            assert forall|j: int| 0 <= j < r.len() implies (#[trigger] r[j]).0 != other by {
                if j != p {
                    assert(r[j] == e[j]);
                }
            }
            lemma_position_is(r, other, r.len() as int);
        }
    }
    if distinct_keys(e) {
        assert forall|i: int, j: int| 0 <= i < j < r.len() implies (#[trigger] r[i]).0 != (
        #[trigger] r[j]).0 by {
            if p < e.len() {
                if i != p {
                    assert(r[i] == e[i]);
                }
                if j != p {
                    assert(r[j] == e[j]);
                }
                assert(e[i].0 != e[j].0);
            } else {
                if j < e.len() {
                    assert(e[i].0 != e[j].0);
                } else {
                    assert(e[i].0 != key);
                }
            }
        }
    }
}

/// After `put_absent`, a key that was bound is bound as before, and
/// the new key is bound to the value if it was not bound.
pub proof fn lemma_put_absent<T>(
    e: Seq<(Seq<char>, T)>,
    key: Seq<char>,
    value: T,
    other: Seq<char>,
)
    ensures
        contains(e, other) ==> lookup(put_absent(e, key, value), other) == lookup(e, other),
        !contains(e, key) ==> lookup(put_absent(e, key, value), key) == Some(value),
        !contains(e, other) && other != key ==> !contains(put_absent(e, key, value), other),
        distinct_keys(e) ==> distinct_keys(put_absent(e, key, value)),
{
    let r = put_absent(e, key, value);
    lemma_position(e, key, 0);
    lemma_position(e, other, 0);
    if !contains(e, key) {
        assert forall|j: int| 0 <= j < e.len() implies (#[trigger] r[j]).0 != key by {
            assert(r[j] == e[j]);
        }
        lemma_position_is(r, key, e.len() as int);
        let q = position(e, other, 0);
        if q < e.len() {
            assert forall|j: int| 0 <= j < q implies (#[trigger] r[j]).0 != other by {
                assert(r[j] == e[j]);
            }
            assert(r[q] == e[q]);
            lemma_position_is(r, other, q);
        } else if other != key {
            assert forall|j: int| 0 <= j < r.len() implies (#[trigger] r[j]).0 != other by {
                if j < e.len() {
                    assert(r[j] == e[j]);
                }
            }
            lemma_position_is(r, other, r.len() as int);
        }
        if distinct_keys(e) {
            assert forall|i: int, j: int| 0 <= i < j < r.len() implies (#[trigger] r[i]).0 != (
            #[trigger] r[j]).0 by {
                if j < e.len() {
                    assert(e[i].0 != e[j].0);
                } else {
                    assert(e[i].0 != key);
                }
            }
        }
    }
}

/// In a sequence with distinct keys, the key of an entry does not
/// occur before the entry.
pub proof fn lemma_fresh_key<T>(e: Seq<(Seq<char>, T)>, i: int)
    requires
        distinct_keys(e),
        0 <= i < e.len(),
    ensures
        !contains(e.take(i), e[i].0),
{
    let t = e.take(i);
    assert forall|j: int| 0 <= j < t.len() implies (#[trigger] t[j]).0 != e[i].0 by {
        assert(t[j] == e[j]);
        assert(e[j].0 != e[i].0);
    }
    lemma_position_is(t, e[i].0, t.len() as int);
}

/// Removing a key keeps the other keys distinct.
pub proof fn lemma_without_distinct<T>(e: Seq<(Seq<char>, T)>, key: Seq<char>)
    requires
        distinct_keys(e),
    ensures
        distinct_keys(without(e, key)),
{
    let r = without(e, key);
    let p = position(e, key, 0);
    lemma_position(e, key, 0);
    if p < e.len() {
        assert forall|i: int, j: int| 0 <= i < j < r.len() implies (#[trigger] r[i]).0 != (
        #[trigger] r[j]).0 by {
            let a = if i < p {
                i
            } else {
                i + 1
            };
            let b = if j < p {
                j
            } else {
                j + 1
            };
            assert(r[i] == e[a]);
            assert(r[j] == e[b]);
            assert(e[a].0 != e[b].0);
        }
    }
}

/// Removing a key that is present leaves one entry less.
pub proof fn lemma_without_shorter<T>(e: Seq<(Seq<char>, T)>, key: Seq<char>)
    ensures
        contains(e, key) ==> without(e, key).len() + 1 == e.len(),
        !contains(e, key) ==> without(e, key) == e,
{
    lemma_position(e, key, 0);
}

/// The value of the last entry with the key `key`.
pub open spec fn lookup_last<T>(e: Seq<(Seq<char>, T)>, key: Seq<char>) -> Option<T>
    decreases e.len(),
{
    if e.len() == 0 {
        None
    } else if e.last().0 == key {
        Some(e.last().1)
    } else {
        lookup_last(e.drop_last(), key)
    }
}

/// A value found by `lookup_last` is the value of some entry.
pub proof fn lemma_lookup_last_member<T>(e: Seq<(Seq<char>, T)>, key: Seq<char>)
    ensures
        lookup_last(e, key) matches Some(v) ==> exists|k: int|
            0 <= k < e.len() && (#[trigger] e[k]).1 == v,
    decreases e.len(),
{
    if e.len() > 0 {
        if e.last().0 == key {
            assert(e[e.len() - 1].1 == e.last().1);
        } else {
            lemma_lookup_last_member(e.drop_last(), key);
            if let Some(v) = lookup_last(e.drop_last(), key) {
                let k = choose|k: int|
                    0 <= k < e.drop_last().len() && (#[trigger] e.drop_last()[k]).1 == v;
                assert(e[k] == e.drop_last()[k]);
            }
        }
    }
}

/// An insertion-ordered map from text keys to values.
///
/// A key is bound at most once: inserting under a key that is present
/// replaces its value where it stands.
#[derive(Debug)]
pub struct Table<V: View> {
    entries: Vec<(String, V)>,
}

impl<V: View> View for Table<V> {
    type V = Seq<(Seq<char>, V::V)>;

    closed spec fn view(&self) -> Seq<(Seq<char>, V::V)> {
        self.entries@.map_values(|e: (String, V)| (e.0@, e.1@))
    }
}

impl<V: View> Table<V> {
    /// What every table keeps: no key is bound twice.
    #[verifier::type_invariant]
    closed spec fn unique(&self) -> bool {
        distinct_keys(self@)
    }

    /// Hands out the entries and leaves the table empty.
    fn take_entries(&mut self) -> (r: Vec<(String, V)>)
        ensures
            r == old(self).entries,
            final(self).entries@.len() == 0,
    {
        let mut entries: Vec<(String, V)> = Vec::new();
        proof {
            assert(entries@.map_values(|e: (String, V)| (e.0@, e.1@)) =~= Seq::<
                (Seq<char>, V::V),
            >::empty());
        }
        core::mem::swap(&mut self.entries, &mut entries);
        entries
    }

    /// An empty table.
    pub fn new() -> (r: Self)
        ensures
            r@ == Seq::<(Seq<char>, V::V)>::empty(),
    {
        let r = Table { entries: Vec::new() };
        proof {
            assert(r@ =~= Seq::<(Seq<char>, V::V)>::empty());
        }
        r
    }

    /// The number of keys. No key is bound twice, so this is also the
    /// number of entries.
    pub fn len(&self) -> (r: usize)
        ensures
            r == self@.len(),
            distinct_keys(self@),
    {
        proof {
            use_type_invariant(self);
        }
        self.entries.len()
    }

    /// Whether the table holds no key.
    pub fn is_empty(&self) -> (r: bool)
        ensures
            r == (self@.len() == 0),
    {
        self.entries.len() == 0
    }

    /// The key of the entry at `i`.
    pub fn key_at(&self, i: usize) -> (r: &String)
        requires
            i < self@.len(),
        ensures
            r@ == self@[i as int].0,
    {
        &self.entries[i].0
    }

    /// The value of the entry at `i`.
    pub fn value_at(&self, i: usize) -> (r: &V)
        requires
            i < self@.len(),
        ensures
            r@ == self@[i as int].1,
    {
        &self.entries[i].1
    }

    /// Index of the entry for `key`, or the number of entries.
    pub fn index_of(&self, key: &str) -> (r: usize)
        ensures
            r == position(self@, key@, 0),
            r <= self@.len(),
    {
        let n: usize = self.entries.len();
        let mut i: usize = 0;
        while i < n
            invariant
                i <= n,
                n == self@.len(),
                n == self.entries@.len(),
                position(self@, key@, 0) == position(self@, key@, i as int),
            decreases n - i,
        {
            if str_eq(self.entries[i].0.as_str(), key) {
                return i;
            }
            i += 1;
        }
        n
    }

    /// Whether `key` is bound.
    pub fn contains_key(&self, key: &str) -> (r: bool)
        ensures
            r == contains(self@, key@),
    {
        self.index_of(key) < self.entries.len()
    }

    /// The value bound to `key`.
    pub fn get(&self, key: &str) -> (r: Option<&V>)
        ensures
            match r {
                Some(v) => lookup(self@, key@) == Some(v@),
                None => lookup(self@, key@) is None,
            },
    {
        let i = self.index_of(key);
        if i < self.entries.len() {
            Some(&self.entries[i].1)
        } else {
            None
        }
    }

    /// Appends an entry without looking for its key.
    pub(crate) fn push_entry(&mut self, key: String, value: V)
        requires
            !contains(old(self)@, key@),
        ensures
            final(self)@ == old(self)@.push((key@, value@)),
    {
        proof {
            use_type_invariant(&*self);
            lemma_put(self@, key@, value@, key@);
            assert(self@.push((key@, value@)) =~= put(self@, key@, value@));
            assert(self.entries@.push((key, value)).map_values(|e: (String, V)| (e.0@, e.1@))
                =~= self@.push((key@, value@)));
        }
        let mut entries = self.take_entries();
        entries.push((key, value));
        self.entries = entries;
    }

    /// Binds `key` to `value`, replacing the value it had.
    pub fn insert(&mut self, key: String, value: V)
        ensures
            final(self)@ == put(old(self)@, key@, value@),
    {
        let i = self.index_of(key.as_str());
        proof {
            use_type_invariant(&*self);
            lemma_put(self@, key@, value@, key@);
        }
        if i < self.entries.len() {
            proof {
                assert(self.entries@.update(i as int, (key, value)).map_values(
                    |e: (String, V)| (e.0@, e.1@),
                ) =~= put(self@, key@, value@));
            }
            let mut entries = self.take_entries();
            entries.set(i, (key, value));
            self.entries = entries;
        } else {
            proof {
                assert(self.entries@.push((key, value)).map_values(|e: (String, V)| (e.0@, e.1@))
                    =~= put(self@, key@, value@));
            }
            let mut entries = self.take_entries();
            entries.push((key, value));
            self.entries = entries;
        }
    }

    /// Binds `key` to `value` unless the key is bound already.
    pub fn insert_absent(&mut self, key: String, value: V)
        ensures
            final(self)@ == put_absent(old(self)@, key@, value@),
    {
        let i = self.index_of(key.as_str());
        proof {
            use_type_invariant(&*self);
            lemma_put_absent(self@, key@, value@, key@);
        }
        if i >= self.entries.len() {
            proof {
                assert(self.entries@.push((key, value)).map_values(|e: (String, V)| (e.0@, e.1@))
                    =~= put_absent(self@, key@, value@));
            }
            let mut entries = self.take_entries();
            entries.push((key, value));
            self.entries = entries;
        }
    }

    /// Removes the binding of `key`, if there is one.
    pub fn remove(&mut self, key: &str)
        ensures
            final(self)@ == without(old(self)@, key@),
    {
        let i = self.index_of(key);
        proof {
            use_type_invariant(&*self);
            lemma_without_distinct(self@, key@);
        }
        if i < self.entries.len() {
            proof {
                assert(self.entries@.remove(i as int).map_values(|e: (String, V)| (e.0@, e.1@))
                    =~= without(self@, key@));
            }
            let mut entries = self.take_entries();
            let _ = entries.remove(i);
            self.entries = entries;
        }
    }
}

impl Table<String> {
    /// A copy of the table.
    pub fn duplicate(&self) -> (r: Self)
        ensures
            r@ == self@,
    {
        let n: usize = self.entries.len();
        let mut out: Table<String> = Table::new();
        let mut i: usize = 0;
        proof {
            use_type_invariant(self);
        }
        while i < n
            invariant
                i <= n,
                n == self@.len(),
                n == self.entries@.len(),
                distinct_keys(self@),
                out@ == self@.take(i as int),
            decreases n - i,
        {
            proof {
                lemma_fresh_key(self@, i as int);
            }
            out.push_entry(self.entries[i].0.clone(), self.entries[i].1.clone());
            proof {
                assert(out@ =~= self@.take(i + 1));
            }
            i += 1;
        }
        proof {
            assert(self@.take(n as int) =~= self@);
        }
        out
    }

    /// A copy of the table without the binding of `key`.
    pub fn duplicate_without(&self, key: &str) -> (r: Self)
        ensures
            r@ == without(self@, key@),
    {
        let mut out = self.duplicate();
        out.remove(key);
        out
    }
}

impl Clone for Table<String> {
    fn clone(&self) -> (r: Self)
        ensures
            r@ == self@,
    {
        self.duplicate()
    }
}

} // verus!
