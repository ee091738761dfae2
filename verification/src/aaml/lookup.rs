//! Looking up keys: directly, by value, and along a chain.

use vstd::prelude::*;
use vstd::string::StringExecFns;
use super::AAML;
use crate::commands::schema::holds_text;
use crate::found_value::FoundValue;
use crate::table::{contains, lookup, position};
use crate::text::{str_eq, texts};

verus! {

/// Index of the first entry at or after `i` whose value is `value`;
/// the number of entries where there is none.
pub open spec fn position_of_value(map: Seq<(Seq<char>, Seq<char>)>, value: Seq<char>, i: int) -> int
    decreases map.len() - i,
{
    if i < 0 || i >= map.len() {
        map.len() as int
    } else if map[i].1 == value {
        i
    } else {
        position_of_value(map, value, i + 1)
    }
}

/// The key of the first entry, in the order of insertion, whose value
/// is `value`.
pub open spec fn find_key_spec(map: Seq<(Seq<char>, Seq<char>)>, value: Seq<char>) -> Option<
    Seq<char>,
> {
    let p = position_of_value(map, value, 0);
    if p < map.len() {
        Some(map[p].0)
    } else {
        None
    }
}

/// The value of `key` or, where `key` is no key, the key whose value
/// is `key`.
pub open spec fn find_obj_spec(map: Seq<(Seq<char>, Seq<char>)>, key: Seq<char>) -> Option<
    Seq<char>,
> {
    match lookup(map, key) {
        Some(v) => Some(v),
        None => find_key_spec(map, key),
    }
}

/// How many entries from the `i`-th on have a key that is not in
/// `visited`.
pub open spec fn unvisited(
    map: Seq<(Seq<char>, Seq<char>)>,
    visited: Seq<Seq<char>>,
    i: int,
) -> nat
    decreases map.len() - i,
{
    if i < 0 || i >= map.len() {
        0
    } else {
        unvisited(map, visited, i + 1) + if visited.contains(map[i].0) {
            0nat
        } else {
            1nat
        }
    }
}

/// Visiting one more key leaves no more entries unvisited, and fewer
/// where an entry has that key.
pub proof fn lemma_unvisited_decreases(
    map: Seq<(Seq<char>, Seq<char>)>,
    visited: Seq<Seq<char>>,
    key: Seq<char>,
    i: int,
)
    requires
        0 <= i <= map.len(),
        !visited.contains(key),
    ensures
        unvisited(map, visited.push(key), i) <= unvisited(map, visited, i),
        position(map, key, i) < map.len() ==> unvisited(map, visited.push(key), i) < unvisited(
            map,
            visited,
            i,
        ),
    decreases map.len() - i,
{
    if i < map.len() {
        lemma_unvisited_decreases(map, visited, key, i + 1);
        let seen = visited.push(key);
        if visited.contains(map[i].0) {
            let k = choose|k: int| 0 <= k < visited.len() && visited[k] == map[i].0;
            assert(seen[k] == map[i].0);
        }
        if map[i].0 == key {
            assert(seen[visited.len() as int] == key);
        } else if seen.contains(map[i].0) {
            let k = choose|k: int| 0 <= k < seen.len() && seen[k] == map[i].0;
            assert(visited[k] == map[i].0);
        }
    }
}

/// The end of the chain that starts at `current`: the value of a key
/// is taken as the next key until a key is unknown or was visited, or
/// a value is a key that was visited. `last` is the value reached
/// last.
pub open spec fn chase(
    map: Seq<(Seq<char>, Seq<char>)>,
    current: Seq<char>,
    visited: Seq<Seq<char>>,
    last: Option<Seq<char>>,
) -> Option<Seq<char>>
    decreases unvisited(map, visited, 0),
{
    match lookup(map, current) {
        None => last,
        Some(next) => if visited.contains(current) {
            last
        } else {
            let seen = visited.push(current);
            if seen.contains(next) {
                if last is None {
                    Some(next)
                } else {
                    last
                }
            } else {
                proof {
                    lemma_unvisited_decreases(map, visited, current, 0);
                }
                chase(map, next, seen, Some(next))
            }
        },
    }
}

/// The value at the end of the chain that starts at `key`.
pub open spec fn find_deep_spec(map: Seq<(Seq<char>, Seq<char>)>, key: Seq<char>) -> Option<
    Seq<char>,
> {
    chase(map, key, Seq::empty(), None)
}

/// A chain ends in a value whenever it has reached one before or
/// starts at a key that is known and not visited: a cycle ends the
/// chain, it does not lose the value.
pub proof fn lemma_chase_finds(
    map: Seq<(Seq<char>, Seq<char>)>,
    current: Seq<char>,
    visited: Seq<Seq<char>>,
    last: Option<Seq<char>>,
)
    requires
        last is Some || !visited.contains(current),
    ensures
        chase(map, current, visited, last) is Some <==> (last is Some || contains(map, current)),
    decreases unvisited(map, visited, 0),
{
    match lookup(map, current) {
        None => {},
        Some(next) => {
            if !visited.contains(current) {
                let seen = visited.push(current);
                if !seen.contains(next) {
                    lemma_unvisited_decreases(map, visited, current, 0);
                    lemma_chase_finds(map, next, seen, Some(next));
                }
            }
        },
    }
}

/// The view of an optional found text.
pub open spec fn found(r: Option<FoundValue>) -> Option<Seq<char>> {
    match r {
        Some(v) => Some(v@),
        None => None,
    }
}

impl AAML {
    /// Looks up `key`. Where it is no key, looks for the entry whose
    /// value is `key` and returns that entry's key.
    pub fn find_obj(&self, key: &str) -> (r: Option<FoundValue>)
        ensures
            found(r) == find_obj_spec(self@.map, key@),
    {
        match self.map.get(key) {
            Some(v) => Some(FoundValue::new(v.as_str())),
            None => self.find_key(key),
        }
    }

    /// Finds the key of the first entry, in the order of insertion,
    /// whose value is `value`.
    pub fn find_key(&self, value: &str) -> (r: Option<FoundValue>)
        ensures
            found(r) == find_key_spec(self@.map, value@),
    {
        let n: usize = self.map.len();
        let mut i: usize = 0;
        while i < n
            invariant
                i <= n,
                n == self@.map.len(),
                position_of_value(self@.map, value@, 0) == position_of_value(
                    self@.map,
                    value@,
                    i as int,
                ),
            decreases n - i,
        {
            if str_eq(self.map.value_at(i).as_str(), value) {
                return Some(FoundValue::new(self.map.key_at(i).as_str()));
            }
            i += 1;
        }
        None
    }

    /// Follows the chain key, value, value of that value, and so on,
    /// and returns the last value reached. A cycle ends the chain.
    pub fn find_deep(&self, key: &str) -> (r: Option<FoundValue>)
        ensures
            found(r) == find_deep_spec(self@.map, key@),
            r is Some <==> contains(self@.map, key@),
    {
        let mut current: String = String::from_str(key);
        let mut last: Option<String> = None;
        let mut visited: Vec<String> = Vec::new();
        proof {
            assert(texts(visited@) =~= Seq::<Seq<char>>::empty());
            lemma_chase_finds(self@.map, key@, Seq::empty(), None);
        }
        loop
            invariant
                find_deep_spec(self@.map, key@) == chase(
                    self@.map,
                    current@,
                    texts(visited@),
                    match last {
                        Some(v) => Some(v@),
                        None => None,
                    },
                ),
                find_deep_spec(self@.map, key@) is Some <==> contains(self@.map, key@),
            decreases unvisited(self@.map, texts(visited@), 0),
        {
            let next = match self.map.get(current.as_str()) {
                Some(v) => v,
                None => {
                    return match last {
                        Some(v) => Some(FoundValue::from_string(v)),
                        None => None,
                    };
                },
            };
            if holds_text(&visited, current.as_str()) {
                return match last {
                    Some(v) => Some(FoundValue::from_string(v)),
                    None => None,
                };
            }
            proof {
                assert(texts(visited@.push(current)) =~= texts(visited@).push(current@));
                lemma_unvisited_decreases(self@.map, texts(visited@), current@, 0);
            }
            visited.push(current);
            if holds_text(&visited, next.as_str()) {
                return match last {
                    Some(v) => Some(FoundValue::from_string(v)),
                    None => Some(FoundValue::new(next.as_str())),
                };
            }
            last = Some(next.clone());
            current = next.clone();
        }
    }
}

} // verus!
