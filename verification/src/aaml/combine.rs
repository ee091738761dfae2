//! Joining two documents with `+` and `+=`.

use vstd::prelude::*;
use vstd::std_specs::ops::AddSpecImpl;
use super::{AAML, DocModel};
use crate::table::put;

verus! {

/// `into` with every entry of `from[i..]` bound, in the order of
/// `from`; a key that `into` holds gets the value from `from`.
pub open spec fn overwrite<T>(into: Seq<(Seq<char>, T)>, from: Seq<(Seq<char>, T)>, i: int) -> Seq<
    (Seq<char>, T),
>
    decreases from.len() - i,
{
    if i < 0 || i >= from.len() {
        into
    } else {
        overwrite(put(into, from[i].0, from[i].1), from, i + 1)
    }
}

/// The sum of two documents: the keys and the types of both, with
/// those of `rhs` in place of those of `lhs` where both have one. The
/// schemas and the directives are those of `lhs`.
pub open spec fn sum_spec(lhs: DocModel, rhs: DocModel) -> DocModel {
    lhs.with_map(overwrite(lhs.map, rhs.map, 0)).with_types(overwrite(lhs.types, rhs.types, 0))
}

impl AAML {
    /// Takes over every key and every type of `rhs`, in place of what
    /// this document holds under the same name.
    pub fn extend_from(&mut self, rhs: &AAML)
        ensures
            final(self)@ == sum_spec(old(self)@, rhs@),
    {
        let n: usize = rhs.map.len();
        let mut i: usize = 0;
        while i < n
            invariant
                i <= n,
                n == rhs@.map.len(),
                self@ == old(self)@.with_map(self@.map),
                overwrite(old(self)@.map, rhs@.map, 0) == overwrite(self@.map, rhs@.map, i as int),
            decreases n - i,
        {
            self.map.insert(rhs.map.key_at(i).clone(), rhs.map.value_at(i).clone());
            i += 1;
        }
        let m: usize = rhs.types.len();
        let mut j: usize = 0;
        while j < m
            invariant
                j <= m,
                m == rhs@.types.len(),
                self@ == old(self)@.with_map(overwrite(old(self)@.map, rhs@.map, 0)).with_types(
                    self@.types,
                ),
                overwrite(old(self)@.types, rhs@.types, 0) == overwrite(
                    self@.types,
                    rhs@.types,
                    j as int,
                ),
            decreases m - j,
        {
            self.types.insert(rhs.types.key_at(j).clone(), rhs.types.value_at(j).duplicate());
            j += 1;
        }
    }
}

impl core::ops::Add for AAML {
    type Output = AAML;

    /// The sum of two documents.
    fn add(self, rhs: AAML) -> (r: AAML)
        ensures
            r@ == sum_spec(self@, rhs@),
    {
        let mut out = self;
        out.extend_from(&rhs);
        out
    }
}

/// `+` is specified through the view of its result, by the contract
/// of `add`; no document is singled out as the sum in specifications.
impl AddSpecImpl for AAML {
    open spec fn obeys_add_spec() -> bool {
        false
    }

    open spec fn add_req(self, rhs: AAML) -> bool {
        true
    }

    open spec fn add_spec(self, rhs: AAML) -> AAML {
        self
    }
}

impl core::ops::AddAssign for AAML {
    /// Adds `rhs` to this document.
    fn add_assign(&mut self, rhs: AAML)
        ensures
            final(self)@ == sum_spec(old(self)@, rhs@),
    {
        self.extend_from(&rhs);
    }
}

impl Default for AAML {
    fn default() -> (r: AAML)
        ensures
            r@ == DocModel::empty(),
    {
        AAML::new()
    }
}

} // verus!
