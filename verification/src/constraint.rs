//! Pairwise bounds and how many of them a vector of values keeps.

use vstd::prelude::*;

use crate::text;
use crate::text::push_decimal;
use crate::text::push_signed_decimal;

verus! {

/// A pairwise constraint: |values[a] - values[b]| <= max_diff.
#[derive(Debug, PartialEq, Eq, Structural)]
pub struct Constraint {
    pub index_a: usize,
    pub index_b: usize,
    pub max_diff: i64,
}

/// The distance between two integers.
pub open spec fn distance(x: int, y: int) -> int {
    if x >= y {
        x - y
    } else {
        y - x
    }
}

impl Constraint {
    /// Both indices lie within a vector of `len` values.
    pub open spec fn fits(self, len: nat) -> bool {
        self.index_a < len && self.index_b < len
    }

    /// Both indices exist in `values` and the bound between them is kept.
    pub open spec fn holds(self, values: Seq<i64>) -> bool {
        &&& self.fits(values.len())
        &&& distance(
            values[self.index_a as int] as int,
            values[self.index_b as int] as int,
        ) <= self.max_diff
    }

    /// The display form, such as `|v[0] - v[2]| <= 10`.
    pub open spec fn display(self) -> Seq<char> {
        "|v["@ + text::decimal(self.index_a as nat) + "] - v["@ + text::decimal(
            self.index_b as nat,
        ) + "]| <= "@ + text::signed_decimal(self.max_diff as int)
    }

    /// Check whether this constraint is satisfied by `values`.
    ///
    /// A constraint on an index that `values` does not have is not satisfied.
    pub fn satisfied_by(&self, values: &[i64]) -> (satisfied: bool)
        ensures
            satisfied == self.holds(values@),
            satisfied <==> {
                &&& self.index_a < values.len()
                &&& self.index_b < values.len()
                &&& values@[self.index_a as int] - values@[self.index_b as int] <= self.max_diff
                &&& values@[self.index_b as int] - values@[self.index_a as int] <= self.max_diff
            },
    {
        if self.index_a >= values.len() || self.index_b >= values.len() {
            return false;
        }
        let gap: i128 = values[self.index_a] as i128 - values[self.index_b] as i128;
        let distance: i128 = if gap >= 0 {
            gap
        } else {
            -gap
        };
        distance <= self.max_diff as i128
    }

    /// The constraint as text: `|v[a] - v[b]| <= max_diff`.
    pub fn to_string(&self) -> (text: String)
        ensures
            text@ == self.display(),
            text@ == "|v["@ + text::decimal(self.index_a as nat) + "] - v["@ + text::decimal(
                self.index_b as nat,
            ) + "]| <= "@ + text::signed_decimal(self.max_diff as int),
    {
        let mut out = String::new();
        out.append("|v[");
        push_decimal(&mut out, self.index_a as u64);
        out.append("] - v[");
        push_decimal(&mut out, self.index_b as u64);
        out.append("]| <= ");
        push_signed_decimal(&mut out, self.max_diff);
        out
    }
}

impl Clone for Constraint {
    fn clone(&self) -> (copy: Self)
        ensures
            copy == *self,
    {
        Constraint { index_a: self.index_a, index_b: self.index_b, max_diff: self.max_diff }
    }
}

/// The predicate "is kept by `values`", on constraints.
pub open spec fn kept_by(values: Seq<i64>) -> spec_fn(Constraint) -> bool {
    |c: Constraint| c.holds(values)
}

/// How many of `constraints` are kept by `values`.
pub open spec fn score(constraints: Seq<Constraint>, values: Seq<i64>) -> nat {
    constraints.filter(kept_by(values)).len()
}

/// Every one of `constraints` is kept by `values`.
pub open spec fn all_hold(constraints: Seq<Constraint>, values: Seq<i64>) -> bool {
    forall|k: int| 0 <= k < constraints.len() ==> (#[trigger] constraints[k]).holds(values)
}

/// Counts the constraints that `values` keeps.
pub(crate) fn count_satisfied(constraints: &[Constraint], values: &[i64]) -> (count: usize)
    ensures
        count == score(constraints@, values@),
{
    let mut count: usize = 0;
    let mut k: usize = 0;
    while k < constraints.len()
        invariant
            k <= constraints.len(),
            count <= k,
            count == score(constraints@.take(k as int), values@),
        decreases constraints.len() - k,
    {
        proof {
            let done = constraints@.take(k as int);
            assert(constraints@.take(k + 1) =~= done.push(constraints@[k as int]));
            done.lemma_filter_len_push(kept_by(values@), constraints@[k as int]);
        }
        if constraints[k].satisfied_by(values) {
            count = count + 1;
        }
        k = k + 1;
    }
    assert(constraints@.take(k as int) =~= constraints@);
    count
}

/// Tells whether `values` keeps every constraint.
pub(crate) fn all_satisfied(constraints: &[Constraint], values: &[i64]) -> (all: bool)
    ensures
        all == all_hold(constraints@, values@),
{
    let mut k: usize = 0;
    while k < constraints.len()
        invariant
            k <= constraints.len(),
            forall|j: int| 0 <= j < k ==> (#[trigger] constraints@[j]).holds(values@),
        decreases constraints.len() - k,
    {
        if !constraints[k].satisfied_by(values) {
            return false;
        }
        k = k + 1;
    }
    true
}

/// Tells whether `wanted` is among `constraints`.
pub(crate) fn contains(constraints: &[Constraint], wanted: &Constraint) -> (found: bool)
    ensures
        found == constraints@.contains(*wanted),
{
    let mut k: usize = 0;
    while k < constraints.len()
        invariant
            k <= constraints.len(),
            forall|j: int| 0 <= j < k ==> constraints@[j] != *wanted,
        decreases constraints.len() - k,
    {
        if constraints[k] == *wanted {
            return true;
        }
        k = k + 1;
    }
    false
}

/// A constraint holds exactly where both its indices exist and neither value exceeds the
/// other by more than the bound.
pub proof fn holds_means_within_the_bound(c: Constraint, values: Seq<i64>)
    ensures
        c.holds(values) <==> {
            &&& c.index_a < values.len()
            &&& c.index_b < values.len()
            &&& values[c.index_a as int] - values[c.index_b as int] <= c.max_diff
            &&& values[c.index_b as int] - values[c.index_a as int] <= c.max_diff
        },
        c.fits(values.len()) <==> c.index_a < values.len() && c.index_b < values.len(),
{
}

/// It does not matter which of the two indices is named first.
pub proof fn holds_is_symmetric(c: Constraint, values: Seq<i64>)
    ensures
        c.holds(values) == (Constraint {
            index_a: c.index_b,
            index_b: c.index_a,
            max_diff: c.max_diff,
        }).holds(values),
{
}

/// A looser bound holds wherever a tighter one does.
pub proof fn looser_bounds_hold_too(c: Constraint, max_diff: i64, values: Seq<i64>)
    requires
        c.holds(values),
        c.max_diff <= max_diff,
    ensures
        (Constraint { index_a: c.index_a, index_b: c.index_b, max_diff }).holds(values),
{
}

/// Only the two values that a constraint names bear on it.
pub proof fn holds_depends_on_two_values(c: Constraint, values: Seq<i64>, other: Seq<i64>)
    requires
        c.index_a < values.len() && c.index_b < values.len(),
        c.index_a < other.len() && c.index_b < other.len(),
        values[c.index_a as int] == other[c.index_a as int],
        values[c.index_b as int] == other[c.index_b as int],
    ensures
        c.holds(values) == c.holds(other),
{
}

/// The distance of two integers is their difference, taken from the larger one.
pub proof fn distance_is_the_larger_difference(x: int, y: int)
    ensures
        distance(x, y) >= x - y,
        distance(x, y) >= y - x,
        distance(x, y) == x - y || distance(x, y) == y - x,
{
}

/// No constraints score nothing, and each further one adds one where it is kept and
/// nothing where it is not.
pub proof fn score_counts_one_by_one(constraints: Seq<Constraint>, c: Constraint, values: Seq<i64>)
    ensures
        score(Seq::empty(), values) == 0,
        kept_by(values)(c) == c.holds(values),
        score(constraints.push(c), values) == score(constraints, values) + if c.holds(values) {
            1int
        } else {
            0int
        },
{
    constraints.lemma_filter_len_push(kept_by(values), c);
    Seq::<Constraint>::empty().lemma_filter_len(kept_by(values));
}

/// All constraints hold exactly where each one that is listed is within its bound.
pub proof fn all_hold_means_each_within_its_bound(constraints: Seq<Constraint>, values: Seq<i64>)
    ensures
        all_hold(constraints, values) <==> forall|c: Constraint| #[trigger]
            constraints.contains(c) ==> {
                &&& c.index_a < values.len()
                &&& c.index_b < values.len()
                &&& values[c.index_a as int] - values[c.index_b as int] <= c.max_diff
                &&& values[c.index_b as int] - values[c.index_a as int] <= c.max_diff
            },
{
    if all_hold(constraints, values) {
        assert forall|c: Constraint| #[trigger] constraints.contains(c) implies c.holds(values) by {
            let k = choose|k: int| 0 <= k < constraints.len() && constraints[k] == c;
            assert(constraints[k].holds(values));
        }
    }
    if !all_hold(constraints, values) {
        let k = choose|k: int|
            0 <= k < constraints.len() && !(#[trigger] constraints[k]).holds(values);
        assert(constraints.contains(constraints[k]));
    }
}

/// The display form names the first index, the second index and the bound, in this order.
pub proof fn display_names_indices_and_bound(c: Constraint)
    ensures
        c.display() == "|v["@ + text::decimal(c.index_a as nat) + "] - v["@ + text::decimal(
            c.index_b as nat,
        ) + "]| <= "@ + text::signed_decimal(c.max_diff as int),
{
}

} // verus!
