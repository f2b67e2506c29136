//! What the settlement of one disagreement promises.

use vstd::multiset::Multiset;
use vstd::prelude::*;

use crate::average;
use crate::constraint;
use crate::constraint::Constraint;
use crate::model;

verus! {

// ---------------------------------------------------------------------------
// Counting kept constraints
// ---------------------------------------------------------------------------

proof fn score_of_last(constraints: Seq<Constraint>, values: Seq<i64>)
    requires
        constraints.len() > 0,
    ensures
        constraint::score(constraints, values) == constraint::score(
            constraints.drop_last(),
            values,
        ) + if constraints.last().holds(values) {
            1nat
        } else {
            0nat
        },
{
    let rest = constraints.drop_last();
    assert(constraints =~= rest.push(constraints.last()));
    rest.lemma_filter_len_push(constraint::kept_by(values), constraints.last());
}

/// Values that keep whatever others keep have at least their score.
pub proof fn score_is_monotone(constraints: Seq<Constraint>, fewer: Seq<i64>, more: Seq<i64>)
    requires
        forall|k: int|
            0 <= k < constraints.len() && (#[trigger] constraints[k]).holds(fewer)
                ==> constraints[k].holds(more),
    ensures
        constraint::score(constraints, fewer) <= constraint::score(constraints, more),
    decreases constraints.len(),
{
    if constraints.len() > 0 {
        let rest = constraints.drop_last();
        assert forall|k: int|
            0 <= k < rest.len() && (#[trigger] rest[k]).holds(fewer) implies rest[k].holds(
            more,
        ) by {
            assert(rest[k] == constraints[k]);
        }
        score_is_monotone(rest, fewer, more);
        score_of_last(constraints, fewer);
        score_of_last(constraints, more);
    }
}

/// No score exceeds the number of constraints, and it reaches that number exactly where
/// every constraint is kept.
pub proof fn full_score_means_all_hold(constraints: Seq<Constraint>, values: Seq<i64>)
    ensures
        constraint::score(constraints, values) <= constraints.len(),
        constraint::score(constraints, values) == constraints.len() <==> constraint::all_hold(
            constraints,
            values,
        ),
    decreases constraints.len(),
{
    if constraints.len() > 0 {
        let rest = constraints.drop_last();
        full_score_means_all_hold(rest, values);
        score_of_last(constraints, values);
        if constraint::all_hold(constraints, values) {
            assert forall|k: int| 0 <= k < rest.len() implies (#[trigger] rest[k]).holds(
                values,
            ) by {
                assert(rest[k] == constraints[k]);
            }
            assert(constraints[constraints.len() - 1].holds(values));
        }
        if constraint::all_hold(rest, values) && constraints.last().holds(values) {
            assert forall|k: int| 0 <= k < constraints.len() implies (
            #[trigger] constraints[k]).holds(values) by {
                if k < rest.len() {
                    assert(rest[k].holds(values));
                }
            }
        }
    }
}

proof fn score_counts_occurrences(constraints: Seq<Constraint>, values: Seq<i64>)
    ensures
        constraint::score(constraints, values) == constraints.to_multiset().filter(
            constraint::kept_by(values),
        ).len(),
    decreases constraints.len(),
{
    broadcast use vstd::multiset::group_multiset_axioms;
    broadcast use vstd::seq_lib::group_to_multiset_ensures;

    let kept = constraint::kept_by(values);
    let all = constraints.to_multiset();
    if constraints.len() == 0 {
        assert(all.filter(kept) =~= Multiset::empty());
    } else {
        let rest = constraints.drop_last();
        let last = constraints.last();
        score_counts_occurrences(rest, values);
        score_of_last(constraints, values);
        assert(constraints =~= rest.push(last));
        if kept(last) {
            assert(all.filter(kept) =~= rest.to_multiset().filter(kept).insert(last));
        } else {
            assert(all.filter(kept) =~= rest.to_multiset().filter(kept));
        }
    }
}

/// A score depends on which constraints are known and how often each is listed, not on
/// the order of the list.
pub proof fn score_ignores_order(a: Seq<Constraint>, b: Seq<Constraint>, values: Seq<i64>)
    requires
        a.to_multiset() == b.to_multiset(),
    ensures
        constraint::score(a, values) == constraint::score(b, values),
{
    score_counts_occurrences(a, values);
    score_counts_occurrences(b, values);
}

/// Two lists without repetitions that hold the same constraints are permutations of each
/// other.
pub proof fn distinct_lists_of_the_same_are_permutations(a: Seq<Constraint>, b: Seq<Constraint>)
    requires
        a.no_duplicates(),
        b.no_duplicates(),
        a.to_set() == b.to_set(),
    ensures
        a.to_multiset() == b.to_multiset(),
{
    broadcast use vstd::seq_lib::group_to_multiset_ensures;

    a.lemma_multiset_has_no_duplicates();
    b.lemma_multiset_has_no_duplicates();
    assert forall|c: Constraint| #[trigger] a.to_multiset().count(c) == b.to_multiset().count(c) by {
        assert(a.to_set().contains(c) <==> a.contains(c));
        assert(b.to_set().contains(c) <==> b.contains(c));
    }
    assert(a.to_multiset() =~= b.to_multiset());
}

// ---------------------------------------------------------------------------
// Settling one disagreement
// ---------------------------------------------------------------------------

/// At an index that exists, placing a value replaces the one that is there.
pub proof fn placing_replaces(values: Seq<i64>, pos: int, value: i64)
    requires
        0 <= pos < values.len(),
    ensures
        model::placed(values, pos, value) == values.update(pos, value),
{
    assert(model::placed(values, pos, value) =~= values.update(pos, value));
}

/// Beyond the end, placing a value pads with zeros up to it.
pub proof fn placing_pads(values: Seq<i64>, pos: int, value: i64)
    requires
        values.len() <= pos,
    ensures
        model::placed(values, pos, value) == values + Seq::new(
            (pos - values.len()) as nat,
            |i: int| 0i64,
        ) + seq![value],
{
    assert(model::placed(values, pos, value) =~= values + Seq::new(
        (pos - values.len()) as nat,
        |i: int| 0i64,
    ) + seq![value]);
}

/// Putting back the value that is already there changes nothing.
pub proof fn placing_the_present_value(values: Seq<i64>, pos: int)
    requires
        0 <= pos < values.len(),
    ensures
        model::placed(values, pos, values[pos]) == values,
{
    assert(model::placed(values, pos, values[pos]) =~= values);
}

/// The values that keep a bound form an unbroken span: whatever lies between two
/// candidates that keep it keeps it too.
pub proof fn bounds_are_convex(
    c: Constraint,
    baseline: Seq<i64>,
    pos: int,
    x: i64,
    y: i64,
    between: i64,
)
    requires
        0 <= pos,
        x <= between <= y || y <= between <= x,
        c.holds(model::placed(baseline, pos, x)),
        c.holds(model::placed(baseline, pos, y)),
    ensures
        c.holds(model::placed(baseline, pos, between)),
{
}

/// A settlement lies within the span of the two candidates.
pub proof fn resolution_is_between(
    constraints: Seq<Constraint>,
    local: i64,
    incoming: i64,
    pos: int,
    baseline: Seq<i64>,
)
    ensures
        local <= incoming ==> local <= model::resolution(
            constraints,
            local,
            incoming,
            pos,
            baseline,
        ) <= incoming,
        incoming <= local ==> incoming <= model::resolution(
            constraints,
            local,
            incoming,
            pos,
            baseline,
        ) <= local,
{
    average::rounded_average_is_between(local, incoming);
}

/// A constraint that both candidates keep is kept by the settlement.
pub proof fn resolution_keeps_common_ground(
    c: Constraint,
    constraints: Seq<Constraint>,
    local: i64,
    incoming: i64,
    pos: int,
    baseline: Seq<i64>,
)
    requires
        0 <= pos,
        c.holds(model::placed(baseline, pos, local)),
        c.holds(model::placed(baseline, pos, incoming)),
    ensures
        c.holds(
            model::placed(
                baseline,
                pos,
                model::resolution(constraints, local, incoming, pos, baseline),
            ),
        ),
{
    let settled = model::resolution(constraints, local, incoming, pos, baseline);
    resolution_is_between(constraints, local, incoming, pos, baseline);
    bounds_are_convex(c, baseline, pos, local, incoming, settled);
}

/// The scores alone decide a settlement, and they decide it fully: the candidate that keeps
/// more constraints is taken; where both keep equally many and at least one, the settlement
/// is the mean of the two, with a half going away from zero; where neither keeps any, the
/// local value stays.
pub proof fn resolution_follows_the_scores(
    constraints: Seq<Constraint>,
    local: i64,
    incoming: i64,
    pos: int,
    baseline: Seq<i64>,
)
    ensures
        ({
            let ours = constraint::score(constraints, model::placed(baseline, pos, local));
            let theirs = constraint::score(constraints, model::placed(baseline, pos, incoming));
            let settled = model::resolution(constraints, local, incoming, pos, baseline);
            let sum = local + incoming;
            &&& ours > theirs ==> settled == local
            &&& theirs > ours ==> settled == incoming
            &&& ours == theirs && ours == 0 ==> settled == local
            &&& ours == theirs && ours > 0 ==> {
                &&& settled == average::rounded_average(local, incoming)
                &&& sum % 2 == 0 ==> 2 * settled == sum
                &&& sum % 2 != 0 && sum > 0 ==> 2 * settled == sum + 1
                &&& sum % 2 != 0 && sum < 0 ==> 2 * settled == sum - 1
            }
        }),
{
    average::rounded_average_is_nearest(local, incoming);
}

/// Which candidate is the local one matters only where neither keeps a constraint: then
/// each order keeps its first candidate, and otherwise both orders settle alike.
pub proof fn resolution_of_swapped_candidates(
    constraints: Seq<Constraint>,
    x: i64,
    y: i64,
    pos: int,
    baseline: Seq<i64>,
)
    ensures
        ({
            let with_x = constraint::score(constraints, model::placed(baseline, pos, x));
            let with_y = constraint::score(constraints, model::placed(baseline, pos, y));
            let settled = model::resolution(constraints, x, y, pos, baseline);
            let swapped = model::resolution(constraints, y, x, pos, baseline);
            &&& with_x > 0 || with_y > 0 ==> settled == swapped
            &&& with_x == 0 && with_y == 0 ==> settled == x && swapped == y
        }),
{
    average::rounded_average_is_symmetric(x, y);
}

/// A settlement depends neither on the order of the constraints nor on what the baseline
/// itself holds at the position that is settled.
pub proof fn resolution_ignores_order_and_own_entry(
    constraints: Seq<Constraint>,
    reordered: Seq<Constraint>,
    local: i64,
    incoming: i64,
    pos: int,
    baseline: Seq<i64>,
    other: Seq<i64>,
)
    requires
        0 <= pos,
        constraints.to_multiset() == reordered.to_multiset(),
        baseline.len() == other.len(),
        forall|i: int| 0 <= i < baseline.len() && i != pos ==> #[trigger] baseline[i] == other[i],
    ensures
        model::resolution(constraints, local, incoming, pos, baseline) == model::resolution(
            reordered,
            local,
            incoming,
            pos,
            other,
        ),
{
    let with_local = model::placed(baseline, pos, local);
    let with_incoming = model::placed(baseline, pos, incoming);
    assert(with_local =~= model::placed(other, pos, local));
    assert(with_incoming =~= model::placed(other, pos, incoming));
    score_ignores_order(constraints, reordered, with_local);
    score_ignores_order(constraints, reordered, with_incoming);
}

/// The better candidate is never passed over.
///
/// Where the scores differ, the settlement is the candidate with the higher score. Where
/// neither candidate keeps anything, it is the local value. It has a lower score than a
/// candidate in one case only: the candidates tie above zero by keeping different
/// constraints, and the mean between them keeps fewer. Where tied candidates keep the
/// same constraints, the mean keeps them all.
pub proof fn resolution_never_degrades(
    constraints: Seq<Constraint>,
    local: i64,
    incoming: i64,
    pos: int,
    baseline: Seq<i64>,
)
    requires
        0 <= pos,
    ensures
        ({
            let with_local = model::placed(baseline, pos, local);
            let with_incoming = model::placed(baseline, pos, incoming);
            let mean = average::rounded_average(local, incoming);
            let settled = model::resolution(constraints, local, incoming, pos, baseline);
            let ours = constraint::score(constraints, with_local);
            let theirs = constraint::score(constraints, with_incoming);
            let got = constraint::score(constraints, model::placed(baseline, pos, settled));
            &&& ours > theirs ==> settled == local
            &&& theirs > ours ==> settled == incoming
            &&& ours == 0 && theirs == 0 ==> settled == local
            &&& got < ours || got < theirs <==> {
                &&& ours == theirs
                &&& ours > 0
                &&& constraint::score(constraints, model::placed(baseline, pos, mean)) < ours
            }
            &&& (forall|k: int|
                0 <= k < constraints.len() ==> ((#[trigger] constraints[k]).holds(with_local)
                    <==> constraints[k].holds(with_incoming))) ==> got >= ours && got >= theirs
        }),
{
    let with_local = model::placed(baseline, pos, local);
    let with_incoming = model::placed(baseline, pos, incoming);
    let settled = model::resolution(constraints, local, incoming, pos, baseline);
    let after = model::placed(baseline, pos, settled);
    if forall|k: int|
        0 <= k < constraints.len() ==> ((#[trigger] constraints[k]).holds(with_local)
            <==> constraints[k].holds(with_incoming)) {
        assert forall|k: int|
            0 <= k < constraints.len() && (#[trigger] constraints[k]).holds(
                with_local,
            ) implies constraints[k].holds(after) by {
            resolution_keeps_common_ground(
                constraints[k],
                constraints,
                local,
                incoming,
                pos,
                baseline,
            );
        }
        score_is_monotone(constraints, with_local, after);
        score_is_monotone(constraints, with_incoming, after);
    }
}

} // verus!
