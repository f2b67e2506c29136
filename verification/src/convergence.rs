//! What merges promise about the constraints they preserve and about agents that meet.

use vstd::prelude::*;

use crate::average;
use crate::constraint;
use crate::laws;
use crate::model;
use crate::model::StateView;
use crate::settlement;

verus! {

// ---------------------------------------------------------------------------
// How much of a satisfied state survives a merge
// ---------------------------------------------------------------------------

/// Where every local constraint is kept, a merge leaves the local value at `i`, or moves
/// it to the mean with an incoming value that would have kept every constraint as well.
pub proof fn satisfied_state_moves_only_to_safe_means(
    local: StateView,
    incoming: StateView,
    i: int,
)
    requires
        local.satisfied(),
        0 <= i < local.values.len(),
    ensures
        ({
            let after = local.merged(incoming).values[i];
            ||| after == local.values[i]
            ||| {
                &&& i < incoming.values.len()
                &&& after == average::rounded_average(local.values[i], incoming.values[i])
                &&& constraint::all_hold(
                    local.constraints,
                    model::placed(local.values, i, incoming.values[i]),
                )
            }
        }),
{
    if i < incoming.values.len() {
        settlement::placing_the_present_value(local.values, i);
        settlement::full_score_means_all_hold(local.constraints, local.values);
        settlement::full_score_means_all_hold(
            local.constraints,
            model::placed(local.values, i, incoming.values[i]),
        );
    }
}

/// A satisfied state is bent by a merge, but never broken: however many indices
/// conflict, no local bound is exceeded by more than one, which is what rounding two
/// means can cost.
pub proof fn merge_exceeds_no_bound_by_more_than_one(
    local: StateView,
    incoming: StateView,
    k: int,
)
    requires
        local.satisfied(),
        0 <= k < local.constraints.len(),
    ensures
        ({
            let c = local.constraints[k];
            let after = local.merged(incoming).values;
            &&& c.fits(after.len())
            &&& constraint::distance(
                after[c.index_a as int] as int,
                after[c.index_b as int] as int,
            ) <= c.max_diff + 1
        }),
{
    let c = local.constraints[k];
    let a = c.index_a as int;
    let b = c.index_b as int;
    let ours = local.values;
    let theirs = incoming.values;
    assert(c.holds(ours));
    satisfied_state_moves_only_to_safe_means(local, incoming, a);
    satisfied_state_moves_only_to_safe_means(local, incoming, b);
    let after = local.merged(incoming).values;
    if after[a] != ours[a] {
        average::rounded_average_is_nearest(ours[a], theirs[a]);
        assert(c.holds(model::placed(ours, a, theirs[a])));
    }
    if after[b] != ours[b] {
        average::rounded_average_is_nearest(ours[b], theirs[b]);
        assert(c.holds(model::placed(ours, b, theirs[b])));
    }
}

/// The two sides agree on every index that both have, with `pos` as the only possible
/// exception.
pub open spec fn differ_only_at(local: Seq<i64>, incoming: Seq<i64>, pos: int) -> bool {
    &&& 0 <= pos < local.len()
    &&& pos < incoming.len()
    &&& forall|i: int|
        0 <= i < local.len() && i < incoming.len() && i != pos ==> #[trigger] local[i]
            == incoming[i]
}

/// A merge with a single conflict keeps every constraint of a satisfied state.
pub proof fn single_conflict_keeps_a_satisfied_state(
    local: StateView,
    incoming: StateView,
    pos: int,
)
    requires
        local.satisfied(),
        differ_only_at(local.values, incoming.values, pos),
    ensures
        constraint::all_hold(local.constraints, local.merged(incoming).values),
{
    let after = local.merged(incoming).values;
    let ours = local.values;
    settlement::placing_the_present_value(ours, pos);
    satisfied_state_moves_only_to_safe_means(local, incoming, pos);
    average::rounded_average_is_between(ours[pos], incoming.values[pos]);
    assert forall|k: int| 0 <= k < local.constraints.len() implies (
    #[trigger] local.constraints[k]).holds(after) by {
        let c = local.constraints[k];
        assert(c.holds(ours));
        if after[pos] != ours[pos] {
            assert(c.holds(model::placed(ours, pos, incoming.values[pos])));
            settlement::bounds_are_convex(
                c,
                ours,
                pos,
                ours[pos],
                incoming.values[pos],
                after[pos],
            );
        }
        let moved = model::placed(ours, pos, after[pos]);
        assert(c.holds(moved));
        assert(forall|i: int| 0 <= i < ours.len() ==> #[trigger] after[i] == moved[i]);
    }
}

/// A merge with a single conflict, and no index that is new, leaves exactly the settlement
/// of that conflict. So the number of local constraints kept falls only where the
/// candidates tie above zero and the mean between them keeps fewer.
pub proof fn single_conflict_never_degrades(local: StateView, incoming: StateView, pos: int)
    requires
        differ_only_at(local.values, incoming.values, pos),
        incoming.values.len() <= local.values.len(),
    ensures
        ({
            let ours = constraint::score(local.constraints, local.values);
            let theirs = constraint::score(
                local.constraints,
                model::placed(local.values, pos, incoming.values[pos]),
            );
            let mean = average::rounded_average(local.values[pos], incoming.values[pos]);
            let got = constraint::score(local.constraints, local.merged(incoming).values);
            got < ours || got < theirs <==> {
                &&& ours == theirs
                &&& ours > 0
                &&& constraint::score(
                    local.constraints,
                    model::placed(local.values, pos, mean),
                ) < ours
            }
        }),
{
    let ours = local.values;
    let other = incoming.values[pos];
    let after = local.merged(incoming).values;
    settlement::placing_the_present_value(ours, pos);
    settlement::resolution_never_degrades(local.constraints, ours[pos], other, pos, ours);
    average::rounded_average_is_between(ours[pos], other);
    assert(after =~= model::placed(ours, pos, after[pos]));
}

// ---------------------------------------------------------------------------
// Agents that meet
// ---------------------------------------------------------------------------

/// Two agents with the same constraints, in whatever order, whose values differ at one
/// index, agree after each has merged the other's state, unless neither state keeps any
/// constraint; then each stays with its own value.
pub proof fn exchange_settles_a_single_conflict(one: StateView, two: StateView, pos: int)
    requires
        one.constraints.to_multiset() == two.constraints.to_multiset(),
        one.values.len() == two.values.len(),
        differ_only_at(one.values, two.values, pos),
        one.values[pos] != two.values[pos],
    ensures
        one.merged(two).constraints.to_set() == two.merged(one).constraints.to_set(),
        one.merged(two).values == two.merged(one).values <==> constraint::score(
            one.constraints,
            one.values,
        ) > 0 || constraint::score(one.constraints, two.values) > 0,
{
    laws::union_order_does_not_matter(one.constraints, two.constraints, seq![]);
    settlement::resolution_of_swapped_candidates(
        one.constraints,
        one.values[pos],
        two.values[pos],
        pos,
        one.values,
    );
    settlement::resolution_ignores_order_and_own_entry(
        one.constraints,
        two.constraints,
        two.values[pos],
        one.values[pos],
        pos,
        one.values,
        two.values,
    );
    settlement::placing_the_present_value(one.values, pos);
    assert(model::placed(one.values, pos, two.values[pos]) =~= two.values);
    let ab = one.merged(two).values;
    let ba = two.merged(one).values;
    assert forall|i: int| 0 <= i < one.values.len() && i != pos implies ab[i] == ba[i] by {
        assert(one.values[i] == two.values[i]);
    }
    if ab[pos] == ba[pos] {
        assert(ab =~= ba);
    }
}

} // verus!
