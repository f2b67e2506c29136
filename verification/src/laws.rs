//! What the library promises beyond any single call.

use vstd::prelude::*;

use crate::constraint;
use crate::constraint::Constraint;
use crate::model;
use crate::model::NodeView;
use crate::model::StateView;
use crate::settlement;

verus! {

// ---------------------------------------------------------------------------
// Constraints are knowledge: a merge pools them and loses none
// ---------------------------------------------------------------------------

/// The union of two constraint lists holds exactly what either list holds. The
/// constraints already known keep their places at the head, and a list without
/// repetitions stays one.
pub proof fn union_pools_both_sides(known: Seq<Constraint>, more: Seq<Constraint>)
    ensures
        forall|c: Constraint| #[trigger]
            model::union(known, more).contains(c) <==> known.contains(c) || more.contains(c),
        known.is_prefix_of(model::union(known, more)),
        known.no_duplicates() ==> model::union(known, more).no_duplicates(),
    decreases more.len(),
{
    broadcast use vstd::seq_lib::lemma_seq_contains_after_push;

    if more.len() > 0 {
        let rest = more.drop_last();
        union_pools_both_sides(known, rest);
        assert(more =~= rest.push(more.last()));
    }
}

/// Constraints are learned one by one, in the order in which they come in: nothing new
/// leaves the list as it is, and each further constraint goes to the end unless it is
/// already listed.
pub proof fn union_learns_in_order(known: Seq<Constraint>, more: Seq<Constraint>, c: Constraint)
    ensures
        model::union(known, Seq::empty()) == known,
        model::union(known, more).contains(c) ==> model::union(known, more.push(c))
            == model::union(known, more),
        !model::union(known, more).contains(c) ==> model::union(known, more.push(c))
            == model::union(known, more).push(c),
{
    assert(more.push(c).drop_last() =~= more);
}

/// As sets, unions commute, associate, and absorb what is already known, so agents that
/// have exchanged constraints know the same ones, in whatever order they met.
pub proof fn union_order_does_not_matter(
    a: Seq<Constraint>,
    b: Seq<Constraint>,
    c: Seq<Constraint>,
)
    ensures
        model::union(a, b).to_set() == model::union(b, a).to_set(),
        model::union(model::union(a, b), c).to_set() == model::union(
            a,
            model::union(b, c),
        ).to_set(),
        model::union(model::union(a, b), b) == model::union(a, b),
{
    union_pools_both_sides(a, b);
    union_pools_both_sides(b, a);
    union_pools_both_sides(b, c);
    union_pools_both_sides(model::union(a, b), c);
    union_pools_both_sides(a, model::union(b, c));
    assert(model::union(a, b).to_set() =~= model::union(b, a).to_set());
    assert(model::union(model::union(a, b), c).to_set() =~= model::union(
        a,
        model::union(b, c),
    ).to_set());
    assert forall|k: int| 0 <= k < b.len() implies model::union(a, b).contains(
        #[trigger] b[k],
    ) by {
        assert(b.contains(b[k]));
    }
    union_with_known(model::union(a, b), b);
}

/// Being told only what is known teaches nothing.
pub proof fn union_with_known(known: Seq<Constraint>, more: Seq<Constraint>)
    requires
        forall|k: int| 0 <= k < more.len() ==> known.contains(#[trigger] more[k]),
    ensures
        model::union(known, more) == known,
    decreases more.len(),
{
    if more.len() > 0 {
        let rest = more.drop_last();
        assert forall|k: int| 0 <= k < rest.len() implies known.contains(#[trigger] rest[k]) by {
            assert(rest[k] == more[k]);
        }
        union_with_known(known, rest);
        assert(known.contains(more[more.len() - 1]));
    }
}

/// Adding a constraint a second time changes nothing.
pub proof fn with_constraint_is_idempotent(node: NodeView, c: Constraint)
    ensures
        node.with_constraint(c).with_constraint(c) == node.with_constraint(c),
        node.with_constraint(c).state.constraints.contains(c),
{
    broadcast use vstd::seq_lib::lemma_seq_contains_after_push;

}

/// Learning a constraint loses none: the known ones keep their places, the new one goes to
/// the end unless it is already there, and nothing else about the node changes.
pub proof fn with_constraint_loses_nothing(node: NodeView, c: Constraint)
    ensures
        ({
            let after = node.with_constraint(c);
            let known = node.state.constraints;
            &&& known.is_prefix_of(after.state.constraints)
            &&& forall|d: Constraint| #[trigger]
                after.state.constraints.contains(d) <==> known.contains(d) || d == c
            &&& known.contains(c) ==> after == node
            &&& !known.contains(c) ==> after.state.constraints == known.push(c)
            &&& after.state.values == node.state.values
            &&& after.state.agent_id == node.state.agent_id
            &&& after.history == node.history
            &&& after.clock == node.clock
        }),
{
    broadcast use vstd::seq_lib::lemma_seq_contains_after_push;

    if node.state.constraints.contains(c) {
        assert(node.with_constraint(c) =~= node);
    }
}

/// A new node has the given name and values, and nothing else.
pub proof fn fresh_holds_only_what_was_given(agent_id: Seq<char>, values: Seq<i64>)
    ensures
        ({
            let node = NodeView::fresh(agent_id, values);
            &&& node.state.agent_id == agent_id
            &&& node.state.values == values
            &&& node.state.constraints.len() == 0
            &&& node.history.len() == 0
            &&& node.clock == 0
        }),
{
}

// ---------------------------------------------------------------------------
// Every node is valid, at every time
// ---------------------------------------------------------------------------

/// A valid node lists no constraint twice and has a clock that counts its log entries.
/// Each entry is stamped with its place in the log, counted from one, tells truthfully
/// whether every constraint was within its bound, and records nothing that was lost later.
pub proof fn valid_means_sound_log_and_list(node: NodeView)
    ensures
        node.valid() <==> {
            &&& forall|i: int, j: int|
                0 <= i < j < node.state.constraints.len() ==> #[trigger] node.state.constraints[i]
                    != #[trigger] node.state.constraints[j]
            &&& node.clock == node.history.len()
            &&& forall|i: int|
                0 <= i < node.history.len() ==> {
                    let entry = #[trigger] node.history[i];
                    let then = entry.result.merged;
                    &&& entry.timestamp == i + 1
                    &&& entry.result.constraints_preserved <==> constraint::all_hold(
                        then.constraints,
                        then.values,
                    )
                    &&& then.agent_id == node.state.agent_id
                    &&& then.values.len() <= node.state.values.len()
                    &&& then.constraints.is_prefix_of(node.state.constraints)
                }
        },
{
    if node.valid() {
        assert forall|i: int| 0 <= i < node.history.len() implies {
            let entry = #[trigger] node.history[i];
            let then = entry.result.merged;
            &&& entry.timestamp == i + 1
            &&& entry.result.constraints_preserved <==> constraint::all_hold(
                then.constraints,
                then.values,
            )
            &&& then.agent_id == node.state.agent_id
            &&& then.values.len() <= node.state.values.len()
            &&& then.constraints.is_prefix_of(node.state.constraints)
        } by {
            assert(node.entry_valid(i));
        }
    }
}

/// A new node is valid.
pub proof fn fresh_is_valid(agent_id: Seq<char>, values: Seq<i64>)
    ensures
        NodeView::fresh(agent_id, values).valid(),
{
}

/// Learning a constraint keeps a node valid.
pub proof fn with_constraint_keeps_valid(node: NodeView, c: Constraint)
    requires
        node.valid(),
    ensures
        node.with_constraint(c).valid(),
{
    let after = node.with_constraint(c);
    assert forall|i: int| 0 <= i < after.history.len() implies #[trigger] after.entry_valid(i) by {
        assert(node.entry_valid(i));
    }
}

/// Setting a value keeps a node valid.
pub proof fn with_value_keeps_valid(node: NodeView, index: int, value: i64)
    requires
        node.valid(),
        0 <= index < node.state.values.len(),
    ensures
        node.with_value(index, value).valid(),
{
    let after = node.with_value(index, value);
    assert forall|i: int| 0 <= i < after.history.len() implies #[trigger] after.entry_valid(i) by {
        assert(node.entry_valid(i));
    }
}

/// A merge keeps a node valid, whatever state comes in.
pub proof fn merge_keeps_valid(node: NodeView, incoming: StateView)
    requires
        node.valid(),
    ensures
        node.merged_with(incoming).valid(),
{
    let after = node.merged_with(incoming);
    union_pools_both_sides(node.state.constraints, incoming.constraints);
    assert forall|i: int| 0 <= i < after.history.len() implies #[trigger] after.entry_valid(i) by {
        if i < node.history.len() {
            assert(node.entry_valid(i));
        }
    }
}

// ---------------------------------------------------------------------------
// Constraints stay on indices that exist
// ---------------------------------------------------------------------------

/// A state is in range exactly where both indices of each constraint exist.
pub proof fn in_range_means_indices_exist(state: StateView)
    ensures
        state.in_range() <==> forall|c: Constraint| #[trigger]
            state.constraints.contains(c) ==> c.index_a < state.values.len() && c.index_b
                < state.values.len(),
{
    if state.in_range() {
        assert forall|c: Constraint| #[trigger] state.constraints.contains(c) implies c.fits(
            state.values.len(),
        ) by {
            let k = choose|k: int| 0 <= k < state.constraints.len() && state.constraints[k] == c;
            assert(state.constraints[k].fits(state.values.len()));
        }
    } else {
        let k = choose|k: int|
            0 <= k < state.constraints.len() && !(#[trigger] state.constraints[k]).fits(
                state.values.len(),
            );
        assert(state.constraints.contains(state.constraints[k]));
    }
}

/// A new node has no constraint on a missing index.
pub proof fn fresh_is_in_range(agent_id: Seq<char>, values: Seq<i64>)
    ensures
        NodeView::fresh(agent_id, values).state.in_range(),
{
}

/// Learning a constraint on indices that exist leaves no constraint on a missing index.
pub proof fn with_constraint_keeps_range(node: NodeView, c: Constraint)
    requires
        node.state.in_range(),
        c.fits(node.state.values.len()),
    ensures
        node.with_constraint(c).state.in_range(),
{
}

/// Setting a value leaves no constraint on a missing index.
pub proof fn with_value_keeps_range(node: NodeView, index: int, value: i64)
    requires
        node.state.in_range(),
        0 <= index < node.state.values.len(),
    ensures
        node.with_value(index, value).state.in_range(),
{
}

/// A merge of two states without constraints on missing indices gives such a state.
pub proof fn merge_keeps_range(local: StateView, incoming: StateView)
    requires
        local.in_range(),
        incoming.in_range(),
    ensures
        local.merged(incoming).in_range(),
{
    let after = local.merged(incoming);
    union_pools_both_sides(local.constraints, incoming.constraints);
    assert forall|k: int| 0 <= k < after.constraints.len() implies (
    #[trigger] after.constraints[k]).fits(after.values.len()) by {
        let c = after.constraints[k];
        assert(after.constraints.contains(c));
        if local.constraints.contains(c) {
            let j = choose|j: int| 0 <= j < local.constraints.len() && local.constraints[j] == c;
            assert(local.constraints[j].fits(local.values.len()));
        } else {
            let j = choose|j: int|
                0 <= j < incoming.constraints.len() && incoming.constraints[j] == c;
            assert(incoming.constraints[j].fits(incoming.values.len()));
        }
    }
}

// ---------------------------------------------------------------------------
// What a merge does to values
// ---------------------------------------------------------------------------

/// A value that was set is read back, and no other value is touched.
pub proof fn with_value_is_read_back(node: NodeView, index: int, value: i64)
    requires
        0 <= index < node.state.values.len(),
    ensures
        node.with_value(index, value).state.values.len() == node.state.values.len(),
        node.with_value(index, value).state.values[index] == value,
        forall|i: int|
            0 <= i < node.state.values.len() && i != index ==> #[trigger] node.with_value(
                index,
                value,
            ).state.values[i] == node.state.values[i],
        node.with_value(index, value).state.values == node.state.values.update(index, value),
        node.with_value(index, value).state.constraints == node.state.constraints,
        node.with_value(index, value).state.agent_id == node.state.agent_id,
        node.with_value(index, value).history == node.history,
        node.with_value(index, value).clock == node.clock,
{
}

/// The conflicts of a merge are exactly the indices that both sides have and on which
/// they disagree, each counted once.
pub proof fn conflicts_are_the_disagreements(local: Seq<i64>, incoming: Seq<i64>)
    ensures
        forall|i: int| #[trigger]
            model::conflicts(local, incoming).contains(i) <==> 0 <= i < local.len() && i
                < incoming.len() && local[i] != incoming[i],
        model::conflicts(local, incoming).no_duplicates(),
        forall|j: int, k: int|
            0 <= j < k < model::conflicts(local, incoming).len() ==> #[trigger] model::conflicts(
                local,
                incoming,
            )[j] < #[trigger] model::conflicts(local, incoming)[k],
        model::conflicts(local, incoming).len() <= model::shorter(local.len(), incoming.len()),
{
    let common = model::shorter(local.len(), incoming.len());
    conflicts_below(common, local, incoming);
}

proof fn conflicts_below(n: nat, local: Seq<i64>, incoming: Seq<i64>)
    ensures
        ({
            let found = model::indices(n).filter(model::differs(local, incoming));
            &&& forall|i: int| #[trigger]
                found.contains(i) <==> 0 <= i < n && local[i] != incoming[i]
            &&& found.no_duplicates()
            &&& forall|j: int, k: int| 0 <= j < k < found.len() ==> found[j] < found[k]
            &&& found.len() <= n
        }),
    decreases n,
{
    broadcast use vstd::seq_lib::lemma_seq_contains_after_push;

    let found = model::indices(n).filter(model::differs(local, incoming));
    if n == 0 {
        assert(model::indices(n) =~= Seq::empty());
        assert(found =~= Seq::empty());
    } else {
        let last = n - 1;
        let rest = model::indices(last as nat);
        conflicts_below(last as nat, local, incoming);
        assert(model::indices(n) =~= rest.push(last));
        rest.lemma_filter_push(last, model::differs(local, incoming));
        let before = rest.filter(model::differs(local, incoming));
        assert(!before.contains(last));
        assert(before.push(last).no_duplicates());
        assert forall|j: int, k: int| 0 <= j < k < found.len() implies found[j] < found[k] by {
            if k == before.len() {
                assert(before.contains(before[j]));
            }
        }
    }
}

/// A merge reports as many conflicts as there are indices that both sides have and on
/// which they disagree.
pub proof fn merge_counts_the_disagreements(local: StateView, incoming: StateView)
    ensures
        ({
            let disagreements = Set::new(
                |i: int|
                    0 <= i < local.values.len() && i < incoming.values.len() && local.values[i]
                        != incoming.values[i],
            );
            &&& disagreements.finite()
            &&& local.merge_outcome(incoming).conflicts_resolved == disagreements.len()
        }),
{
    let found = model::conflicts(local.values, incoming.values);
    let disagreements = Set::new(
        |i: int|
            0 <= i < local.values.len() && i < incoming.values.len() && local.values[i]
                != incoming.values[i],
    );
    conflicts_are_the_disagreements(local.values, incoming.values);
    assert forall|i: int| found.to_set().contains(i) <==> disagreements.contains(i) by {
        assert(found.to_set().contains(i) <==> found.contains(i));
    }
    assert(found.to_set() =~= disagreements);
    found.unique_seq_to_set();
}

/// The merged state of two agents knows exactly the constraints that either side knows,
/// the local ones first and in their places, the new ones in the order in which they came
/// in, and it stays under the local name.
pub proof fn merge_pools_the_constraints(local: StateView, incoming: StateView)
    ensures
        ({
            let after = local.merged(incoming);
            &&& forall|c: Constraint| #[trigger]
                after.constraints.contains(c) <==> local.constraints.contains(c)
                    || incoming.constraints.contains(c)
            &&& local.constraints.is_prefix_of(after.constraints)
            &&& local.constraints.no_duplicates() ==> after.constraints.no_duplicates()
            &&& after.constraints == model::union(local.constraints, incoming.constraints)
            &&& after.agent_id == local.agent_id
        }),
{
    union_pools_both_sides(local.constraints, incoming.constraints);
}

/// A merge reports its constraints as preserved exactly where each constraint that either
/// side knows is within its bound in the merged values.
pub proof fn merge_reports_whether_all_hold(local: StateView, incoming: StateView)
    ensures
        ({
            let outcome = local.merge_outcome(incoming);
            let after = outcome.merged.values;
            &&& outcome.merged == local.merged(incoming)
            &&& outcome.constraints_preserved == outcome.merged.satisfied()
            &&& outcome.constraints_preserved <==> forall|c: Constraint|
                #![trigger local.constraints.contains(c)]
                #![trigger incoming.constraints.contains(c)]
                local.constraints.contains(c) || incoming.constraints.contains(c) ==> {
                    &&& c.index_a < after.len()
                    &&& c.index_b < after.len()
                    &&& after[c.index_a as int] - after[c.index_b as int] <= c.max_diff
                    &&& after[c.index_b as int] - after[c.index_a as int] <= c.max_diff
                }
        }),
{
    let after = local.merged(incoming);
    merge_pools_the_constraints(local, incoming);
    constraint::all_hold_means_each_within_its_bound(after.constraints, after.values);
    if after.satisfied() {
        assert forall|c: Constraint|
            #![trigger local.constraints.contains(c)]
            #![trigger incoming.constraints.contains(c)]
            local.constraints.contains(c) || incoming.constraints.contains(c) implies c.holds(
            after.values,
        ) by {
            assert(after.constraints.contains(c));
        }
    } else {
        let c = choose|c: Constraint| #[trigger]
            after.constraints.contains(c) && !c.holds(after.values);
        assert(local.constraints.contains(c) || incoming.constraints.contains(c));
    }
}

/// What a merge leaves where both sides have a value and disagree: the value that keeps
/// more of the local constraints when it alone is put among the local values as they were;
/// on equal counts above zero, the mean of the two with a half going away from zero; and
/// the local value where neither keeps any.
pub proof fn merge_settles_each_disagreement(local: StateView, incoming: StateView, i: int)
    requires
        0 <= i < local.values.len(),
        i < incoming.values.len(),
        local.values[i] != incoming.values[i],
    ensures
        ({
            let mine = local.values[i];
            let other = incoming.values[i];
            let ours = constraint::score(local.constraints, local.values);
            let theirs = constraint::score(local.constraints, local.values.update(i, other));
            let after = local.merged(incoming).values[i];
            let sum = mine + other;
            &&& ours > theirs ==> after == mine
            &&& theirs > ours ==> after == other
            &&& ours == 0 && theirs == 0 ==> after == mine
            &&& ours == theirs && ours > 0 ==> {
                &&& sum % 2 == 0 ==> 2 * after == sum
                &&& sum % 2 != 0 && sum > 0 ==> 2 * after == sum + 1
                &&& sum % 2 != 0 && sum < 0 ==> 2 * after == sum - 1
            }
        }),
{
    let other = incoming.values[i];
    settlement::placing_the_present_value(local.values, i);
    settlement::placing_replaces(local.values, i, other);
    settlement::resolution_follows_the_scores(
        local.constraints,
        local.values[i],
        other,
        i,
        local.values,
    );
}

/// No index is lost: the merged state has as many values as the longer side, an index
/// that only one side has keeps that side's value, and agreement is kept.
pub proof fn merge_loses_no_index(local: StateView, incoming: StateView)
    ensures
        ({
            let after = local.merged(incoming).values;
            &&& after.len() == model::longer(local.values.len(), incoming.values.len())
            &&& after.len() >= local.values.len() && after.len() >= incoming.values.len()
            &&& after.len() == local.values.len() || after.len() == incoming.values.len()
            &&& forall|i: int|
                incoming.values.len() <= i < local.values.len() ==> #[trigger] after[i]
                    == local.values[i]
            &&& forall|i: int|
                local.values.len() <= i < incoming.values.len() ==> #[trigger] after[i]
                    == incoming.values[i]
            &&& forall|i: int|
                0 <= i < local.values.len() && i < incoming.values.len() && local.values[i]
                    == incoming.values[i] ==> #[trigger] after[i] == local.values[i]
        }),
{
}

/// Where both sides have a value, the merged one lies within their span.
pub proof fn merged_values_are_between(local: StateView, incoming: StateView, i: int)
    requires
        0 <= i < local.values.len(),
        i < incoming.values.len(),
    ensures
        ({
            let after = local.merged(incoming).values[i];
            ||| local.values[i] <= after <= incoming.values[i]
            ||| incoming.values[i] <= after <= local.values[i]
        }),
{
    settlement::resolution_is_between(
        local.constraints,
        local.values[i],
        incoming.values[i],
        i,
        local.values,
    );
}

/// Without local constraints there is nothing to judge by, so every local value stays.
pub proof fn merge_without_constraints_keeps_local(local: StateView, incoming: StateView)
    requires
        local.constraints.len() == 0,
    ensures
        local.merged(incoming).values.take(local.values.len() as int) == local.values,
{
    assert forall|i: int| 0 <= i < local.values.len() implies local.merged(
        incoming,
    ).values[i] == local.values[i] by {
        if i < incoming.values.len() {
            settlement::full_score_means_all_hold(
                local.constraints,
                model::placed(local.values, i, local.values[i]),
            );
            settlement::full_score_means_all_hold(
                local.constraints,
                model::placed(local.values, i, incoming.values[i]),
            );
        }
    }
    assert(local.merged(incoming).values.take(local.values.len() as int) =~= local.values);
}

/// A merge that brings nothing new changes nothing: where the incoming values agree with
/// the local ones as far as they go, and every incoming constraint is known, the state
/// stays as it is and no conflict is counted. A node can so merge its own state, or a
/// state that it has just handed out.
pub proof fn merge_of_nothing_new_changes_nothing(local: StateView, incoming: StateView)
    requires
        incoming.values.is_prefix_of(local.values),
        forall|k: int|
            0 <= k < incoming.constraints.len() ==> local.constraints.contains(
                #[trigger] incoming.constraints[k],
            ),
    ensures
        local.merged(incoming) == local,
        local.merge_outcome(incoming).conflicts_resolved == 0,
{
    union_with_known(local.constraints, incoming.constraints);
    let found = model::conflicts(local.values, incoming.values);
    conflicts_are_the_disagreements(local.values, incoming.values);
    assert forall|i: int| 0 <= i < incoming.values.len() implies local.values[i]
        == incoming.values[i] by {
        assert(local.values.subrange(0, incoming.values.len() as int)[i] == incoming.values[i]);
    }
    assert(local.merged(incoming).values =~= local.values);
    if found.len() > 0 {
        assert(found.contains(found[0]));
    }
}

/// Each index is settled on its own: the merged value at `i` depends on the local state
/// and on what comes in at `i`, and on no other incoming value.
pub proof fn indices_are_settled_independently(
    local: StateView,
    incoming: StateView,
    other: StateView,
    i: int,
)
    requires
        0 <= i < local.merged(incoming).values.len(),
        i < incoming.values.len() <==> i < other.values.len(),
        i < incoming.values.len() ==> incoming.values[i] == other.values[i],
    ensures
        i < local.merged(other).values.len(),
        local.merged(incoming).values[i] == local.merged(other).values[i],
{
}

/// Equal local values and constraints and equal incoming values give equal merged values
/// and as many conflicts, whatever constraints come in, whoever the agents are and
/// whatever was merged before. With equal incoming constraints too, the whole outcome is
/// the same; only the time stamp tells two such merges apart.
pub proof fn merge_is_deterministic(
    node: NodeView,
    twin: NodeView,
    incoming: StateView,
    other: StateView,
)
    requires
        node.state.values == twin.state.values,
        node.state.constraints == twin.state.constraints,
        incoming.values == other.values,
    ensures
        ({
            let outcome = node.state.merge_outcome(incoming);
            let echo = twin.state.merge_outcome(other);
            &&& outcome.merged.values == echo.merged.values
            &&& outcome.conflicts_resolved == echo.conflicts_resolved
            &&& incoming.constraints == other.constraints ==> {
                &&& outcome.merged.constraints == echo.merged.constraints
                &&& outcome.constraints_preserved == echo.constraints_preserved
            }
        }),
{
    assert(node.state.merged_values(incoming.values) =~= twin.state.merged_values(other.values));
}

// ---------------------------------------------------------------------------
// What a merge leaves in the node
// ---------------------------------------------------------------------------

/// The log only grows, the newest entry tells who was merged and with what outcome, the
/// node now holds the merged state under its own name, and a check of all constraints
/// right after the merge agrees with the outcome.
pub proof fn merge_is_logged(node: NodeView, incoming: StateView)
    ensures
        ({
            let after = node.merged_with(incoming);
            let outcome = node.state.merge_outcome(incoming);
            &&& node.history.is_prefix_of(after.history)
            &&& after.history.len() == node.history.len() + 1
            &&& after.clock == node.clock + 1
            &&& after.history.last().from_agent == incoming.agent_id
            &&& after.history.last().timestamp == node.clock + 1
            &&& after.history.last().result == outcome
            &&& after.state == outcome.merged
            &&& after.state.agent_id == node.state.agent_id
            &&& after.state.satisfied() == outcome.constraints_preserved
        }),
{
}

/// Time stamps rise strictly along the log of a valid node.
pub proof fn timestamps_rise(node: NodeView, i: int, j: int)
    requires
        node.valid(),
        0 <= i < j < node.history.len(),
    ensures
        node.history[i].timestamp < node.history[j].timestamp <= node.clock,
{
    assert(node.entry_valid(i));
    assert(node.entry_valid(j));
}

} // verus!
