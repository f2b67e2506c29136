//! The node: local state, merge, and the log of merges.

use vstd::prelude::*;

use crate::average::round_avg;
use crate::constraint;
use crate::constraint::all_satisfied;
use crate::constraint::contains;
use crate::constraint::count_satisfied;
use crate::constraint::Constraint;
use crate::laws;
use crate::model;
use crate::model::NodeView;
use crate::settlement;
use crate::state;
use crate::state::ConstraintState;
use crate::state::MergeLog;
use crate::state::MergeResult;
use crate::text;
use crate::text::push_decimal;

verus! {

/// A CRDT node that merges by **preserving constraints** rather than
/// last-write-wins.
///
/// # Merge Strategy
///
/// For every index where local and incoming values differ:
/// 1. Count how many **local constraints** each candidate satisfies.
/// 2. Prefer the candidate that satisfies *more* constraints.
/// 3. If tie: take the rounded average.
/// 4. If **neither** satisfies any constraint, keep local (defensive).
pub struct CrdtNode {
    state: ConstraintState,
    merge_history: Vec<MergeLog>,
    clock: u64,
}

impl View for CrdtNode {
    type V = NodeView;

    closed spec fn view(&self) -> NodeView {
        NodeView {
            state: self.state@,
            history: state::log_views(self.merge_history@),
            clock: self.clock as nat,
        }
    }
}

/// What `add_constraint` answers where an index does not exist.
pub open spec fn constraint_refusal(a: usize, b: usize, len: nat) -> Seq<char> {
    "indices ("@ + text::decimal(a as nat) + ","@ + text::decimal(b as nat)
        + ") out of range for values of length "@ + text::decimal(len)
}

/// What `local_set` answers where the index does not exist.
pub open spec fn index_refusal(index: usize, len: nat) -> Seq<char> {
    "index "@ + text::decimal(index as nat) + " out of range (len "@
        + text::decimal(len) + ")"@
}

/// A refusal names the indices that were asked for and the number of values there are.
pub proof fn refusals_name_indices_and_length(a: usize, b: usize, len: nat)
    ensures
        constraint_refusal(a, b, len) == "indices ("@ + text::decimal(a as nat) + ","@
            + text::decimal(b as nat) + ") out of range for values of length "@ + text::decimal(
            len,
        ),
        index_refusal(a, len) == "index "@ + text::decimal(a as nat) + " out of range (len "@
            + text::decimal(len) + ")"@,
{
}

impl CrdtNode {
    #[verifier::type_invariant]
    spec fn inv(self) -> bool {
        self@.valid()
    }

    /// Create a new node with `agent_id` and `initial_values`.
    ///
    /// No constraints are installed by default.
    pub fn new(agent_id: String, initial_values: Vec<i64>) -> (node: Self)
        ensures
            node@ == NodeView::fresh(agent_id@, initial_values@),
            node@.state.agent_id == agent_id@,
            node@.state.values == initial_values@,
            node@.state.constraints.len() == 0,
            node@.history.len() == 0,
            node@.valid(),
    {
        proof {
            laws::fresh_is_valid(agent_id@, initial_values@);
        }
        let merge_history: Vec<MergeLog> = Vec::new();
        assert(state::log_views(merge_history@) =~= Seq::empty());
        Self {
            state: ConstraintState {
                agent_id,
                values: initial_values,
                constraints: Vec::new(),
            },
            merge_history,
            clock: 0,
        }
    }

    /// Add a constraint between indices `a` and `b` with maximum allowed diff.
    ///
    /// Returns `Err` if either index is out of range (values must already exist).
    /// Adding a constraint that is already there changes nothing.
    pub fn add_constraint(&mut self, a: usize, b: usize, max_diff: i64) -> (added: Result<
        (),
        String,
    >)
        ensures
            added is Ok <==> a < old(self)@.state.values.len() && b < old(self)@.state.values.len(),
            added is Ok ==> final(self)@ == old(self)@.with_constraint(
                (Constraint { index_a: a, index_b: b, max_diff }),
            ),
            added matches Err(message) ==> message@ == constraint_refusal(
                a,
                b,
                old(self)@.state.values.len(),
            ) && final(self)@ == old(self)@,
            added is Ok ==> old(self)@.state.constraints.is_prefix_of(
                final(self)@.state.constraints,
            ),
            added is Ok ==> forall|d: Constraint| #[trigger]
                final(self)@.state.constraints.contains(d) <==> old(
                    self,
                )@.state.constraints.contains(d) || d == (Constraint {
                    index_a: a,
                    index_b: b,
                    max_diff,
                }),
            final(self)@.state.values == old(self)@.state.values,
            final(self)@.state.agent_id == old(self)@.state.agent_id,
            final(self)@.history == old(self)@.history,
            final(self)@.valid(),
    {
        proof {
            use_type_invariant(&*self);
        }
        let len: usize = self.state.values.len();
        if a >= len || b >= len {
            let mut message = String::new();
            message.append("indices (");
            push_decimal(&mut message, a as u64);
            message.append(",");
            push_decimal(&mut message, b as u64);
            message.append(") out of range for values of length ");
            push_decimal(&mut message, len as u64);
            return Err(message);
        }
        let constraint = Constraint { index_a: a, index_b: b, max_diff };
        proof {
            laws::with_constraint_keeps_valid(self@, constraint);
            laws::with_constraint_loses_nothing(self@, constraint);
        }
        if !contains(self.state.constraints.as_slice(), &constraint) {
            let CrdtNode { mut state, merge_history, clock } = self.take();
            state.constraints.push(constraint);
            *self = CrdtNode { state, merge_history, clock };
        }
        Ok(())
    }

    /// Set a local value at `index`.
    ///
    /// Returns `Ok` if the value was set, whether or not it keeps the constraints.
    /// Returns `Err` if `index` is out of range.
    pub fn local_set(&mut self, index: usize, value: i64) -> (set: Result<(), String>)
        ensures
            set is Ok <==> index < old(self)@.state.values.len(),
            set is Ok ==> final(self)@ == old(self)@.with_value(index as int, value),
            set is Ok ==> final(self)@.state.values == old(self)@.state.values.update(
                index as int,
                value,
            ),
            final(self)@.state.constraints == old(self)@.state.constraints,
            final(self)@.state.agent_id == old(self)@.state.agent_id,
            final(self)@.history == old(self)@.history,
            set matches Err(message) ==> message@ == index_refusal(
                index,
                old(self)@.state.values.len(),
            ) && final(self)@ == old(self)@,
            final(self)@.valid(),
    {
        proof {
            use_type_invariant(&*self);
        }
        let len: usize = self.state.values.len();
        if index >= len {
            let mut message = String::new();
            message.append("index ");
            push_decimal(&mut message, index as u64);
            message.append(" out of range (len ");
            push_decimal(&mut message, len as u64);
            message.append(")");
            return Err(message);
        }
        proof {
            laws::with_value_keeps_valid(self@, index as int, value);
        }
        let CrdtNode { mut state, merge_history, clock } = self.take();
        state.values.set(index, value);
        *self = CrdtNode { state, merge_history, clock };
        Ok(())
    }

    /// Merge an incoming [`ConstraintState`] into this node.
    ///
    /// The merge is **per-index**: for each entry where local and incoming differ,
    /// the strategy described at [`CrdtNode`] applies. Indices that only one side has
    /// keep the value of that side, and the constraints of both sides are united. The
    /// node takes the merged state over and logs the merge.
    pub fn merge(&mut self, incoming: &ConstraintState) -> (result: MergeResult)
        ensures
            result@ == old(self)@.state.merge_outcome(incoming@),
            final(self)@ == old(self)@.merged_with(incoming@),
            final(self)@.state == result@.merged,
            final(self)@.state.agent_id == old(self)@.state.agent_id,
            forall|c: Constraint| #[trigger]
                final(self)@.state.constraints.contains(c) <==> old(
                    self,
                )@.state.constraints.contains(c) || incoming@.constraints.contains(c),
            old(self)@.state.constraints.is_prefix_of(final(self)@.state.constraints),
            result@.conflicts_resolved == Set::new(
                |i: int|
                    0 <= i < old(self)@.state.values.len() && i < incoming@.values.len() && old(
                        self,
                    )@.state.values[i] != incoming@.values[i],
            ).len(),
            result.constraints_preserved == final(self)@.state.satisfied(),
            old(self)@.history.is_prefix_of(final(self)@.history),
            final(self)@.history.len() == old(self)@.history.len() + 1,
            final(self)@.history.last().timestamp == final(self)@.history.len(),
            final(self)@.history.last().from_agent == incoming@.agent_id,
            final(self)@.history.last().result == result@,
            final(self)@.valid(),
    {
        proof {
            use_type_invariant(&*self);
            laws::merge_keeps_valid(self@, incoming@);
            laws::merge_pools_the_constraints(self@.state, incoming@);
            laws::merge_counts_the_disagreements(self@.state, incoming@);
        }
        let (values, conflicts_resolved) = Self::merge_values(&self.state, &incoming.values);
        let constraints = Self::unite(&self.state.constraints, &incoming.constraints);
        let constraints_preserved = all_satisfied(constraints.as_slice(), values.as_slice());
        let merged = ConstraintState { agent_id: self.state.agent_id.clone(), values, constraints };
        let result = MergeResult {
            merged: merged.clone(),
            conflicts_resolved,
            constraints_preserved,
        };

        let CrdtNode { state: _, mut merge_history, clock } = self.take();
        let ghost past = merge_history@;
        // The clock counts the entries of the log, so it cannot wrap before the log is full.
        let now: u64 = clock.wrapping_add(1);
        merge_history.push(
            MergeLog {
                timestamp: now,
                from_agent: incoming.agent_id.clone(),
                result: result.clone(),
            },
        );
        proof {
            assert(past.len() < merge_history.len());
            assert(state::log_views(merge_history@) =~= state::log_views(past).push(
                merge_history@.last()@,
            ));
        }
        *self = CrdtNode { state: merged, merge_history, clock: now };
        result
    }

    /// Moves the node out, leaving an empty one in its place.
    fn take(&mut self) -> (node: CrdtNode)
        ensures
            node@ == old(self)@,
    {
        let mut node = CrdtNode::new(String::new(), Vec::new());
        std::mem::swap(self, &mut node);
        node
    }

    /// The merged values, and the number of indices on which the two sides disagreed.
    ///
    /// Every disagreement is settled against the local values as they were before the
    /// merge, so no settlement depends on another.
    fn merge_values(local: &ConstraintState, incoming: &Vec<i64>) -> (merged: (Vec<i64>, usize))
        ensures
            merged.0@ == local@.merged_values(incoming@),
            merged.1 == model::conflicts(local.values@, incoming@).len(),
    {
        let ours: usize = local.values.len();
        let theirs: usize = incoming.len();
        let mut values: Vec<i64> = Vec::new();
        let mut conflicts: usize = 0;
        let common: usize = if ours <= theirs {
            ours
        } else {
            theirs
        };
        let ghost disagree = model::differs(local.values@, incoming@);
        let ghost wanted = local@.merged_values(incoming@);

        let mut i: usize = 0;
        while i < common
            invariant
                i <= common,
                common <= ours == local.values.len(),
                common <= theirs == incoming.len(),
                wanted == local@.merged_values(incoming@),
                disagree == model::differs(local.values@, incoming@),
                values@ == wanted.take(i as int),
                conflicts <= i,
                conflicts == model::indices(i as nat).filter(disagree).len(),
            decreases common - i,
        {
            let mine: i64 = local.values[i];
            let other: i64 = incoming[i];
            proof {
                let done = model::indices(i as nat);
                assert(model::indices((i + 1) as nat) =~= done.push(i as int));
                done.lemma_filter_len_push(disagree, i as int);
            }
            if mine != other {
                values.push(
                    Self::resolve_conflict(
                        local.constraints.as_slice(),
                        mine,
                        other,
                        i,
                        local.values.as_slice(),
                    ),
                );
                conflicts = conflicts + 1;
            } else {
                values.push(mine);
            }
            assert(values@ =~= wanted.take(i + 1));
            i = i + 1;
        }
        // At most one side has indices left; they carry over as they are.
        while i < ours
            invariant
                common <= i <= ours,
                ours == local.values.len(),
                common == ours || common == theirs,
                theirs == incoming.len(),
                wanted == local@.merged_values(incoming@),
                values@ == wanted.take(i as int),
            decreases ours - i,
        {
            values.push(local.values[i]);
            assert(values@ =~= wanted.take(i + 1));
            i = i + 1;
        }
        while i < theirs
            invariant
                i <= wanted.len(),
                ours <= i,
                ours == local.values.len(),
                theirs == incoming.len(),
                wanted == local@.merged_values(incoming@),
                values@ == wanted.take(i as int),
            decreases theirs - i,
        {
            values.push(incoming[i]);
            assert(values@ =~= wanted.take(i + 1));
            i = i + 1;
        }
        assert(wanted.take(i as int) =~= wanted);
        (values, conflicts)
    }

    /// Resolve a conflict at position `pos` between `local` and `incoming`.
    ///
    /// `baseline` is the *original* local values before any conflict resolution,
    /// so each index is evaluated independently (no chain dependencies). Where it does not
    /// reach `pos`, it is padded with zeros.
    ///
    /// The result lies between the two candidates, and every constraint that both of them
    /// keep is kept by it.
    pub fn resolve_conflict(
        constraints: &[Constraint],
        local: i64,
        incoming: i64,
        pos: usize,
        baseline: &[i64],
    ) -> (resolved: i64)
        requires
            pos < usize::MAX,
        ensures
            resolved == model::resolution(
                constraints@,
                local,
                incoming,
                pos as int,
                baseline@,
            ),
            ({
                let ours = constraint::score(
                    constraints@,
                    model::placed(baseline@, pos as int, local),
                );
                let theirs = constraint::score(
                    constraints@,
                    model::placed(baseline@, pos as int, incoming),
                );
                &&& ours > theirs ==> resolved == local
                &&& theirs > ours ==> resolved == incoming
                &&& ours == theirs && ours == 0 ==> resolved == local
                &&& ours == theirs && ours > 0 ==> -1 <= 2 * resolved - (local + incoming) <= 1
            }),
            local <= resolved <= incoming || incoming <= resolved <= local,
            forall|c: Constraint|
                c.holds(model::placed(baseline@, pos as int, local)) && c.holds(
                    model::placed(baseline@, pos as int, incoming),
                ) ==> #[trigger] c.holds(model::placed(baseline@, pos as int, resolved)),
    {
        proof {
            let at: int = pos as int;
            settlement::resolution_is_between(constraints@, local, incoming, at, baseline@);
            assert forall|c: Constraint|
                c.holds(model::placed(baseline@, at, local)) && c.holds(
                    model::placed(baseline@, at, incoming),
                ) implies #[trigger] c.holds(
                model::placed(
                    baseline@,
                    at,
                    model::resolution(constraints@, local, incoming, at, baseline@),
                ),
            ) by {
                settlement::resolution_keeps_common_ground(
                    c,
                    constraints@,
                    local,
                    incoming,
                    at,
                    baseline@,
                );
            }
        }
        let with_local = Self::place(baseline, pos, local);
        let with_incoming = Self::place(baseline, pos, incoming);
        let local_score: usize = count_satisfied(constraints, with_local.as_slice());
        let incoming_score: usize = count_satisfied(constraints, with_incoming.as_slice());

        if local_score > incoming_score {
            local
        } else if incoming_score > local_score {
            incoming
        } else if local_score > 0 {
            // Tie, both > 0: take the rounded average
            round_avg(local, incoming)
        } else {
            // Neither satisfies any constraint: keep local (defensive)
            local
        }
    }

    /// `baseline` with `value` at `pos`, padded with zeros where `pos` lies beyond it.
    fn place(baseline: &[i64], pos: usize, value: i64) -> (values: Vec<i64>)
        requires
            pos < usize::MAX,
        ensures
            values@ == model::placed(baseline@, pos as int, value),
    {
        let mut values: Vec<i64> = vstd::slice::slice_to_vec(baseline);
        if pos >= values.len() {
            values.resize(pos + 1, 0);
            assert forall|i: int| 0 <= i < baseline@.len() implies values@[i] == baseline@[i] by {
                assert(values@.subrange(0, baseline@.len() as int)[i] == baseline@[i]);
            }
        }
        values.set(pos, value);
        assert(values@ =~= model::placed(baseline@, pos as int, value));
        values
    }

    /// `known` followed by those of `more` that it does not hold yet.
    fn unite(known: &Vec<Constraint>, more: &Vec<Constraint>) -> (all: Vec<Constraint>)
        ensures
            all@ == model::union(known@, more@),
    {
        let mut all: Vec<Constraint> = known.clone();
        assert(all@ =~= known@);
        assert(more@.take(0) =~= Seq::empty());
        let mut k: usize = 0;
        while k < more.len()
            invariant
                k <= more.len(),
                all@ == model::union(known@, more@.take(k as int)),
            decreases more.len() - k,
        {
            assert(more@.take(k + 1).drop_last() =~= more@.take(k as int));
            if !contains(all.as_slice(), &more[k]) {
                all.push(more[k].clone());
            }
            k = k + 1;
        }
        assert(more@.take(k as int) =~= more@);
        all
    }

    /// Verify that **all** constraints currently hold.
    pub fn check_all_constraints(&self) -> (all: bool)
        ensures
            all == self@.state.satisfied(),
            all <==> forall|c: Constraint| #[trigger]
                self@.state.constraints.contains(c) ==> {
                    &&& c.index_a < self@.state.values.len()
                    &&& c.index_b < self@.state.values.len()
                    &&& self@.state.values[c.index_a as int] - self@.state.values[c.index_b as int]
                        <= c.max_diff
                    &&& self@.state.values[c.index_b as int] - self@.state.values[c.index_a as int]
                        <= c.max_diff
                },
    {
        proof {
            constraint::all_hold_means_each_within_its_bound(
                self@.state.constraints,
                self@.state.values,
            );
        }
        all_satisfied(self.state.constraints.as_slice(), self.state.values.as_slice())
    }

    /// Immutable reference to the current state.
    pub fn state(&self) -> (state: &ConstraintState)
        ensures
            state@ == self@.state,
            state.agent_id@ == self@.state.agent_id,
            state.values@ == self@.state.values,
            state.constraints@ == self@.state.constraints,
            self@.valid(),
    {
        proof {
            use_type_invariant(&*self);
        }
        &self.state
    }

    /// Immutable reference to the merge history.
    pub fn merge_history(&self) -> (history: &[MergeLog])
        ensures
            state::log_views(history@) == self@.history,
            history@.len() == self@.history.len(),
            forall|i: int| 0 <= i < history@.len() ==> (#[trigger] history@[i])@ == self@.history[i],
            self@.valid(),
    {
        proof {
            use_type_invariant(&*self);
        }
        self.merge_history.as_slice()
    }
}

} // verus!
