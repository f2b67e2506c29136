//! What a merge means, over mathematical values.
//!
//! The views of the executable types live here, together with the functions that say
//! what each operation of a node does to them.

use vstd::prelude::*;

use crate::average;
use crate::constraint;
use crate::constraint::Constraint;

verus! {

/// The view of a `ConstraintState`.
#[verifier::ext_equal]
pub struct StateView {
    pub agent_id: Seq<char>,
    pub values: Seq<i64>,
    pub constraints: Seq<Constraint>,
}

/// The view of a `MergeResult`.
#[verifier::ext_equal]
pub struct OutcomeView {
    pub merged: StateView,
    pub conflicts_resolved: nat,
    pub constraints_preserved: bool,
}

/// The view of a `MergeLog`.
#[verifier::ext_equal]
pub struct LogView {
    pub timestamp: nat,
    pub from_agent: Seq<char>,
    pub result: OutcomeView,
}

/// The view of a `CrdtNode`.
#[verifier::ext_equal]
pub struct NodeView {
    pub state: StateView,
    pub history: Seq<LogView>,
    pub clock: nat,
}

/// `baseline` with `value` at index `pos`, padded with zeros where `pos` lies beyond
/// its end.
pub open spec fn placed(baseline: Seq<i64>, pos: int, value: i64) -> Seq<i64> {
    Seq::new(
        if pos < baseline.len() {
            baseline.len()
        } else {
            (pos + 1) as nat
        },
        |i: int|
            if i == pos {
                value
            } else if i < baseline.len() {
                baseline[i]
            } else {
                0
            },
    )
}

/// What a disagreement at `pos` is settled to.
///
/// Each candidate is judged by the number of `constraints` kept when it alone is put
/// into `baseline`. The higher number wins; on equal numbers above zero the rounded
/// mean is taken; where neither keeps anything, `local` stays.
pub open spec fn resolution(
    constraints: Seq<Constraint>,
    local: i64,
    incoming: i64,
    pos: int,
    baseline: Seq<i64>,
) -> i64 {
    let local_score = constraint::score(constraints, placed(baseline, pos, local));
    let incoming_score = constraint::score(constraints, placed(baseline, pos, incoming));
    if local_score > incoming_score {
        local
    } else if incoming_score > local_score {
        incoming
    } else if local_score > 0 {
        average::rounded_average(local, incoming)
    } else {
        local
    }
}

/// `more` appended to `known`, leaving out whatever is already there.
pub open spec fn union(known: Seq<Constraint>, more: Seq<Constraint>) -> Seq<Constraint>
    decreases more.len(),
{
    if more.len() == 0 {
        known
    } else {
        learned(union(known, more.drop_last()), more.last())
    }
}

/// `known` with `c` at its end, unless `c` is already there.
pub open spec fn learned(known: Seq<Constraint>, c: Constraint) -> Seq<Constraint> {
    if known.contains(c) {
        known
    } else {
        known.push(c)
    }
}

/// The indices below `n`, in order.
pub open spec fn indices(n: nat) -> Seq<int> {
    Seq::new(n, |i: int| i)
}

/// The smaller of two lengths.
pub open spec fn shorter(m: nat, n: nat) -> nat {
    if m <= n {
        m
    } else {
        n
    }
}

/// The larger of two lengths.
pub open spec fn longer(m: nat, n: nat) -> nat {
    if m <= n {
        n
    } else {
        m
    }
}

/// The predicate "the two vectors disagree here", on indices.
pub open spec fn differs(local: Seq<i64>, incoming: Seq<i64>) -> spec_fn(int) -> bool {
    |i: int| local[i] != incoming[i]
}

/// The indices that both vectors have and on which they disagree, in order.
pub open spec fn conflicts(local: Seq<i64>, incoming: Seq<i64>) -> Seq<int> {
    indices(shorter(local.len(), incoming.len())).filter(differs(local, incoming))
}

impl StateView {
    /// Every constraint is on indices that exist.
    pub open spec fn in_range(self) -> bool {
        forall|k: int|
            0 <= k < self.constraints.len() ==> (#[trigger] self.constraints[k]).fits(
                self.values.len(),
            )
    }

    /// Every constraint is kept.
    pub open spec fn satisfied(self) -> bool {
        constraint::all_hold(self.constraints, self.values)
    }

    /// The value that a merge of `incoming` leaves at index `i`.
    pub open spec fn merged_value(self, incoming: Seq<i64>, i: int) -> i64 {
        if i >= self.values.len() {
            incoming[i]
        } else if i >= incoming.len() || self.values[i] == incoming[i] {
            self.values[i]
        } else {
            resolution(self.constraints, self.values[i], incoming[i], i, self.values)
        }
    }

    /// The values that a merge of `incoming` leaves.
    pub open spec fn merged_values(self, incoming: Seq<i64>) -> Seq<i64> {
        Seq::new(
            longer(self.values.len(), incoming.len()),
            |i: int| self.merged_value(incoming, i),
        )
    }

    /// The state that a merge of `incoming` leaves.
    pub open spec fn merged(self, incoming: StateView) -> StateView {
        StateView {
            agent_id: self.agent_id,
            values: self.merged_values(incoming.values),
            constraints: union(self.constraints, incoming.constraints),
        }
    }

    /// What a merge of `incoming` reports.
    pub open spec fn merge_outcome(self, incoming: StateView) -> OutcomeView {
        OutcomeView {
            merged: self.merged(incoming),
            conflicts_resolved: conflicts(self.values, incoming.values).len(),
            constraints_preserved: self.merged(incoming).satisfied(),
        }
    }
}

impl NodeView {
    /// A node that has seen nothing yet.
    pub open spec fn fresh(agent_id: Seq<char>, values: Seq<i64>) -> NodeView {
        NodeView {
            state: StateView { agent_id, values, constraints: Seq::empty() },
            history: Seq::empty(),
            clock: 0,
        }
    }

    /// The node once it knows `c`.
    pub open spec fn with_constraint(self, c: Constraint) -> NodeView {
        NodeView {
            state: StateView { constraints: learned(self.state.constraints, c), ..self.state },
            ..self
        }
    }

    /// The node with `value` at `index`.
    pub open spec fn with_value(self, index: int, value: i64) -> NodeView {
        NodeView {
            state: StateView { values: self.state.values.update(index, value), ..self.state },
            ..self
        }
    }

    /// The log entry that a merge of `incoming` adds.
    pub open spec fn merge_entry(self, incoming: StateView) -> LogView {
        LogView {
            timestamp: self.clock + 1,
            from_agent: incoming.agent_id,
            result: self.state.merge_outcome(incoming),
        }
    }

    /// The node after a merge of `incoming`.
    pub open spec fn merged_with(self, incoming: StateView) -> NodeView {
        NodeView {
            state: self.state.merged(incoming),
            history: self.history.push(self.merge_entry(incoming)),
            clock: self.clock + 1,
        }
    }

    /// What holds of the log entry at position `i`.
    ///
    /// It carries its place in the log as its time, it reports truthfully whether all
    /// constraints held, and what it recorded has not been lost since: the same agent
    /// owns the node, the values have not become fewer, and the constraints known then
    /// still head the list.
    pub open spec fn entry_valid(self, i: int) -> bool {
        let entry = self.history[i];
        let then = entry.result.merged;
        &&& entry.timestamp == i + 1
        &&& entry.result.constraints_preserved == then.satisfied()
        &&& then.agent_id == self.state.agent_id
        &&& then.values.len() <= self.state.values.len()
        &&& then.constraints.is_prefix_of(self.state.constraints)
    }

    /// What holds of every node, whatever has been done to it.
    ///
    /// No constraint is listed twice, the clock counts the merges, and every log entry
    /// is sound.
    pub open spec fn valid(self) -> bool {
        &&& self.state.constraints.no_duplicates()
        &&& self.clock == self.history.len()
        &&& forall|i: int| 0 <= i < self.history.len() ==> #[trigger] self.entry_valid(i)
    }
}

} // verus!
