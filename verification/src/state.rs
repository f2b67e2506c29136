//! The state that agents exchange, and the record of a merge.

use vstd::prelude::*;

use crate::constraint::Constraint;
use crate::model::LogView;
use crate::model::OutcomeView;
use crate::model::StateView;

verus! {

/// The constraint state of a single agent.
#[derive(Debug, PartialEq, Eq)]
pub struct ConstraintState {
    pub agent_id: String,
    pub values: Vec<i64>,
    pub constraints: Vec<Constraint>,
}

/// Outcome of a merge.
#[derive(Debug, PartialEq, Eq)]
pub struct MergeResult {
    pub merged: ConstraintState,
    pub conflicts_resolved: usize,
    pub constraints_preserved: bool,
}

/// A historical log entry recording a merge event.
#[derive(Debug, PartialEq, Eq)]
pub struct MergeLog {
    pub timestamp: u64,
    pub from_agent: String,
    pub result: MergeResult,
}

impl View for ConstraintState {
    type V = StateView;

    open spec fn view(&self) -> StateView {
        StateView {
            agent_id: self.agent_id@,
            values: self.values@,
            constraints: self.constraints@,
        }
    }
}

impl View for MergeResult {
    type V = OutcomeView;

    open spec fn view(&self) -> OutcomeView {
        OutcomeView {
            merged: self.merged@,
            conflicts_resolved: self.conflicts_resolved as nat,
            constraints_preserved: self.constraints_preserved,
        }
    }
}

impl View for MergeLog {
    type V = LogView;

    open spec fn view(&self) -> LogView {
        LogView {
            timestamp: self.timestamp as nat,
            from_agent: self.from_agent@,
            result: self.result@,
        }
    }
}

/// The views of a run of log entries.
pub open spec fn log_views(entries: Seq<MergeLog>) -> Seq<LogView> {
    entries.map_values(|entry: MergeLog| entry@)
}

impl Clone for ConstraintState {
    fn clone(&self) -> (copy: Self)
        ensures
            copy@ == self@,
    {
        ConstraintState {
            agent_id: self.agent_id.clone(),
            values: self.values.clone(),
            constraints: self.constraints.clone(),
        }
    }
}

impl Clone for MergeResult {
    fn clone(&self) -> (copy: Self)
        ensures
            copy@ == self@,
    {
        MergeResult {
            merged: self.merged.clone(),
            conflicts_resolved: self.conflicts_resolved,
            constraints_preserved: self.constraints_preserved,
        }
    }
}

impl Clone for MergeLog {
    fn clone(&self) -> (copy: Self)
        ensures
            copy@ == self@,
    {
        MergeLog {
            timestamp: self.timestamp,
            from_agent: self.from_agent.clone(),
            result: self.result.clone(),
        }
    }
}

/// The views show every field as it is.
pub proof fn views_show_every_field(state: ConstraintState, result: MergeResult, entry: MergeLog)
    ensures
        state@.agent_id == state.agent_id@,
        state@.values == state.values@,
        state@.constraints == state.constraints@,
        result@.merged == result.merged@,
        result@.conflicts_resolved == result.conflicts_resolved,
        result@.constraints_preserved == result.constraints_preserved,
        entry@.timestamp == entry.timestamp,
        entry@.from_agent == entry.from_agent@,
        entry@.result == entry.result@,
{
}

/// A run of log entries is viewed entry by entry, in order.
pub proof fn log_views_keep_place(entries: Seq<MergeLog>)
    ensures
        log_views(entries).len() == entries.len(),
        forall|i: int|
            0 <= i < entries.len() ==> #[trigger] log_views(entries)[i] == entries[i]@,
{
}

} // verus!
