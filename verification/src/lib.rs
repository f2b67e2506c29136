//! # fleet-crdt
//!
//! Constraint-native merge of replicated fleet state.
//!
//! Every agent holds a vector of values and a list of pairwise bounds on them.
//! A merge settles each index on which two agents disagree by asking which
//! candidate keeps more of the local bounds, instead of asking which write came
//! last.
//!
//! - [`CrdtNode`]: an agent's node, which holds a state, merges others into it, and
//!   keeps a log of its merges.
//! - [`ConstraintState`]: the values and constraints that agents exchange.
//! - [`Constraint`]: a pairwise bound, `|values[a] - values[b]| <= max_diff`.
//! - [`MergeResult`] and [`MergeLog`]: the outcome of a merge, and its record.
//!
//! The meaning of every operation is given in [`model`]; [`settlement`], [`laws`] and
//! [`convergence`] prove what follows from it.
//!
//! ```
//! use fleet_crdt::CrdtNode;
//!
//! let mut node = CrdtNode::new("agent-a".into(), vec![10, 20, 30]);
//! node.add_constraint(0, 1, 15).unwrap();
//! let other = CrdtNode::new("agent-b".into(), vec![5, 25, 30]);
//! let result = node.merge(other.state());
//! assert!(result.constraints_preserved);
//! ```

pub mod average;
pub mod constraint;
pub mod convergence;
pub mod laws;
pub mod model;
pub mod node;
pub mod settlement;
pub mod state;
pub mod text;

pub use average::round_avg;
pub use constraint::Constraint;
pub use node::CrdtNode;
pub use state::ConstraintState;
pub use state::MergeLog;
pub use state::MergeResult;
