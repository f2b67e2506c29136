use fleet_crdt::Constraint;
use fleet_crdt::ConstraintState;
use fleet_crdt::CrdtNode;

fn constraint(index_a: usize, index_b: usize, max_diff: i64) -> Constraint {
    Constraint { index_a, index_b, max_diff }
}

fn state(agent_id: &str, values: Vec<i64>, constraints: Vec<Constraint>) -> ConstraintState {
    ConstraintState { agent_id: agent_id.into(), values, constraints }
}

fn node(agent_id: &str, values: Vec<i64>, constraints: &[(usize, usize, i64)]) -> CrdtNode {
    let mut node = CrdtNode::new(agent_id.into(), values);
    for &(a, b, max_diff) in constraints {
        node.add_constraint(a, b, max_diff).unwrap();
    }
    node
}

#[test]
fn two_means_can_still_preserve_the_bound() {
    let mut a = node("agent-a", vec![10, 20, 30], &[(0, 1, 15)]);
    let result = a.merge(CrdtNode::new("agent-b".into(), vec![5, 25, 30]).state());
    assert!(result.constraints_preserved);
    assert_eq!(result.conflicts_resolved, 2);
    assert_eq!(result.merged.values, vec![8, 23, 30]);
}

#[test]
fn tie_takes_the_mean_and_leaves_the_rest() {
    let mut alice = node("alice", vec![10, 20, 30], &[(0, 1, 15)]);
    let bob = CrdtNode::new("bob".into(), vec![10, 0, 30]);
    let result = alice.merge(bob.state());
    assert_eq!(alice.state().values, vec![10, 10, 30]);
    assert_eq!(result.merged, *alice.state());
    assert!(result.constraints_preserved);
}

#[test]
fn incoming_with_more_kept_constraints_wins() {
    let mut alice = node("alice", vec![0, 100], &[(0, 1, 10)]);
    let result = alice.merge(&state("bob", vec![0, 4], vec![]));
    assert_eq!(result.merged.values, vec![0, 4]);
    assert!(result.constraints_preserved);
}

#[test]
fn only_local_constraints_judge_the_candidates() {
    // Bob's own bound would favour Bob's value, but Alice knows no bound yet.
    let mut alice = CrdtNode::new("alice".into(), vec![0, 100]);
    let result = alice.merge(&state("bob", vec![0, 4], vec![constraint(0, 1, 10)]));
    assert_eq!(result.merged.values, vec![0, 100]);
    assert_eq!(result.merged.constraints, vec![constraint(0, 1, 10)]);
    assert!(!result.constraints_preserved);
    // Now Alice knows it, and the same state wins.
    let again = alice.merge(&state("bob", vec![0, 4], vec![constraint(0, 1, 10)]));
    assert_eq!(again.merged.values, vec![0, 4]);
    assert!(again.constraints_preserved);
}

#[test]
fn tie_on_different_constraints_can_lose_both() {
    let mut alice = node("alice", vec![0, 0, 100], &[(0, 1, 1), (0, 2, 1)]);
    let result = alice.merge(&state("bob", vec![100, 0, 100], vec![]));
    assert_eq!(result.merged.values, vec![50, 0, 100]);
    assert!(!result.constraints_preserved);
}

#[test]
fn rounding_two_means_can_cost_one() {
    let mut alice = node("alice", vec![0, 0], &[(0, 1, 1)]);
    assert!(alice.check_all_constraints());
    let result = alice.merge(&state("bob", vec![1, -1], vec![]));
    assert_eq!(result.merged.values, vec![1, -1]);
    assert!(!result.constraints_preserved);
    assert!(constraint(0, 1, 2).satisfied_by(&result.merged.values));
}

#[test]
fn single_conflict_keeps_a_satisfied_state() {
    let mut alice = node("alice", vec![0, 10, 20], &[(0, 1, 10), (1, 2, 10)]);
    let result = alice.merge(&state("bob", vec![0, 11, 20], vec![]));
    assert_eq!(result.merged.values, vec![0, 10, 20]);
    assert!(result.constraints_preserved);
}

#[test]
fn exchange_settles_a_single_conflict() {
    let mut alice = node("alice", vec![5, 9], &[(0, 1, 10), (1, 0, 2)]);
    let mut bob = node("bob", vec![5, 12], &[(1, 0, 2), (0, 1, 10)]);
    let from_alice = alice.state().clone();
    let from_bob = bob.state().clone();
    alice.merge(&from_bob);
    bob.merge(&from_alice);
    assert_eq!(alice.state().values, vec![5, 11]);
    assert_eq!(alice.state().values, bob.state().values);
}

#[test]
fn exchange_without_a_kept_constraint_settles_nothing() {
    let mut alice = node("alice", vec![0, 50], &[(0, 1, 10)]);
    let mut bob = node("bob", vec![0, 60], &[(0, 1, 10)]);
    let from_alice = alice.state().clone();
    alice.merge(bob.state());
    bob.merge(&from_alice);
    assert_eq!(alice.state().values, vec![0, 50]);
    assert_eq!(bob.state().values, vec![0, 60]);
}

#[test]
fn merge_of_own_state_changes_nothing() {
    let mut alice = node("alice", vec![3, 1, 4], &[(0, 1, 1), (2, 2, 0)]);
    let before = alice.state().clone();
    let result = alice.merge(&before);
    assert_eq!(*alice.state(), before);
    assert_eq!(result.conflicts_resolved, 0);
    assert!(!result.constraints_preserved);
    assert_eq!(alice.merge_history().len(), 1);
}

#[test]
fn indices_are_settled_independently() {
    let constraints = [(0, 1, 5), (1, 2, 5)];
    let mut one = node("alice", vec![10, 12, 14], &constraints);
    let mut two = node("alice", vec![10, 12, 14], &constraints);
    one.merge(&state("bob", vec![10, 16, 14], vec![]));
    two.merge(&state("bob", vec![-1000, 16, 999], vec![]));
    assert_eq!(one.state().values[1], 12);
    assert_eq!(two.state().values, vec![10, 12, 14]);
}

#[test]
fn merge_is_deterministic() {
    let incoming = state("bob", vec![7, 8, 9, 10], vec![constraint(0, 3, 2)]);
    let renamed = state("carol", vec![7, 8, 9, 10], vec![constraint(0, 3, 2)]);
    let mut one = node("alice", vec![1, 8, 3], &[(0, 1, 7)]);
    let mut two = node("dora", vec![1, 8, 3], &[(0, 1, 7)]);
    two.merge(&state("eve", vec![], vec![]));
    let first = one.merge(&incoming);
    let second = two.merge(&renamed);
    assert_eq!(first.merged.values, vec![4, 8, 6, 10]);
    assert_eq!(first.merged.values, second.merged.values);
    assert_eq!(first.merged.constraints, second.merged.constraints);
    assert_eq!(first.conflicts_resolved, second.conflicts_resolved);
    assert_eq!(first.constraints_preserved, second.constraints_preserved);
    assert_eq!(one.merge_history()[0].timestamp, 1);
    assert_eq!(two.merge_history()[1].timestamp, 2);
}

#[test]
fn constraints_are_pooled_in_order_without_repetition() {
    let mut alice = node("alice", vec![1, 2, 3], &[(0, 1, 5), (1, 2, 5)]);
    let result = alice.merge(&state(
        "bob",
        vec![1, 2, 3],
        vec![
            constraint(0, 2, 9),
            constraint(1, 2, 5),
            constraint(0, 2, 9),
            constraint(0, 1, 4),
        ],
    ));
    assert_eq!(
        result.merged.constraints,
        vec![
            constraint(0, 1, 5),
            constraint(1, 2, 5),
            constraint(0, 2, 9),
            constraint(0, 1, 4)
        ]
    );
    assert!(result.constraints_preserved);
}

#[test]
fn constraint_on_a_missing_index_is_not_preserved() {
    let mut alice = CrdtNode::new("alice".into(), vec![1, 1]);
    let result = alice.merge(&state("bob", vec![1, 1], vec![constraint(0, 2, 100)]));
    assert!(!result.constraints_preserved);
    assert!(!alice.check_all_constraints());
    // Once the index arrives, the bound is judged like any other.
    let later = alice.merge(&state("carol", vec![1, 1, 50], vec![]));
    assert!(later.constraints_preserved);
    assert_eq!(later.conflicts_resolved, 0);
}

#[test]
fn every_local_value_stays_without_constraints() {
    let mut alice = CrdtNode::new("alice".into(), vec![1, 2]);
    let result = alice.merge(&state("bob", vec![9, 9, 9], vec![]));
    assert_eq!(result.merged.values, vec![1, 2, 9]);
    assert_eq!(result.conflicts_resolved, 2);
    assert!(result.constraints_preserved);
}

#[test]
fn merges_with_an_empty_side() {
    let mut empty = CrdtNode::new("alice".into(), vec![]);
    let result = empty.merge(&state("bob", vec![4, 5], vec![constraint(0, 1, 1)]));
    assert_eq!(result.merged, state("alice", vec![4, 5], vec![constraint(0, 1, 1)]));
    assert_eq!(result.conflicts_resolved, 0);
    assert!(result.constraints_preserved);
    let unchanged = empty.merge(&state("carol", vec![], vec![]));
    assert_eq!(unchanged.merged.values, vec![4, 5]);
}

#[test]
fn log_tells_who_when_and_what() {
    let mut alice = node("alice", vec![0, 10], &[(0, 1, 100)]);
    let first = alice.merge(&state("bob", vec![0, 4], vec![]));
    alice.local_set(0, 77).unwrap();
    let second = alice.merge(&state("carol", vec![77, 7], vec![]));
    let log = alice.merge_history();
    assert_eq!(log.len(), 2);
    assert_eq!(log[0].timestamp, 1);
    assert_eq!(log[0].from_agent, "bob");
    assert_eq!(log[0].result, first);
    assert_eq!(log[1].timestamp, 2);
    assert_eq!(log[1].from_agent, "carol");
    assert_eq!(log[1].result, second);
    assert_eq!(log[1].result.merged, *alice.state());
    assert_eq!(alice.state().agent_id, "alice");
    assert_eq!(alice.check_all_constraints(), second.constraints_preserved);
}

#[test]
fn settlement_of_swapped_candidates() {
    let loose = [constraint(0, 1, 100)];
    assert_eq!(CrdtNode::resolve_conflict(&loose, 3, 4, 1, &[0, 3]), 4);
    assert_eq!(CrdtNode::resolve_conflict(&loose, 4, 3, 1, &[0, 3]), 4);
    let tight = [constraint(0, 1, 3)];
    assert_eq!(CrdtNode::resolve_conflict(&tight, 3, 4, 1, &[0, 3]), 3);
    assert_eq!(CrdtNode::resolve_conflict(&tight, 4, 3, 1, &[0, 3]), 3);
    let hopeless = [constraint(0, 1, 1)];
    assert_eq!(CrdtNode::resolve_conflict(&hopeless, 3, 4, 1, &[0, 3]), 3);
    assert_eq!(CrdtNode::resolve_conflict(&hopeless, 4, 3, 1, &[0, 3]), 4);
}

#[test]
fn settlement_ignores_order_and_own_entry() {
    let one = [constraint(0, 1, 5), constraint(1, 2, 5), constraint(0, 1, 5)];
    let two = [constraint(1, 2, 5), constraint(0, 1, 5), constraint(0, 1, 5)];
    // At 12 only the bound with index 2 holds, at 4 the other one, which is listed twice.
    assert_eq!(CrdtNode::resolve_conflict(&one, 12, 4, 1, &[0, 12, 16]), 4);
    assert_eq!(CrdtNode::resolve_conflict(&two, 12, 4, 1, &[0, -999, 16]), 4);
}

#[test]
fn settlement_beyond_the_baseline_pads_with_zeros() {
    let constraints = [constraint(1, 2, 5)];
    assert_eq!(CrdtNode::resolve_conflict(&constraints, 50, 5, 2, &[9]), 5);
    assert_eq!(CrdtNode::resolve_conflict(&constraints, 4, 5, 2, &[9]), 5);
    assert_eq!(CrdtNode::resolve_conflict(&constraints, 50, 60, 2, &[]), 50);
}

#[test]
fn settlement_keeps_common_ground() {
    let constraints = [constraint(0, 1, 4), constraint(1, 2, 100)];
    let baseline = [10, 14, 20];
    let settled = CrdtNode::resolve_conflict(&constraints, 14, 7, 1, &baseline);
    assert_eq!(settled, 11);
    assert!(constraints[0].satisfied_by(&[10, settled, 20]));
    assert!(constraints[1].satisfied_by(&[10, settled, 20]));
}

#[test]
fn incoming_constraints_do_not_judge_values() {
    let mut one = node("alice", vec![0, 10], &[(0, 1, 100)]);
    let mut two = node("alice", vec![0, 10], &[(0, 1, 100)]);
    let plain = one.merge(&state("bob", vec![0, 4], vec![]));
    let strict = two.merge(&state("bob", vec![0, 4], vec![constraint(0, 1, 4)]));
    assert_eq!(plain.merged.values, vec![0, 7]);
    assert_eq!(plain.merged.values, strict.merged.values);
    assert_eq!(plain.conflicts_resolved, strict.conflicts_resolved);
    assert!(plain.constraints_preserved);
    assert!(!strict.constraints_preserved);
}
