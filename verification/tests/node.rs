use fleet_crdt::round_avg;
use fleet_crdt::Constraint;
use fleet_crdt::CrdtNode;

// -- Basic operations --

#[test]
fn test_new_node() {
    let node = CrdtNode::new("alice".into(), vec![10, 20, 30]);
    assert_eq!(node.state().values, vec![10, 20, 30]);
    assert_eq!(node.state().agent_id, "alice");
    assert!(node.state().constraints.is_empty());
}

#[test]
fn test_local_set() {
    let mut node = CrdtNode::new("alice".into(), vec![0, 0, 0]);
    node.local_set(0, 42).unwrap();
    assert_eq!(node.state().values[0], 42);
}

#[test]
fn test_local_set_out_of_range() {
    let mut node = CrdtNode::new("alice".into(), vec![0, 0]);
    assert!(node.local_set(5, 42).is_err());
}

#[test]
fn test_add_constraint() {
    let mut node = CrdtNode::new("alice".into(), vec![10, 20, 30]);
    node.add_constraint(0, 1, 15).unwrap();
    assert_eq!(node.state().constraints.len(), 1);
}

#[test]
fn test_add_constraint_dup() {
    let mut node = CrdtNode::new("alice".into(), vec![10, 20, 30]);
    node.add_constraint(0, 1, 15).unwrap();
    node.add_constraint(0, 1, 15).unwrap(); // duplicate - should be no-op
    assert_eq!(node.state().constraints.len(), 1);
}

#[test]
fn test_add_constraint_out_of_range() {
    let mut node = CrdtNode::new("alice".into(), vec![10, 20]);
    assert!(node.add_constraint(0, 5, 15).is_err());
}

#[test]
fn test_check_all_constraints_ok() {
    let mut node = CrdtNode::new("alice".into(), vec![10, 20, 30]);
    node.add_constraint(0, 1, 15).unwrap(); // |10-20|=10 <= 15 holds
    node.add_constraint(1, 2, 15).unwrap(); // |20-30|=10 <= 15 holds
    assert!(node.check_all_constraints());
}

#[test]
fn test_check_all_constraints_fail() {
    let mut node = CrdtNode::new("alice".into(), vec![10, 100, 30]);
    node.add_constraint(0, 1, 15).unwrap(); // |10-100|=90 > 15 fails
    assert!(!node.check_all_constraints());
}

#[test]
fn test_merge_history_empty() {
    let node = CrdtNode::new("alice".into(), vec![1, 2, 3]);
    assert!(node.merge_history().is_empty());
}

// -- Basic merge --

#[test]
fn test_basic_merge_identical() {
    let mut node_a = CrdtNode::new("alice".into(), vec![10, 20, 30]);
    let node_b = CrdtNode::new("bob".into(), vec![10, 20, 30]);
    let result = node_a.merge(node_b.state());
    assert_eq!(result.conflicts_resolved, 0);
    // No conflicts - values stay the same
    assert_eq!(node_a.state().values, vec![10, 20, 30]);
}

#[test]
fn test_basic_merge_simple_conflict() {
    let mut node_a = CrdtNode::new("alice".into(), vec![10, 20, 30]);
    let node_b = CrdtNode::new("bob".into(), vec![10, 100, 30]);
    let _result = node_a.merge(node_b.state());
    // Only index 1 differs - no constraints, so defensive: keep local
    assert_eq!(_result.conflicts_resolved, 1);
    assert_eq!(node_a.state().values[1], 20); // keep local (defensive)
}

// -- Constraint-preserving merge --

#[test]
fn test_constraint_preserving_merge() {
    // Alice has values [10, 20, 30] with |0-1| <= 15
    // Bob has values [10, 0, 30]
    // For index 1: local=20, incoming=0
    // Check constraints:
    //   local=20: |10-20|=10 <= 15 holds -> score 1
    //   incoming=0: |10-0|=10 <= 15 holds -> score 1
    // Tie! But both > 0, so average: (20+0)/2 = 10
    let mut node_a = CrdtNode::new("alice".into(), vec![10, 20, 30]);
    node_a.add_constraint(0, 1, 15).unwrap();

    let node_b = CrdtNode::new("bob".into(), vec![10, 0, 30]);
    let _result = node_a.merge(node_b.state());

    assert_eq!(_result.conflicts_resolved, 1);
    assert_eq!(node_a.state().values[1], 10); // average
}

#[test]
fn test_prefer_tighter_constraint() {
    // Alice has |0-1| <= 15. Values: [10, 20]. Constraint satisfied.
    // Bob has |0-1| <= 3. Values: [10, 14]. |10-14|=4 > 3, violated.
    // Alice's value [10,20] -> |10-20|=10 <= 15 holds (score 1)
    // Bob's value [10,14] -> |10-14|=4 > 3 fails, |10-14|=4 <= 15 holds (score 1)
    // Tie! Both score 1. Average: (20+14)/2 = 17
    let mut node_a = CrdtNode::new("alice".into(), vec![10, 20]);
    node_a.add_constraint(0, 1, 15).unwrap();

    let node_b = CrdtNode::new("bob".into(), vec![10, 14]);
    // not adding bob's constraint here - merge unions them

    let _result = node_a.merge(node_b.state());
    assert_eq!(node_a.state().values[1], 17); // (20+14)/2 = 17
    // Both constraints should now be checked
}

#[test]
fn test_prefer_value_that_satisfies_more_constraints() {
    // Alice: [10, 20, 30], constraints: |0-1| <= 15, |1-2| <= 15
    //   Both satisfied by local => score 2
    // Bob: [10, 5, 30], constraints: |0-1| <= 15, |1-2| <= 15
    //   |10-5|=5 <= 15 holds, |5-30|=25 > 15 fails => score 1
    // Alice wins (score 2 > 1) -> keep 20
    let mut node_a = CrdtNode::new("alice".into(), vec![10, 20, 30]);
    node_a.add_constraint(0, 1, 15).unwrap();
    node_a.add_constraint(1, 2, 15).unwrap();

    let mut node_b = CrdtNode::new("bob".into(), vec![10, 5, 30]);
    node_b.add_constraint(0, 1, 15).unwrap();
    node_b.add_constraint(1, 2, 15).unwrap();

    let _result = node_a.merge(node_b.state());
    assert_eq!(_result.conflicts_resolved, 1);
    assert_eq!(node_a.state().values[1], 20); // local wins (2 > 1)
    assert!(node_a.check_all_constraints());
}

// -- Defensive fallback --

#[test]
fn test_defensive_fallback_neither_satisfies() {
    // Alice: [100, 0], constraint: |0-1| <= 10
    // Bob: [0, 100], same constraint
    // Neither configuration satisfies the constraint outright.
    // Per-index resolution: each index is resolved independently against baseline.
    // For index 0 (100 vs 0): local candidate |100-0|=100 fails (0), incoming |0-0|=0 holds (1).
    //   Incoming wins -> value 0.
    // For index 1 (0 vs 100): local candidate |100-0|=100 fails (0), incoming |100-100|=0 holds (1).
    //   Incoming wins -> value 100.
    // Final: [0, 100] which still violates |0-100|=100>10 fails.
    // This demonstrates that independent per-index resolution cannot guarantee
    // perfect constraint satisfaction for cross-index constraints - a fundamentally
    // harder problem (constraint satisfaction / global optimization).
    let mut node_a = CrdtNode::new("alice".into(), vec![100, 0]);
    node_a.add_constraint(0, 1, 10).unwrap();

    let node_b = CrdtNode::new("bob".into(), vec![0, 100]);

    let _result = node_a.merge(node_b.state());
    assert_eq!(_result.conflicts_resolved, 2);
    // Both conflicts resolved independently; values become [0, 100]
    assert_eq!(node_a.state().values[0], 0);
    assert_eq!(node_a.state().values[1], 100);
}

// -- Merge history --

#[test]
fn test_merge_history_recorded() {
    let mut node_a = CrdtNode::new("alice".into(), vec![0, 0]);
    let node_b = CrdtNode::new("bob".into(), vec![1, 1]);
    node_a.merge(node_b.state());
    assert_eq!(node_a.merge_history().len(), 1);

    let log = &node_a.merge_history()[0];
    assert_eq!(log.from_agent, "bob");
    assert_eq!(log.result.conflicts_resolved, 2);
}

#[test]
fn test_merge_history_multiple() {
    let mut node_a = CrdtNode::new("alice".into(), vec![0, 0]);
    let node_b = CrdtNode::new("bob".into(), vec![1, 1]);
    let node_c = CrdtNode::new("carol".into(), vec![2, 2]);

    node_a.merge(node_b.state());
    node_a.merge(node_c.state());
    assert_eq!(node_a.merge_history().len(), 2);
    assert_eq!(node_a.merge_history()[0].from_agent, "bob");
    assert_eq!(node_a.merge_history()[1].from_agent, "carol");
}

// -- Multi-agent convergence --

#[test]
fn test_three_agent_convergence() {
    // Three agents with the same constraint, where one agent violates
    // but the other two satisfy - convergence through pairwise merge.
    // Alice: [10, 20, 30] |0-1| <= 5  fails (|10-20|=10)
    // Bob:   [15, 18, 30] |0-1| <= 5  holds (|15-18|=3)
    // Carol: [12, 16, 30] |0-1| <= 5  holds (|12-16|=4)

    let mut alice = CrdtNode::new("alice".into(), vec![10, 20, 30]);
    alice.add_constraint(0, 1, 5).unwrap();

    let mut bob = CrdtNode::new("bob".into(), vec![15, 18, 30]);
    bob.add_constraint(0, 1, 5).unwrap();

    let mut carol = CrdtNode::new("carol".into(), vec![12, 16, 30]);
    carol.add_constraint(0, 1, 5).unwrap();

    // Alice merges Bob: index 0 (10 vs 15), index 1 (20 vs 18)
    // Baseline [10,20,30]. Constraint |0-1|<=5.
    // Index 0: local cand [15,20,30] |15-20|=10>5 -> 0, incoming [10,20,30] |10-20|=10>5 -> 0. Both 0, keep local (10).
    // Index 1: local cand [10,20,30] |10-20|=10>5 -> 0, incoming [10,18,30] |10-18|=8>5 -> 0. Both 0, keep local (20).
    // Alice stays at [10,20,30] still violating - the merge can't fix her.
    alice.merge(bob.state());

    // But Alice's violation is irrelevant for convergence.
    // We need CONVERGENCE: after full exchange, all three should agree.
    // Bob merges Alice: index 0 (15 vs 10), index 1 (18 vs 20)
    // Baseline [15,18,30].
    // Index 0: local cand [15,18,30] |15-18|=3<=5 -> 1, incoming [10,18,30] |10-18|=8>5 -> 0. Local wins (1>0), keep 15.
    // Index 1: local cand [15,18,30] |15-18|=3<=5 -> 1, incoming [15,20,30] |15-20|=10>5 -> 0. Local wins (1>0), keep 18.
    // Bob stays [15,18,30].
    bob.merge(alice.state());

    // Carol merges Alice: index 0 (12 vs 10), index 1 (16 vs 20)
    // Baseline [12,16,30].
    // Index 0: local cand [12,16,30] |12-16|=4<=5 -> 1, incoming [10,16,30] |10-16|=6>5 -> 0. Local wins, keep 12.
    // Index 1: local cand [12,16,30] |12-16|=4<=5 -> 1, incoming [12,20,30] |12-20|=8>5 -> 0. Local wins, keep 16.
    // Carol stays [12,16,30].
    carol.merge(alice.state());

    // Bob merges Carol
    // Index 0: 15 vs 12. Baseline [15,18,30].
    //   local cand [15,18,30] |15-18|=3<=5 -> 1, incoming [12,18,30] |12-18|=6>5 -> 0. Local wins 15.
    // Index 1: 18 vs 16. Baseline [15,18,30].
    //   local cand [15,18,30] |15-18|=3<=5 -> 1, incoming [15,16,30] |15-16|=1<=5 -> 1. Tie! Both 1. Avg=(18+16)/2=17.
    bob.merge(carol.state());

    // Carol merges Bob
    // Index 0: 12 vs 15. Baseline [12,16,30].
    //   local cand [12,16,30] |12-16|=4<=5 -> 1, incoming [15,16,30] |15-16|=1<=5 -> 1. Tie! Avg=(12+15)/2=14 (13.5 rounds to 14).
    // Index 1: 16 vs 18. Baseline [12,16,30].
    //   local cand [12,16,30] |12-16|=4<=5 -> 1, incoming [12,18,30] |12-18|=6>5 -> 0. Local wins 16.
    carol.merge(bob.state());

    // Bob merges Carol again (now [14, 17, 30]... wait let me recalculate)
    // After first Bob-Carol merge: Bob=[15,17,30], Carol=[14,16,30]
    bob.merge(carol.state());

    // Carol merges Bob again
    carol.merge(bob.state());

    // Both should be the same now
    assert_eq!(bob.state().values, carol.state().values);
}

#[test]
fn test_constraint_union_on_merge() {
    // Alice has one constraint, Bob has a different one.
    // After merge, Alice should have both.
    let mut alice = CrdtNode::new("alice".into(), vec![10, 20, 30]);
    alice.add_constraint(0, 1, 15).unwrap();

    let mut bob = CrdtNode::new("bob".into(), vec![10, 20, 30]);
    bob.add_constraint(1, 2, 15).unwrap();

    alice.merge(bob.state());
    assert_eq!(alice.state().constraints.len(), 2);
}

// -- Specific scenarios --

#[test]
fn test_merge_into_larger_state() {
    // Alice has 3 values, Bob has 5. After merge, Alice should have 5.
    let mut alice = CrdtNode::new("alice".into(), vec![1, 2, 3]);
    let bob = CrdtNode::new("bob".into(), vec![1, 2, 3, 4, 5]);
    alice.merge(bob.state());
    assert_eq!(alice.state().values.len(), 5);
    assert_eq!(alice.state().values[3], 4);
    assert_eq!(alice.state().values[4], 5);
}

#[test]
fn test_merge_into_smaller_state() {
    // Alice has 5 values, Bob has 3. Non-overlapping extra indices stay.
    let mut alice = CrdtNode::new("alice".into(), vec![1, 2, 3, 99, 100]);
    let bob = CrdtNode::new("bob".into(), vec![10, 20, 30]);
    alice.merge(bob.state());
    // Alice keeps her extra indices (3, 4)
    assert_eq!(alice.state().values.len(), 5);
    // Index 0: 1 vs 10 - no constraints, keep local
    assert_eq!(alice.state().values[0], 1);
    // Index 3,4: no incoming conflict, keep originals
    assert_eq!(alice.state().values[3], 99);
}

#[test]
fn test_tie_breaking_average() {
    // Two values, one constraint that both satisfy equally.
    let mut node = CrdtNode::new("a".into(), vec![0, 10]);
    node.add_constraint(0, 1, 100).unwrap(); // very loose - both values satisfy

    let incoming_node = CrdtNode::new("b".into(), vec![0, 4]);
    let _result = node.merge(incoming_node.state());
    assert_eq!(_result.conflicts_resolved, 1);
    // local=10, incoming=4, both score 1 (only constraint is loose enough)
    // average = (10+4)/2 = 7
    assert_eq!(node.state().values[1], 7);
}

#[test]
fn test_multi_index_conflict() {
    let mut node_a = CrdtNode::new("alice".into(), vec![0, 10, 0, 10]);
    node_a.add_constraint(0, 1, 100).unwrap();
    node_a.add_constraint(2, 3, 100).unwrap();

    let node_b = CrdtNode::new("bob".into(), vec![0, 20, 0, 5]);
    let _result = node_a.merge(node_b.state());

    assert_eq!(_result.conflicts_resolved, 2); // two diverging indices
    assert_eq!(node_a.state().values[1], 15); // (10+20)/2
    // let's just confirm no panics and constraints preserved
}

#[test]
fn test_round_avg_symmetric() {
    assert_eq!(round_avg(0, 10), 5);
    assert_eq!(round_avg(10, 0), 5);
    assert_eq!(round_avg(3, 4), 4); // (3+4)/2 = 3.5 rounds to 4
    assert_eq!(round_avg(-5, 5), 0);
    assert_eq!(round_avg(7, 7), 7);
}

#[test]
fn test_constraint_display() {
    let c = Constraint { index_a: 0, index_b: 2, max_diff: 10 };
    assert_eq!(c.to_string(), "|v[0] - v[2]| <= 10");
}

#[test]
fn test_constraint_satisfied_by_out_of_range() {
    let c = Constraint { index_a: 0, index_b: 99, max_diff: 10 };
    assert!(!c.satisfied_by(&[1, 2, 3]));
}

#[test]
fn test_bob_merges_symmetric() {
    // Symmetry: Bob merges Alice's state should yield same result
    // as Alice merging Bob's state.
    let mut alice = CrdtNode::new("alice".into(), vec![100, 0]);
    alice.add_constraint(0, 1, 10).unwrap();

    let mut bob = CrdtNode::new("bob".into(), vec![0, 100]);
    bob.add_constraint(0, 1, 10).unwrap();

    bob.merge(alice.state());
    // Same independent resolution as above
    assert_eq!(bob.state().values[0], 100);
    assert_eq!(bob.state().values[1], 0);
}
