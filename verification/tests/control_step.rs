//! Tests of the tracking control step's verified core: error-state
//! computation, write-back, and per-agent isolation.

use formflight::control::{commit_state, commit_states, error_state};
use formflight::entities::fresh_sim_id;
use formflight::ledger::{AssignmentLedger, TargetableSet};
use formflight::scenario::{Distribution, TrackingScenario};

#[test]
fn error_state_subtracts_the_reference() {
    let x0 = vec![5i64, 5, -2];
    let reference = vec![2i64, 3, 4];
    let e = error_state(&x0, Some(&reference)).unwrap();
    assert_eq!(e, vec![3i64, 2, -6]);
}

#[test]
fn error_state_without_assignment_equals_own_state() {
    // an agent that was never assigned tracks the zero reference: its error
    // state is its own raw state, componentwise
    let x0 = vec![4i64, -7, 0, 3];
    let e = error_state(&x0, None).unwrap();
    assert_eq!(e, x0);
}

#[test]
fn error_state_from_ledger_snapshot() {
    let mut ts = TargetableSet::new();
    ts.refresh(&vec![201u128], &vec![vec![1i64, 1, 1]]);
    let mut ledger = AssignmentLedger::new();
    ledger.append_assignments(&vec![101u128], &vec![201u128], &vec![vec![1u32]]);
    ledger.refresh_current(&vec![101u128], &ts);
    let x0 = vec![5i64, 6, 7];
    let e = error_state(&x0, ledger.read_current(101)).unwrap();
    assert_eq!(e, vec![4i64, 5, 6]);
}

#[test]
fn error_state_guards_dimension_and_range() {
    let x0 = vec![1i64, 2];
    assert!(error_state(&x0, Some(&vec![1i64])).is_none());
    assert!(error_state(&vec![i64::MAX], Some(&vec![-1i64])).is_none());
}

#[test]
fn commit_keeps_the_dimension() {
    let mut state = vec![1i64, 2, 3];
    // a result of the wrong dimension is refused and changes nothing
    assert!(!commit_state(&mut state, &vec![9i64]));
    assert_eq!(state, vec![1i64, 2, 3]);
    assert!(commit_state(&mut state, &vec![4i64, 5, 6]));
    assert_eq!(state, vec![4i64, 5, 6]);
}

#[test]
fn population_commit_isolates_agents() {
    // two agents stepped in the same tick: each slot takes only its own
    // integration result, and no write crosses to the other agent
    let mut states = vec![vec![1i64, 2], vec![3i64, 4]];
    let finals = vec![vec![5i64, 6], vec![7i64, 8]];
    commit_states(&mut states, &finals);
    assert_eq!(states, vec![vec![5i64, 6], vec![7i64, 8]]);

    // a failed integration result for one agent leaves exactly that agent's
    // previous state in place
    let mut states2 = vec![vec![1i64, 2], vec![3i64, 4]];
    let finals2 = vec![vec![5i64, 6], vec![9i64]];
    commit_states(&mut states2, &finals2);
    assert_eq!(states2, vec![vec![5i64, 6], vec![3i64, 4]]);
}

#[test]
fn fresh_identities_carry_their_label() {
    let id = fresh_sim_id("Agent0".to_string());
    assert_eq!(id.name, "Agent0");
}

#[test]
fn scenario_configuration_defaults() {
    let s = TrackingScenario::default();
    assert_eq!(s.num_agents, 50);
    assert_eq!(s.num_targets, 50);
    assert!(matches!(s.agent_formation, Distribution::Sphere));
    assert!(matches!(s.target_formation, Distribution::Circle3D));
    let t = TrackingScenario::new(3, 5);
    assert_eq!(t.num_agents, 3);
    assert_eq!(t.num_targets, 5);
}
