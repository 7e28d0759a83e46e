//! Tests of the assignment ledger: append-only history, current-assignment
//! resolution, and staleness retention.

use formflight::ledger::{AssignmentLedger, TargetableSet};
use formflight::scenario::apply_coupling;

const A1: u128 = 101;
const A2: u128 = 102;
const T1: u128 = 201;
const T2: u128 = 202;

fn two_target_set() -> TargetableSet {
    let mut ts = TargetableSet::new();
    ts.refresh(&vec![T1, T2], &vec![vec![10i64, 0, 0], vec![20, 0, 0]]);
    ts
}

#[test]
fn targetable_set_holds_latest_states() {
    let mut ts = two_target_set();
    assert_eq!(ts.len(), 2);
    assert_eq!(ts.lookup(T1).unwrap(), &vec![10i64, 0, 0]);
    assert_eq!(ts.lookup(T2).unwrap(), &vec![20i64, 0, 0]);
    assert!(ts.lookup(999).is_none());
    // a later refresh overwrites the stored state
    ts.refresh(&vec![T1], &vec![vec![11i64, 1, 1]]);
    assert_eq!(ts.lookup(T1).unwrap(), &vec![11i64, 1, 1]);
    assert_eq!(ts.lookup(T2).unwrap(), &vec![20i64, 0, 0]);
}

#[test]
fn append_records_positive_entries_and_refresh_resolves_them() {
    let ts = two_target_set();
    let mut ledger = AssignmentLedger::new();
    // the identity assignment of two agents to two targets
    ledger.append_assignments(&vec![A1, A2], &vec![T1, T2], &vec![vec![1u32, 0], vec![0, 1]]);
    assert_eq!(ledger.history_of(A1).unwrap(), &vec![T1]);
    assert_eq!(ledger.history_of(A2).unwrap(), &vec![T2]);
    // nothing cached until the refresh
    assert!(ledger.read_current(A1).is_none());
    ledger.refresh_current(&vec![A1, A2], &ts);
    assert_eq!(ledger.read_current(A1).unwrap(), &vec![10i64, 0, 0]);
    assert_eq!(ledger.read_current(A2).unwrap(), &vec![20i64, 0, 0]);
}

#[test]
fn history_is_append_only_across_ticks() {
    let mut ledger = AssignmentLedger::new();
    ledger.append_assignments(&vec![A1, A2], &vec![T1, T2], &vec![vec![1u32, 0], vec![0, 1]]);
    let first_a1 = ledger.history_of(A1).unwrap().clone();
    // a second tick assigns both agents to the other target
    ledger.append_assignments(&vec![A1, A2], &vec![T1, T2], &vec![vec![0u32, 1], vec![1, 0]]);
    let second_a1 = ledger.history_of(A1).unwrap().clone();
    assert!(second_a1.len() >= first_a1.len());
    assert_eq!(&second_a1[..first_a1.len()], &first_a1[..]);
    assert_eq!(second_a1, vec![T1, T2]);
    assert_eq!(ledger.history_of(A2).unwrap(), &vec![T2, T1]);
}

#[test]
fn agent_with_no_positive_entry_is_unaffected() {
    let mut ledger = AssignmentLedger::new();
    // a defensive zero row appends nothing: the agent stays out of the ledger
    ledger.append_assignments(&vec![A1, A2], &vec![T1, T2], &vec![vec![0u32, 0], vec![1, 1]]);
    assert!(ledger.history_of(A1).is_none());
    assert_eq!(ledger.history_of(A2).unwrap(), &vec![T1, T2]);
}

#[test]
fn tied_row_appends_in_column_order_and_last_wins() {
    let ts = two_target_set();
    let mut ledger = AssignmentLedger::new();
    // one agent fanned out to both targets in one tick
    ledger.append_assignments(&vec![A1], &vec![T1, T2], &vec![vec![1u32, 1]]);
    assert_eq!(ledger.history_of(A1).unwrap(), &vec![T1, T2]);
    ledger.refresh_current(&vec![A1], &ts);
    // the most recently appended target is the active one
    assert_eq!(ledger.read_current(A1).unwrap(), &vec![20i64, 0, 0]);
}

#[test]
fn missing_target_keeps_the_previous_snapshot() {
    let ts = two_target_set();
    let mut ledger = AssignmentLedger::new();
    ledger.append_assignments(&vec![A1], &vec![T1, T2], &vec![vec![1u32, 0]]);
    ledger.refresh_current(&vec![A1], &ts);
    assert_eq!(ledger.read_current(A1).unwrap(), &vec![10i64, 0, 0]);
    // next tick T1 has vanished from the targetable set: the cached
    // reference is retained, not cleared
    let mut later = TargetableSet::new();
    later.refresh(&vec![T2], &vec![vec![21i64, 0, 0]]);
    ledger.refresh_current(&vec![A1], &later);
    assert_eq!(ledger.read_current(A1).unwrap(), &vec![10i64, 0, 0]);
}

#[test]
fn never_assigned_agent_has_no_snapshot() {
    let ts = two_target_set();
    let mut ledger = AssignmentLedger::new();
    ledger.refresh_current(&vec![A1], &ts);
    assert!(ledger.read_current(A1).is_none());
    assert!(ledger.history_of(A1).is_none());
}

#[test]
fn apply_coupling_thresholds_and_records_in_one_phase() {
    let ts = two_target_set();
    let mut ledger = AssignmentLedger::new();
    // masses in the order-preserving encoding: row maxima on the diagonal
    let coupling = vec![vec![5u64, 1], vec![1, 5]];
    let b = apply_coupling(&mut ledger, &ts, &vec![A1, A2], &vec![T1, T2], &coupling).unwrap();
    assert_eq!(b, vec![vec![1u32, 0], vec![0, 1]]);
    assert_eq!(ledger.history_of(A1).unwrap(), &vec![T1]);
    assert_eq!(ledger.read_current(A2).unwrap(), &vec![20i64, 0, 0]);
}

#[test]
fn apply_coupling_surfaces_solver_shape_failures() {
    let ts = two_target_set();
    let mut ledger = AssignmentLedger::new();
    let no_rows: Vec<Vec<u64>> = Vec::new();
    let empty: Vec<u128> = Vec::new();
    let err = apply_coupling(&mut ledger, &ts, &empty, &vec![T1, T2], &no_rows).unwrap_err();
    assert_eq!(err, formflight::assignments::AssignError::EmptyPopulation);
    assert!(ledger.history_of(A1).is_none());
}
