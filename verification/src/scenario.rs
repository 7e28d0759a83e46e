//! The repeated-assignment tracking scenario.
//!
//! Holds the scenario's configuration and the reassignment phase's
//! ledger-update step: once per tick, after the external transportation
//! solver has turned the normalized costs and uniform weights into a
//! coupling, the coupling is thresholded into the binary assignment and
//! recorded — history append first, current-assignment refresh second.
//! The whole phase runs as one sequential barrier step before any agent's
//! control step reads the refreshed cache.

use vstd::prelude::*;
use crate::assignments::{binarize_coupling, row_has_assignment, seq_max, AssignError};
use crate::ledger::{
    current_refreshed, history_appended, selected_targets, AssignmentLedger, TargetableSet,
};

verus! {

/// The spatial formation a population is spawned in.
#[derive(Debug, Clone, Copy, PartialEq, Eq, Structural)]
pub enum Distribution {
    Circle2D,
    Circle3D,
    Sphere,
}

/// Configuration of the tracking scenario: population sizes and initial
/// formations.
pub struct TrackingScenario {
    pub num_agents: u32,
    pub num_targets: u32,
    pub agent_formation: Distribution,
    pub target_formation: Distribution,
}

impl TrackingScenario {
    /// A scenario with the given population sizes and the standard
    /// formations: agents on a sphere, targets on a circle.
    pub fn new(num_agents: u32, num_targets: u32) -> (s: Self)
        ensures
            s.num_agents == num_agents,
            s.num_targets == num_targets,
            s.agent_formation == Distribution::Sphere,
            s.target_formation == Distribution::Circle3D,
    {
        let agent_formation = Distribution::Sphere;
        let target_formation = Distribution::Circle3D;
        TrackingScenario { num_agents, num_targets, agent_formation, target_formation }
    }
}

impl Default for TrackingScenario {
    /// Fifty agents and fifty targets in the standard formations.
    fn default() -> (s: Self)
        ensures
            s.num_agents == 50,
            s.num_targets == 50,
            s.agent_formation == Distribution::Sphere,
            s.target_formation == Distribution::Circle3D,
    {
        TrackingScenario::new(50, 50)
    }
}

/// The ledger-update half of one reassignment phase, run once per tick on
/// the whole population after the external solver returns: threshold the
/// coupling row-wise into the binary assignment, append this tick's
/// assigned targets to each agent's history in column order, then refresh
/// each agent's current-assignment cache against the targetable snapshot.
/// On failure the ledger is untouched and the error is surfaced — the tick
/// never proceeds with a stale or empty assignment.
pub fn apply_coupling(
    ledger: &mut AssignmentLedger,
    targets: &TargetableSet,
    agent_ids: &Vec<u128>,
    target_ids: &Vec<u128>,
    coupling: &Vec<Vec<u64>>,
) -> (r: Result<Vec<Vec<u32>>, AssignError>)
    requires
        coupling@.len() == agent_ids@.len(),
        forall|i: int|
            0 <= i < coupling@.len() ==> (#[trigger] coupling@[i])@.len() == target_ids@.len(),
        forall|p: int, q: int|
            0 <= p < q < agent_ids@.len() ==> agent_ids@[p] != agent_ids@[q],
    ensures
        match r {
            Ok(b) => {
                &&& agent_ids@.len() >= 1
                &&& target_ids@.len() >= 1
                &&& b@.len() == agent_ids@.len()
                &&& forall|i: int|
                    0 <= i < b@.len() ==> (#[trigger] b@[i])@.len() == target_ids@.len()
                &&& forall|i: int, j: int|
                    0 <= i < b@.len() && 0 <= j < b@[i]@.len() ==> ((#[trigger] b@[i]@[j]) == 1
                        <==> coupling@[i]@[j] == seq_max(coupling@[i]@))
                &&& forall|i: int, j: int|
                    0 <= i < b@.len() && 0 <= j < b@[i]@.len() ==> ((#[trigger] b@[i]@[j]) == 0
                        <==> coupling@[i]@[j] < seq_max(coupling@[i]@))
                &&& forall|i: int| 0 <= i < b@.len() ==> row_has_assignment(#[trigger] b@[i]@)
                &&& forall|i: int|
                    0 <= i < agent_ids@.len() ==> history_appended(
                        old(ledger).history(),
                        final(ledger).history(),
                        #[trigger] agent_ids@[i],
                        selected_targets(b@[i]@, target_ids@),
                    )
                &&& forall|a: u128|
                    !agent_ids@.contains(a) ==> (final(ledger).history().contains_key(a) <==> old(
                        ledger,
                    ).history().contains_key(a))
                &&& forall|a: u128|
                    !agent_ids@.contains(a) && old(ledger).history().contains_key(a) ==> (
                    #[trigger] final(ledger).history()[a]) == old(ledger).history()[a]
                &&& forall|a: u128| #![trigger old(ledger).history().contains_key(a)]
                    old(ledger).history().contains_key(a) ==> final(ledger).history().contains_key(
                        a,
                    ) && old(ledger).history()[a].is_prefix_of(final(ledger).history()[a])
                &&& forall|i: int|
                    0 <= i < agent_ids@.len() ==> current_refreshed(
                        final(ledger).history(),
                        targets.snapshot(),
                        old(ledger).current(),
                        final(ledger).current(),
                        #[trigger] agent_ids@[i],
                    )
                &&& forall|a: u128|
                    !agent_ids@.contains(a) ==> (final(ledger).current().contains_key(a) <==> old(
                        ledger,
                    ).current().contains_key(a))
                &&& forall|a: u128|
                    !agent_ids@.contains(a) && old(ledger).current().contains_key(a) ==> (
                    #[trigger] final(ledger).current()[a]) == old(ledger).current()[a]
            },
            Err(e) => {
                &&& final(ledger).history() == old(ledger).history()
                &&& final(ledger).current() == old(ledger).current()
                &&& e == AssignError::EmptyPopulation
                &&& (agent_ids@.len() == 0 || target_ids@.len() == 0)
            },
        },
{
    match binarize_coupling(coupling) {
        Ok(b) => {
            proof {
                assert(coupling@[0]@.len() == target_ids@.len());
            }
            ledger.append_assignments(agent_ids, target_ids, &b);
            let ghost mid = *ledger;
            ledger.refresh_current(agent_ids, targets);
            proof {
                assert(ledger.history() == mid.history());
                assert forall|a: u128| #![trigger old(ledger).history().contains_key(a)]
                    old(ledger).history().contains_key(a) implies ledger.history().contains_key(a)
                    && old(ledger).history()[a].is_prefix_of(ledger.history()[a]) by {
                    let s = old(ledger).history()[a];
                    assert(s.is_prefix_of(mid.history()[a]));
                    assert(mid.history().contains_key(a));
                }
            }
            Ok(b)
        },
        Err(e) => {
            proof {
                if coupling@.len() != 0 {
                    let i = choose|i: int|
                        0 <= i < coupling@.len() && (#[trigger] coupling@[i])@.len() == 0;
                    assert(coupling@[i]@.len() == target_ids@.len());
                }
            }
            Err(e)
        },
    }
}

} // verus!
