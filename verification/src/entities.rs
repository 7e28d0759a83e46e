//! Entity identity.
//!
//! Every agent and target carries a process-unique, stable identity paired
//! with a human-readable label, minted once at setup and immutable after
//! creation. The identity value is drawn from a random version-4 UUID; all
//! assignment state is keyed by this value.

use vstd::prelude::*;

verus! {

/// A process-unique, stable identity for an agent or target entity, with
/// its human-readable label. Immutable after creation.
pub struct SimID {
    /// The 128-bit identity value every map in the ledger is keyed by.
    pub uuid: u128,
    /// A human-readable label; carries no semantics.
    pub name: String,
}

/// Relies on uuid::Uuid::new_v4 for a fresh random version-4 identifier;
/// Uuid::as_u128 only converts it into its 128-bit value. Nothing can be
/// promised of a random draw, so this contract has no clauses.
#[verifier::external_body]
fn fresh_uuid_value() -> u128 {
    uuid::Uuid::new_v4().as_u128()
}

/// Mint a fresh identity carrying the given label.
pub fn fresh_sim_id(name: String) -> (s: SimID)
    ensures
        s.name == name,
{
    SimID { uuid: fresh_uuid_value(), name }
}

} // verus!
