//! Dynamic assignment and closed-loop tracking core.
//!
//! Agents are repeatedly paired to targets by a transportation-problem
//! formulation: pairwise squared-distance costs are built and normalized,
//! an external transport solver turns mass weights and costs into a
//! coupling, and row-wise max thresholding turns the coupling into a
//! binary assignment. An assignment ledger keeps an append-only history
//! of assigned targets per agent and a per-agent cached snapshot of the
//! current target's state, which the per-agent tracking control step
//! reads as its feedback reference.
//!
//! - [`assignments`]: cost model, mass weights, and coupling thresholding;
//! - [`ledger`]: targetable-set snapshot and the assignment ledger;
//! - [`control`]: error state and state write-back of the tracking step;
//! - [`entities`]: entity identity;
//! - [`scenario`]: scenario configuration and the per-tick ledger update.

pub mod assignments;
pub mod entities;
pub mod scenario;
pub mod control;
pub mod ledger;
