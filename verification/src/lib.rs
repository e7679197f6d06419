//! A registry that maps locally defined clinical and laboratory identifiers
//! ("concepts") onto a standardized terminology. Each mapping is recorded as a
//! temporally versioned relationship: history is never destroyed, only
//! superseded. The crate proves the versioning and invalidation rules: how a
//! concept and its mapping relationship are created, corrected (retargeted)
//! and retired, and the invariants that keep the concept table and the
//! relationship table mutually consistent after every operation.

pub mod concept_store;
pub mod engine;
pub mod relationship_ledger;
pub mod omop_types;
