//! Pure evidence rules of the storage layer: the duplicate representative
//! and context decisions, the profile fitness signal, migration ordering and
//! checksums, integrity and liveness verdicts, and extraction digests.

pub mod dedup;
pub mod context;
pub mod integrity;
pub mod liveness;
pub mod migrations;
pub mod extraction;
pub mod representation;
pub mod analysis;
pub mod threads;
pub mod anomalies;
pub mod rules;
pub mod guidance;
