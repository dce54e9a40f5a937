//! Bringing the runtime back from what is durable.
pub mod artifact_laws;
pub mod artifacts;
pub mod backfill_laws;
pub mod defaults;
pub mod hnsw;
pub mod laws;
pub mod replay;
