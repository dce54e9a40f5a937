//! Planning, merging, budgeting and scheduling of segment compaction.
pub mod abort;
pub mod budget;
pub mod budget_laws;
pub mod cooldown;
pub mod eviction;
pub mod job;
pub mod laws;
pub mod merge;
pub mod plan;
pub mod row_ref;
pub mod run;
pub mod schedule;
pub mod staging;
pub mod tombstones;
