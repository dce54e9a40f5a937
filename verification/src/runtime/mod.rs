//! Observable state of the engine and its maintenance work.
pub mod concurrency;
pub mod cost;
pub mod laws;
pub mod maintenance;
pub mod operation;
pub mod stats;
