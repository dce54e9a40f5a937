//! Physical snapshots and their restoration.
pub mod components;
pub mod create;
pub mod laws;
pub mod members;
pub mod restore;
pub mod select;
pub mod state;
pub mod swap;
