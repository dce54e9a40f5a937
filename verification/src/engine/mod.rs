//! The engine as a whole: opening, closing, background work and lookups.
pub mod checkpoint;
pub mod close;
pub mod laws;
pub mod lifecycle;
pub mod lookups;
pub mod truncate;
pub mod worker;
