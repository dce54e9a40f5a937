//! Publishing physical generations.
pub mod catalog;
pub mod control;
pub mod data;
pub mod definition;
pub mod generation;
pub mod indexes;
pub mod laws;
pub mod manifests;
pub mod segments;
