//! The catalog as the runtime sees it.
pub mod binder;
pub mod bootstrap;
pub mod constraints;
pub mod foreign_keys;
pub mod install;
pub mod laws;
pub mod objects;
pub mod runtime;
