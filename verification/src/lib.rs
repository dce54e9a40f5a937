//! Verified decision logic of an MVCC storage engine.
//!
//! Every item here is proved against the contract in its header. Nothing in
//! this crate performs I/O, takes a lock or reads a clock: callers hand in
//! what they observed and act on what comes back.
pub mod bytes;
pub mod catalog;
pub mod checksum;
pub mod compaction;
pub mod ddl;
pub mod engine;
pub mod error;
pub mod fx;
pub mod identity;
pub mod model;
pub mod namelist;
pub mod names;
pub mod num;
pub mod pressure;
pub mod pressure_laws;
pub mod publication;
pub mod recovery;
pub mod runtime;
pub mod schema;
pub mod schema_laws;
pub mod snapshot;
pub mod sort;
pub mod text;
pub mod txn;
pub mod value;
pub mod view;
