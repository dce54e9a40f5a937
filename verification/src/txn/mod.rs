//! Decisions of transactions on their way to commit.
pub mod cold_check;
pub mod commit;
pub mod constraint_laws;
pub mod constraints;
pub mod dml;
pub mod laws;
pub mod order;
pub mod table_laws;
pub mod tables;
