//! Transactional changes of the catalog.
pub mod catalog_laws;
pub mod commit;
pub mod final_catalog;
pub mod index_build;
pub mod install;
pub mod laws;
pub mod plan;
pub mod prepare;
pub mod prepare_laws;
pub mod publish;
pub mod readiness;
pub mod request;
