//! The editing session: documents, source roots, outlines and query caches.
pub mod history;
pub mod laws;
pub mod lru;
pub mod outline;
pub mod outline_laws;
pub mod queries;
pub mod query_laws;
pub mod session;
pub mod snapshot;
pub mod source_set_laws;
pub mod source_sets;
pub mod store;
pub mod tokens;
