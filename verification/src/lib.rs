//! An in-memory store of todo records with verified CRUD operations.
//!
//! The store owns a deduplicated collection of records, each identified by a
//! caller-supplied 64-bit id. Create rejects a colliding id, Update replaces a
//! record wholesale, Delete removes every record with the given id, and List
//! hands back an independent snapshot. The HTTP layer around the store lives
//! outside the library and maps the store's results onto status codes.

pub mod laws;
pub mod store;
