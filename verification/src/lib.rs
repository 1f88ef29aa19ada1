//! Storage and query core of an image-board: tag and post records kept in a
//! document store, content-addressed file ingestion, sequential id
//! allocation, and translation of wildcard search patterns into backend
//! query clauses.

pub mod chars;
pub mod order;
pub mod pattern;
pub mod post;
pub mod query;
pub mod schema;
pub mod store;
pub mod tag;
pub mod upload;
