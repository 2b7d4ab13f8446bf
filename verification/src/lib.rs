//! A vector-embedding ingestion and retrieval library.
//!
//! Documents drawn from relational source tables are split into
//! token-bounded chunks, embedded, and upserted into a vector store
//! with structured payloads. This crate holds the verified core of
//! that pipeline: chunk planning, batching, payload assembly, filter
//! construction, and the import bookkeeping. The unverified network
//! edges (database, embedding service, vector store, RPC transport)
//! live outside the library and exchange plain values with it.
pub mod chunk_strings;
pub mod collections;
pub mod create;
pub mod errors;
pub mod get;
pub mod import;
pub mod messaging;
pub mod string_convert;
pub mod text;
