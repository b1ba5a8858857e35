//! A content-addressed deduplication store for a small file-drop service.
//!
//! Uploaded bytes are hashed; the index maps each content hash to the short
//! name under which the bytes are stored, backed by an append-only durable
//! log that is replayed at startup.

pub mod auth;
pub mod config;
pub mod error;
pub mod hash_storage;
pub mod hashing;
pub mod hex;
pub mod log_format;
pub mod naming;
pub mod response;
pub mod retrieval;
pub mod service;
pub mod text;
pub mod upload;
