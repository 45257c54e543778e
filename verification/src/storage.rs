//! The persistence layer: a schema-versioned store for catalog records and
//! the codec that serializes them for backup and restore.

pub mod database;
pub mod export;
