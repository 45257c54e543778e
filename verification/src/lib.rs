//! A local catalog that persists classified inventory records and evolves
//! its own on-disk schema over time.
//!
//! The core is the inventory store: a schema-versioned, transactional
//! persistence layer with merge-on-insert upsert semantics and single-writer
//! concurrency discipline, together with an export/import codec for backup
//! and restore.

pub mod classify;
pub mod error;
pub mod piece;
pub mod storage;
pub mod text;
