//! Versioned document reconstruction over three immutable storage layers:
//! an append-only change log, write-once per-version manifests, and a
//! content-addressed paragraph store.
//!
//! The engine turns "version V of document D" into a fully materialized,
//! ordered tree of paragraphs, nested named areas and cross-document
//! references, with deterministic path composition into the sharded store
//! and cycle-safe recursive resolution. It works against a snapshot of the
//! published files ([`storage::Storage`]); reading those files from disk and
//! decoding the line-oriented change-log records are its callers' concern.
pub mod changelog;
pub mod error;
pub mod laws;
pub mod loader;
pub mod manifest;
pub mod numtext;
pub mod storage;
pub mod tree;
