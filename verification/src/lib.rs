//! Verified core of a code-search gateway.
//!
//! The library turns a free-text query into a structured search request,
//! describes the engine invocation for it, and aggregates the engine's
//! JSON-lines output into one bounded JSON array, applying a path filter,
//! eliding empty file sections, and truncating at a configured match cap.
//! Repository metadata helpers (tree listing, repository-root lookup,
//! remote-URL cleanup) are verified as well; all process and file-system
//! work stays outside the library and hands in plain values.

pub mod aggregate;
pub mod engine;
pub mod errors;
pub mod event;
pub mod options;
pub mod render;
pub mod repo;
pub mod text;
