//! Intent-aware filename matching and rename resolution.
//!
//! A filename often evolves by growing — a suffix or an inserted span is added
//! around a stable core — or by swapping its trailing extension. This crate
//! decides whether one name is such an evolution of another, and applies that
//! decision to a directory listing to resolve an ambiguous single-argument
//! rename request into at most one rename.
//!
//! The two predicates, [`matches_expansion`] and [`matches_extension_change`],
//! are pure functions over the names' Unicode scalar values. The resolver,
//! [`resolve::resolve_rename`], probes both predicates in both directions
//! against each directory entry and proceeds only when exactly one candidate
//! remains.

mod text;

pub mod matching;
pub mod resolve;

pub use matching::matches_expansion;
pub use matching::matches_extension_change;
pub use resolve::DirEntry;
pub use resolve::RenameError;
pub use resolve::RenameIntent;
pub use resolve::resolve_rename;
