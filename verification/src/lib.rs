//! Verified core of a directory-tree archiver.
//!
//! The library packs a list of in-memory tree entries into a deflate-based
//! archive and extracts such an archive back into a list of entries.  All
//! path normalization, entry-name safety checking and the pack/extract
//! orchestration are verified; the container format itself is handled by the
//! `zip` crate behind trusted wrappers.

pub mod contain;
pub mod entries;
pub mod laws;
pub mod names;
pub mod pack;
pub mod unpack;
pub mod zipio;
