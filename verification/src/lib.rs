//! A verified core for a movie-library inventory tool.
//!
//! The library walks no directories and touches no files itself: a thin
//! caller hands it directory-entry names and parsed legacy metadata, and it
//! builds, migrates, reconciles and queries the catalog records, and renders
//! the documents it persists, proving that each rendered document parses
//! back to exactly the value it was rendered from.

pub mod catalog;
pub mod codec;
pub mod query;
pub mod reconcile;
pub mod records;
