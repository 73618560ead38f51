//! Feed-to-library pipeline for serialized video episodes.
//!
//! The crate covers the data transformations of the pipeline: parsing
//! free-text episode announcement titles into structured metadata, matching
//! filter rules against announcements, tracking submitted / renamed markers,
//! deciding what one poll cycle and one reconciliation cycle do, and building
//! the canonical destination path for a finished download.  All I/O (HTTP
//! fetches, the download agent, the database, the real filesystem) lives
//! outside this crate; the functions here work on plain values and on an
//! explicit model of the filesystem.

pub mod strutil;
pub mod renamer;
pub mod dedup;
pub mod filter;
pub mod title;
pub mod pipeline;
pub mod feed;
