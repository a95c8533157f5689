//! Verified core of a personal social-media archiver.
//!
//! The library holds the logic of the archiver: a deduplicating, prunable
//! record store, a paginated rate-limit-aware fetch controller, and the
//! planning and file-handling discipline of a concurrent photo downloader.
//! All I/O (the SQLite file, the network, the file system) is driven by a
//! thin unverified shell that feeds plain values into these functions and
//! carries their decisions out.

pub mod args;
pub mod common;
pub mod config;
pub mod download;
pub mod extract;
pub mod fetch;
pub mod store;
pub mod text;
