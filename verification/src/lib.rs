//! A local media-library indexer core.
//!
//! The library discovers audio files and playlist manifests under a root
//! directory, extracts metadata, caches cover art in a content-addressed
//! thumbnail store, resolves playlist entries into song records, and filters
//! candidates against an external catalog database.  Everything that computes
//! is specified and verified here; the thin I/O shell around it lives outside
//! the library.

pub mod database;
pub mod error;
pub mod numbers;
pub mod playlist_scanner;
pub mod scanner;
pub mod song_scanner;
pub mod strutil;
pub mod structs;
pub mod utils;
