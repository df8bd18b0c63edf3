//! Sorting of finished torrents into a media library: what a torrent holds,
//! where each of its files is linked, and how metadata lookups are cached.

pub mod cache;
pub mod classifier;
pub mod config;
pub mod fetcher;
pub mod launcher;
pub mod linker;
pub mod listener;
pub mod parser;
pub mod path;
pub mod pattern;
pub mod pipeline;
pub mod report;
pub mod retry;
pub mod summary;
pub mod text;
pub mod transmission;
pub mod tvdb;
pub mod types;
