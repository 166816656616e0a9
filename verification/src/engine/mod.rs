//! The cache engine: its configuration and the decisions of its read and
//! write paths.

pub mod config;
pub mod cache_engine;
pub mod read_path;
pub mod write_path;
