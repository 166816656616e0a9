//! A RAM block cache for raw block devices: the logical block address table,
//! its eviction policy, the page-aligned memory pool, configuration checks and
//! the decisions of the read, write and flush paths, each with a contract.

pub mod cache;
pub mod error;
pub mod text;
pub mod memory;
pub mod flush;
pub mod engine;
pub mod io;
pub mod copy_strategy;
pub mod bench;
pub mod cli;
