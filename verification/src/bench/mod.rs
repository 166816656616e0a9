//! The benchmark suite's bookkeeping: result records, the deterministic LBA
//! sequence of the random runs, and the plan of a benchmark run.

pub mod random;
pub mod runner;
pub mod sequential;
