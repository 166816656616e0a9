//! Command-line arguments as plain values, their conversion into engine and
//! benchmark configurations, and the diagnostic codes and notes of errors.

pub mod args;
pub mod commands;
pub mod emit;
