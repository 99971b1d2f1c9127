//! Watching log files: watch keys, per-key counters and collection reports.
pub mod count_table;
pub mod collecter;
pub mod tail;
