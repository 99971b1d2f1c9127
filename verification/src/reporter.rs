//! Logging what other parts of the agent report.
pub mod reporter;
