//! Verified core of a log-collecting agent: text matching, line splitting,
//! per-label line counters and their reports, the JSON text of the agent's
//! messages, and the decisions of the agent's message loops.
pub mod agent;
pub mod collecter;
pub mod protocol;
pub mod receiver;
pub mod reporter;
pub mod utils;
pub mod worker;
