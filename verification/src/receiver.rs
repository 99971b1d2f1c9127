//! Receiving commands for the agent.
pub mod receiver;
