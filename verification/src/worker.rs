//! Logging the work other parts of the agent hand over.
pub mod worker;
