//! The messages the agent receives and sends.
pub mod collecter_protocol;
pub mod receiver_protocol;
pub mod reporter_protocol;
