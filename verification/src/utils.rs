//! Small text, hashing, configuration and JSON helpers.
pub mod common;

pub mod string;
pub mod json;
pub mod hash;
pub mod conf;
pub mod os;
pub mod redis;
pub mod assoc;
