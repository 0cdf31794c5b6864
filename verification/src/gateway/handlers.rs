//! Methods that can be called from outside.

pub mod config;
pub mod prompt;
pub mod session;
