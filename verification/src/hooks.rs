//! Hooks: functions of the user's configuration that are called as a session
//! goes on.

pub mod context;
pub mod executor;
pub mod loader;
pub mod types;
