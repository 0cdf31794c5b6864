//! The engine of a terminal coding assistant.

pub mod api;
pub mod engine;
pub mod gateway;
pub mod hooks;
pub mod images;
pub mod json;
pub mod paths;
pub mod skills;
pub mod terminal;
pub mod text;
pub mod time;
