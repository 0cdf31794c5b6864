//! The query loop and what it is made of.

pub mod context;
pub mod exchange;
pub mod json_utils;
pub mod rounds;
pub mod run;
pub mod stream;
pub mod tool_display;
pub mod tool_exec;
pub mod tool_run;
