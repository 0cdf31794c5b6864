//! The conversation engine.

pub mod carryover;
pub mod compact;
pub mod cost_tracker;
pub mod curator;
pub mod delegation;
pub mod messages;
pub mod query;
pub mod query_engine;
pub mod review;
pub mod session;
pub mod session_index;
pub mod sub_agent;
pub mod sub_agent_run;
pub mod tui_events;
