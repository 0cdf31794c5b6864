//! Between the engine and the terminal: events become commands to the user
//! interface, and what the user types becomes a command or a query.

pub mod command_texts;
pub mod commands;
pub mod dispatch;
pub mod events;
pub mod handlers;
pub mod hub;
pub mod sub_agent;
pub mod ui;
