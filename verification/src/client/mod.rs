//! Decisions of the online client: room settings checks and command
//! permissions.

pub mod settings;
pub mod game_settings;
pub mod control;
pub mod arguments;
pub mod room;
pub mod chat;
pub mod registry;
pub mod commands;
