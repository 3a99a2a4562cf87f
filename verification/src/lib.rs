//! Rules of a chat bot that stores per-channel text commands and replies to
//! viewers who invoke them.

pub mod api;
pub mod command;
pub mod config;
pub mod dispatch;
pub mod event;
pub mod table;
pub mod text;
pub mod twitch;
