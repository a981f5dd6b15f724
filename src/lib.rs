//! A small interactive shell core: command chains with aliases, and
//! directory listings with icons, colors and size formatting.

pub mod text;
pub mod chain;
pub mod command;
pub mod listing;
pub mod format;
pub mod classify;
pub mod render;
pub mod config;
pub mod prompt;
