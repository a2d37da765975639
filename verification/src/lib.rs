//! Follow the desktop's light/dark colour scheme and run the commands that a
//! configuration lists for it, with the configured placeholders expanded.

pub mod cli;
pub mod command;
pub mod config;
pub mod dbus;
pub mod text;
pub mod theme;
