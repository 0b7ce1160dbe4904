//! The bot's answers to commands and button presses.

pub mod callback;
pub mod command;
