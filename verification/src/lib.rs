//! Remote control of a machine through a chat bot: the service tree, the
//! handler registry, keyboards, message plans and the small text protocols
//! that the daemon and its command-line controller speak.

pub mod text;
pub mod config;
pub mod app;
pub mod domain;
pub mod parser;
pub mod utils;
pub mod paths;
pub mod bot;
pub mod socket;
pub mod cli;
pub mod line_socket;
