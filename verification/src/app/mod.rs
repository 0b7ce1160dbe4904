//! What the daemon decides around the commands it runs and the reloads it does.

pub mod command_runner;
pub mod dispatcher;
