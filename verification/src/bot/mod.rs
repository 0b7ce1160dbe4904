//! What the bot shows and sends: keyboards, replies and message plans.

pub mod handlers;
pub mod keyboard;
pub mod sender;

use vstd::prelude::*;

verus! {

/// The bot's commands: `/start` and `/services`.
#[derive(Debug, Clone, Copy, PartialEq, Eq)]
pub enum Command {
    Start,
    Services,
}

} // verus!
