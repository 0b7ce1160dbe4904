//! The daemon's settings.

use vstd::prelude::*;

verus! {

/// The bot token and the numeric id of the owner, the one user it obeys.
#[derive(Debug, Clone, PartialEq, Eq)]
pub struct Config {
    pub token: String,
    pub owner_id: u64,
}

impl Config {
    /// The owner's id as a chat id, which is signed: none where it does not fit.
    pub fn owner_chat_id(&self) -> (r: Option<i64>)
        ensures
            match r {
                Some(id) => id == self.owner_id,
                None => self.owner_id > i64::MAX,
            },
    {
        if self.owner_id <= 9223372036854775807u64 {
            Some(self.owner_id as i64)
        } else {
            None
        }
    }
}

} // verus!
