use vstd::prelude::*;

use crate::bot::Command;
use crate::bot::keyboard::{Keyboard, folder_keyboard, keyboard_spec};
use crate::parser::tree::Node;

verus! {

/// A message the bot sends in reply, with an optional keyboard.
#[derive(Debug, Clone, PartialEq, Eq)]
pub struct Reply {
    pub text: String,
    pub keyboard: Option<Keyboard>,
}

/// The reply to `/start`.
pub open spec fn start_text() -> Seq<char> {
    "I'm a service management bot.\nWrite /services"@
}

/// The text above the root keyboard.
pub open spec fn services_text() -> Seq<char> {
    "Choose a service:"@
}

/// The reply to a command sent by the user `from` (none where the sender is
/// unknown or is not the owner): the greeting for `/start`, and the keyboard
/// of the root of the service tree for `/services`.
pub fn process_command(from: Option<u64>, owner_id: u64, cmd: &Command, services: &Node) -> (r:
    Option<Reply>)
    ensures
        match from {
            Some(id) if id == owner_id => match r {
                Some(reply) => match cmd {
                    Command::Start => reply.text@ == start_text() && reply.keyboard is None,
                    Command::Services => reply.text@ == services_text() && match reply.keyboard {
                        Some(kb) => kb@ == keyboard_spec(*services, Seq::empty()),
                        None => false,
                    },
                },
                None => false,
            },
            _ => r is None,
        },
{
    let id = match from {
        Some(id) => id,
        None => return None,
    };
    if id != owner_id {
        return None;
    }
    match cmd {
        Command::Start => Some(
            Reply { text: "I'm a service management bot.\nWrite /services".to_owned(), keyboard: None },
        ),
        Command::Services => {
            let keyboard = folder_keyboard(services, "");
            proof {
                reveal_strlit("");
            }
            Some(Reply { text: "Choose a service:".to_owned(), keyboard: Some(keyboard) })
        },
    }
}

} // verus!
