//! The requests that the command-line controller sends to the daemon.

use vstd::prelude::*;

verus! {

/// Where the daemon listens for requests.
pub const SOCKET_PATH: &'static str = "/tmp/telecon.sock";

/// A request to the daemon: send a message, or reload services and handlers.
#[derive(Debug, Clone, PartialEq, Eq)]
pub enum SocketCommand {
    SendMessage {
        text: Option<String>,
        files: Vec<String>,
        media: Vec<String>,
        buttons: Vec<(String, String)>,
    },
    ReloadServices,
}

} // verus!
