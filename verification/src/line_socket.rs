//! The line socket protocol: a request is one line, `send <text>` or
//! `reload`, and the daemon answers with one line.

use vstd::prelude::*;

use crate::socket::SocketCommand as Request;
use crate::text::{has_prefix, is_white_space, strip_prefix, string_is, trim, trim_end_spec,
    trim_spec, trim_start_spec};

verus! {

/// A request on the line socket.
#[derive(Debug, Clone, PartialEq, Eq)]
pub enum SocketCommand {
    SendMessage(String),
    ReloadServices,
}

/// The text of a `send` line, once trimmed.
pub open spec fn sent_text(line: Seq<char>) -> Seq<char> {
    trim_spec(line).skip("send "@.len() as int)
}

/// Parses one request line (see `line_request`).
pub fn parse_line(line: &str) -> (r: Option<SocketCommand>)
    ensures
        match r {
            Some(SocketCommand::SendMessage(text)) => has_prefix(trim_spec(line@), "send "@)
                && text@ == sent_text(line@),
            Some(SocketCommand::ReloadServices) => !has_prefix(trim_spec(line@), "send "@)
                && trim_spec(line@) == "reload"@,
            None => !has_prefix(trim_spec(line@), "send "@) && trim_spec(line@) != "reload"@,
        },
{
    let cmd = trim(line);
    if let Some(text) = strip_prefix(cmd.as_str(), "send ") {
        Some(SocketCommand::SendMessage(text))
    } else if string_is(&cmd, "reload") {
        Some(SocketCommand::ReloadServices)
    } else {
        None
    }
}

/// The line that carries a request.
pub open spec fn encoded_line(cmd: SocketCommand) -> Seq<char> {
    match cmd {
        SocketCommand::SendMessage(text) => "send "@ + text@ + "\n"@,
        SocketCommand::ReloadServices => "reload\n"@,
    }
}

/// Writes the line that carries a request.
pub fn encode_line(cmd: &SocketCommand) -> (line: String)
    ensures
        line@ == encoded_line(*cmd),
{
    match cmd {
        SocketCommand::SendMessage(text) => {
            let mut line = "send ".to_owned();
            line.append(text.as_str());
            line.append("\n");
            line
        },
        SocketCommand::ReloadServices => "reload\n".to_owned(),
    }
}

/// The answer to a request line: `ok` or `reloading services` once the
/// request was handed on, `failed to send` or `failed to reload` where it
/// could not be, and `unknown command` for a line that is no request.
pub open spec fn reply_text(request: Option<SocketCommand>, handed_on: bool) -> Seq<char> {
    match request {
        Some(SocketCommand::SendMessage(_)) => if handed_on {
            "ok\n"@
        } else {
            "failed to send\n"@
        },
        Some(SocketCommand::ReloadServices) => if handed_on {
            "reloading services\n"@
        } else {
            "failed to reload\n"@
        },
        None => "unknown command\n"@,
    }
}

/// The answer to an empty read.
pub open spec fn empty_input_text() -> Seq<char> {
    "empty input\n"@
}

/// The answer to a request line (see `reply_text`).
pub fn reply_line(request: &Option<SocketCommand>, handed_on: bool) -> (r: String)
    ensures
        r@ == reply_text(*request, handed_on),
{
    match request {
        Some(SocketCommand::SendMessage(_)) => if handed_on {
            "ok\n".to_owned()
        } else {
            "failed to send\n".to_owned()
        },
        Some(SocketCommand::ReloadServices) => if handed_on {
            "reloading services\n".to_owned()
        } else {
            "failed to reload\n".to_owned()
        },
        None => "unknown command\n".to_owned(),
    }
}

/// The answer to an empty read.
pub fn empty_input_reply() -> (r: String)
    ensures
        r@ == empty_input_text(),
{
    "empty input\n".to_owned()
}

proof fn lemma_trim_start_keeps(s: Seq<char>)
    requires
        s.len() > 0,
        !is_white_space(s[0]),
    ensures
        trim_start_spec(s) == s,
{
}

proof fn lemma_trim_end_of_line(body: Seq<char>)
    requires
        body.len() > 0,
        !is_white_space(body.last()),
    ensures
        trim_end_spec(body + seq!['\n']) == body,
{
    let s = body + seq!['\n'];
    assert(s.last() == '\n');
    assert(is_white_space('\n'));
    assert(s.drop_last() =~= body);
    assert(trim_end_spec(body) == body);
}

/// A request written as a line is read back as that request, where the
/// text of a message is not empty and does not end in white space.
pub proof fn law_line_roundtrip(cmd: SocketCommand)
    requires
        cmd matches SocketCommand::SendMessage(t) ==> t@.len() > 0 && !is_white_space(t@.last()),
    ensures
        match cmd {
            SocketCommand::SendMessage(t) => has_prefix(trim_spec(encoded_line(cmd)), "send "@)
                && sent_text(encoded_line(cmd)) == t@,
            SocketCommand::ReloadServices => !has_prefix(trim_spec(encoded_line(cmd)), "send "@)
                && trim_spec(encoded_line(cmd)) == "reload"@,
        },
{
    reveal_strlit("send ");
    reveal_strlit("reload");
    reveal_strlit("reload\n");
    reveal_strlit("\n");
    match cmd {
        SocketCommand::SendMessage(t) => {
            let body = "send "@ + t@;
            assert("send "@ + t@ + "\n"@ =~= body + seq!['\n']);
            assert(body[0] == 's');
            lemma_trim_start_keeps(body + seq!['\n']);
            assert(body.last() == t@.last());
            lemma_trim_end_of_line(body);
            assert(body.take(5) =~= "send "@);
            assert(body.skip(5) =~= t@);
        },
        SocketCommand::ReloadServices => {
            let body = "reload"@;
            assert("reload\n"@ =~= body + seq!['\n']);
            assert(body[0] == 'r');
            lemma_trim_start_keeps(body + seq!['\n']);
            assert(body.last() == 'd');
            lemma_trim_end_of_line(body);
            assert(!has_prefix(body, "send "@)) by {
                if has_prefix(body, "send "@) {
                    assert(body.take(5)[0] == 's');
                }
            }
        },
    }
}

impl SocketCommand {
    /// The daemon's request for a line request: a message with just the
    /// text, or a reload.
    pub fn into_request(self) -> (r: Request)
        ensures
            match self {
                SocketCommand::SendMessage(t) => r matches Request::SendMessage {
                    text,
                    files,
                    media,
                    buttons,
                } && text == Some(t) && files@.len() == 0 && media@.len() == 0 && buttons@.len()
                    == 0,
                SocketCommand::ReloadServices => r is ReloadServices,
            },
    {
        match self {
            SocketCommand::SendMessage(t) => Request::SendMessage {
                text: Some(t),
                files: Vec::new(),
                media: Vec::new(),
                buttons: Vec::new(),
            },
            SocketCommand::ReloadServices => Request::ReloadServices,
        }
    }
}

} // verus!
