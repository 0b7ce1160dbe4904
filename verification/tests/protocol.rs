use telecon::cli::{parse_buttons, send_command, CliError};
use telecon::line_socket::{empty_input_reply, encode_line, parse_line, reply_line, SocketCommand};
use telecon::socket::SocketCommand as Request;
use telecon::text::trim;

fn pairs(v: &[(&str, &str)]) -> Vec<(String, String)> {
    v.iter().map(|(a, b)| (a.to_string(), b.to_string())).collect()
}

#[test]
fn buttons_from_readme_example() {
    assert_eq!(parse_buttons("Reboot:reboot,Update:update"), pairs(&[("Reboot", "reboot"), ("Update", "update")]));
}

#[test]
fn buttons_edge_cases() {
    assert!(parse_buttons("").is_empty());
    assert!(parse_buttons("plain").is_empty());
    assert_eq!(parse_buttons("a,b:c:d,:x,y:"), pairs(&[("b", "c:d"), ("", "x"), ("y", "")]));
    assert_eq!(parse_buttons(",,T:d,,"), pairs(&[("T", "d")]));
}

#[test]
fn send_needs_something() {
    assert_eq!(send_command(None, vec![], vec![], None), Err(CliError::NothingToSend));
    assert_eq!(
        send_command(Some("hi".to_string()), vec![], vec![], None),
        Ok(Request::SendMessage { text: Some("hi".to_string()), files: vec![], media: vec![], buttons: vec![] })
    );
    assert_eq!(
        send_command(None, vec![], vec![], Some("A:a".to_string())),
        Ok(Request::SendMessage { text: None, files: vec![], media: vec![], buttons: pairs(&[("A", "a")]) })
    );
    assert_eq!(
        send_command(None, vec![], vec![], Some("".to_string())),
        Ok(Request::SendMessage { text: None, files: vec![], media: vec![], buttons: vec![] })
    );
}

#[test]
fn line_requests() {
    assert_eq!(parse_line("send hello world\n"), Some(SocketCommand::SendMessage("hello world".to_string())));
    assert_eq!(parse_line("reload\n"), Some(SocketCommand::ReloadServices));
    assert_eq!(parse_line("  reload \t\n"), Some(SocketCommand::ReloadServices));
    assert_eq!(parse_line("\u{3000}reload\u{a0}"), Some(SocketCommand::ReloadServices));
    assert_eq!(parse_line("send  two\n"), Some(SocketCommand::SendMessage(" two".to_string())));
    assert_eq!(parse_line("send \n"), None);
    assert_eq!(parse_line("sendx\n"), None);
    assert_eq!(parse_line("Reload\n"), None);
    assert_eq!(parse_line(""), None);
}

#[test]
fn line_roundtrip() {
    for cmd in [SocketCommand::SendMessage("hi there".to_string()), SocketCommand::ReloadServices] {
        assert_eq!(parse_line(&encode_line(&cmd)), Some(cmd));
    }
    assert_eq!(encode_line(&SocketCommand::SendMessage("x".to_string())), "send x\n");
    assert_eq!(encode_line(&SocketCommand::ReloadServices), "reload\n");
}

#[test]
fn line_replies() {
    let send = Some(SocketCommand::SendMessage("x".to_string()));
    let reload = Some(SocketCommand::ReloadServices);
    assert_eq!(reply_line(&send, true), "ok\n");
    assert_eq!(reply_line(&send, false), "failed to send\n");
    assert_eq!(reply_line(&reload, true), "reloading services\n");
    assert_eq!(reply_line(&reload, false), "failed to reload\n");
    assert_eq!(reply_line(&None, true), "unknown command\n");
    assert_eq!(empty_input_reply(), "empty input\n");
}

#[test]
fn trim_matches_white_space() {
    assert_eq!(trim("\u{85}\u{2028} a b \u{205f}"), "a b");
    assert_eq!(trim("\u{200b}x"), "\u{200b}x");
    assert_eq!(trim(""), "");
}

#[test]
fn line_request_as_daemon_request() {
    assert_eq!(
        SocketCommand::SendMessage("hi".to_string()).into_request(),
        Request::SendMessage { text: Some("hi".to_string()), files: vec![], media: vec![], buttons: vec![] }
    );
    assert_eq!(SocketCommand::ReloadServices.into_request(), Request::ReloadServices);
}
