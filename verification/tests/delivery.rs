use telecon::app::command_runner::CommandRunner;
use telecon::app::dispatcher::reload_report;
use telecon::bot::sender::{build_keyboard, plan_delivery, socket_loop_steps, Delivery, LoopStep};
use telecon::config::Config;
use telecon::domain::notification::Notification;
use telecon::socket::SocketCommand;

fn strings(v: &[&str]) -> Vec<String> {
    v.iter().map(|s| s.to_string()).collect()
}

fn note(text: Option<&str>, files: &[&str], media: &[&str], buttons: &[(&str, &str)]) -> Notification {
    Notification {
        text: text.map(|t| t.to_string()),
        files: strings(files),
        media: strings(media),
        buttons: buttons.iter().map(|(a, b)| (a.to_string(), b.to_string())).collect(),
    }
}

#[test]
fn text_with_buttons_is_one_message() {
    let n = note(Some("Choose action:"), &[], &[], &[("Reboot", "reboot"), ("Update", "update")]);
    let plan = plan_delivery(&n);
    assert_eq!(plan.len(), 1);
    match &plan[0] {
        Delivery::Message { text, keyboard } => {
            assert_eq!(text, "Choose action:");
            let kb = keyboard.as_ref().unwrap();
            assert_eq!(kb.rows.len(), 2);
            assert_eq!(kb.rows[0][0].text, "Reboot");
            assert_eq!(kb.rows[1][0].callback_data, "update");
        }
        other => panic!("unexpected {:?}", other),
    }
}

fn doc(f: &str) -> Delivery {
    Delivery::Document(f.to_string())
}

#[test]
fn files_then_media_as_documents_then_text() {
    let n = note(
        Some("Screenshot"),
        &["/var/log/syslog"],
        &["/tmp/screenshot.png", "b.mp4", "d.mp3", "e.bin"],
        &[("X", "x")],
    );
    let plan = plan_delivery(&n);
    assert_eq!(plan.len(), 6);
    assert_eq!(
        plan[..5].to_vec(),
        vec![doc("/var/log/syslog"), doc("/tmp/screenshot.png"), doc("b.mp4"), doc("d.mp3"), doc("e.bin")]
    );
    match &plan[5] {
        Delivery::Message { text, keyboard } => {
            assert_eq!(text, "Screenshot");
            assert_eq!(keyboard.as_ref().unwrap().rows[0][0].callback_data, "x");
        }
        other => panic!("unexpected {:?}", other),
    }
}

#[test]
fn media_without_text_are_only_documents() {
    let n = note(None, &[], &["a.JPG", "s.mp3"], &[]);
    assert_eq!(plan_delivery(&n), vec![doc("a.JPG"), doc("s.mp3")]);
}

#[test]
fn text_with_documents_is_a_message_after_them() {
    let n = note(Some("Logs"), &["a.log"], &["b.txt"], &[]);
    assert_eq!(
        plan_delivery(&n),
        vec![
            Delivery::Document("a.log".to_string()),
            Delivery::Document("b.txt".to_string()),
            Delivery::Message { text: "Logs".to_string(), keyboard: None },
        ]
    );
}

#[test]
fn empty_notification_sends_nothing() {
    assert!(plan_delivery(&note(None, &[], &[], &[("a", "b")])).is_empty());
}

#[test]
fn keyboard_only_with_buttons() {
    assert!(build_keyboard(&note(Some("t"), &[], &[], &[])).is_none());
    let kb = build_keyboard(&note(None, &[], &[], &[("T", "d")])).unwrap();
    assert_eq!(kb.rows.len(), 1);
    assert_eq!(kb.rows[0].len(), 1);
    assert_eq!(kb.rows[0][0].text, "T");
    assert_eq!(kb.rows[0][0].callback_data, "d");
}

#[test]
fn send_request_is_one_notification() {
    let steps = socket_loop_steps(SocketCommand::SendMessage {
        text: Some("hi".to_string()),
        files: strings(&["f"]),
        media: vec![],
        buttons: vec![],
    });
    assert_eq!(steps, vec![LoopStep::Send(note(Some("hi"), &["f"], &[], &[]))]);
}

#[test]
fn reload_request_reloads_and_reports() {
    let steps = socket_loop_steps(SocketCommand::ReloadServices);
    assert_eq!(
        steps,
        vec![
            LoopStep::ReloadServices,
            LoopStep::Send(note(Some("Services reloaded"), &[], &[], &[])),
            LoopStep::ReloadHandlers,
            LoopStep::Send(note(Some("Custom handlers reloaded"), &[], &[], &[])),
        ]
    );
}

#[test]
fn reload_reports() {
    assert_eq!(reload_report(&Ok(())), note(Some("Services reloaded"), &[], &[], &[]));
    assert_eq!(
        reload_report(&Err("task panicked".to_string())),
        note(Some("Reload error: task panicked"), &[], &[], &[])
    );
}

#[test]
fn command_output_interpretation() {
    let output = CommandRunner::interpret_output(b"hello\n", b"").unwrap();
    assert_eq!(output.trim(), "hello");
    let output = CommandRunner::interpret_output(b"world\n", b"").unwrap();
    assert_eq!(output.trim(), "world");
    assert_eq!(
        CommandRunner::interpret_output(b"out", b"boom\n"),
        Err("boom\n".to_string())
    );
    assert_eq!(
        CommandRunner::interpret_output(b"a\xffb", b""),
        Ok("a\u{fffd}b".to_string())
    );
}

#[test]
fn owner_chat_id_fits_or_not() {
    let c = Config { token: "test-token".to_string(), owner_id: 123 };
    assert_eq!(c.owner_chat_id(), Some(123));
    let c = Config { token: "t".to_string(), owner_id: u64::MAX };
    assert_eq!(c.owner_chat_id(), None);
    let c = Config { token: "t".to_string(), owner_id: i64::MAX as u64 };
    assert_eq!(c.owner_chat_id(), Some(i64::MAX));
}
