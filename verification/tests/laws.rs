use telecon::bot::handlers::callback::{process_callback, CallbackPlan};
use telecon::bot::keyboard::folder_keyboard;
use telecon::bot::sender::{plan_delivery, Delivery};
use telecon::cli::parse_buttons;
use telecon::domain::notification::Notification;
use telecon::parser::handler::HandlerRegistry;
use telecon::parser::tree::Node;
use telecon::parser::{folder_node, ScanEntry, Service};
use telecon::text::trim;
use telecon::utils::find_node;

const OWNER: u64 = 1;

fn service(name: &str) -> Service {
    Service { title: name.to_uppercase(), name: name.to_string(), command: "true".into(), args: vec![] }
}

fn tree() -> Node {
    let inner = folder_node("Inner".into(), vec![ScanEntry::ServiceFile(service("deep"))]);
    let outer = folder_node(
        "Outer".into(),
        vec![ScanEntry::Folder { name: "inner".into(), node: inner }, ScanEntry::ServiceFile(service("mid"))],
    );
    folder_node(
        "".into(),
        vec![ScanEntry::Folder { name: "outer".into(), node: outer }, ScanEntry::ServiceFile(service("top"))],
    )
}

fn name_of(n: Option<&Node>) -> String {
    match n {
        Some(Node::Folder(f)) => format!("folder {}", f.title()),
        Some(Node::Service(s)) => format!("service {}", s.name),
        None => "none".to_string(),
    }
}

#[test]
fn find_node_composes_on_paths() {
    let t = tree();
    for (a, b) in [("outer", "inner/deep"), ("outer/inner", "deep"), ("", "top"), ("outer", "mid"), ("top", "x")] {
        let joined = format!("{}/{}", a, b);
        let stepwise = find_node(&t, a).and_then(|n| find_node(n, b));
        assert_eq!(name_of(find_node(&t, &joined)), name_of(stepwise));
    }
}

#[test]
fn every_button_does_what_it_shows() {
    let t = tree();
    let handlers = HandlerRegistry::new();
    for path in ["", "outer", "outer/inner"] {
        let node = find_node(&t, path).unwrap();
        let folder = match node {
            Node::Folder(f) => f,
            _ => panic!("folder expected"),
        };
        let kb = folder_keyboard(node, path);
        for i in 0..folder.len() {
            let (key, child) = folder.entry(i);
            let data = kb.rows[i][0].callback_data.clone();
            match (child, process_callback(Some(&data), OWNER, OWNER, &t, &handlers)) {
                (Node::Folder(_), CallbackPlan::ShowKeyboard { keyboard, .. }) => {
                    let child_path = if path.is_empty() { key.clone() } else { format!("{}/{}", path, key) };
                    assert_eq!(keyboard, folder_keyboard(child, &child_path));
                }
                (Node::Service(s), CallbackPlan::RunService(r)) => assert_eq!(s, r),
                (_, other) => panic!("button {} gave {:?}", data, other),
            }
        }
        if !path.is_empty() {
            let back = kb.rows.last().unwrap()[0].callback_data.clone();
            let parent = match path.rsplit_once('/') {
                Some((p, _)) => p,
                None => "",
            };
            match process_callback(Some(&back), OWNER, OWNER, &t, &handlers) {
                CallbackPlan::ShowKeyboard { keyboard, .. } => {
                    assert_eq!(keyboard, folder_keyboard(find_node(&t, parent).unwrap(), parent))
                }
                other => panic!("back gave {:?}", other),
            }
        }
    }
}

#[test]
fn every_file_is_sent_once() {
    let n = Notification {
        text: Some("t".into()),
        files: vec!["a.txt".into(), "b.jpg".into()],
        media: vec!["c.jpg".into(), "d.mp4".into(), "e.mp3".into(), "f".into(), "c.jpg".into()],
        buttons: vec![],
    };
    let mut sent: Vec<String> = Vec::new();
    for d in plan_delivery(&n) {
        match d {
            Delivery::Document(f) => sent.push(f),
            Delivery::Message { .. } => {}
        }
    }
    let expected: Vec<String> = n.files.iter().chain(n.media.iter()).cloned().collect();
    assert_eq!(sent, expected);
}

#[test]
fn written_buttons_parse_back() {
    let buttons = vec![("Reboot", "reboot:now"), ("", "x"), ("Up date", "")];
    let written: Vec<String> = buttons.iter().map(|(t, d)| format!("{}:{}", t, d)).collect();
    let parsed = parse_buttons(&written.join(","));
    let expected: Vec<(String, String)> =
        buttons.iter().map(|(t, d)| (t.to_string(), d.to_string())).collect();
    assert_eq!(parsed, expected);
}

#[test]
fn trim_removes_exactly_white_space() {
    let white: Vec<u32> = vec![
        0x9, 0xA, 0xB, 0xC, 0xD, 0x20, 0x85, 0xA0, 0x1680, 0x2000, 0x2001, 0x2002, 0x2003, 0x2004,
        0x2005, 0x2006, 0x2007, 0x2008, 0x2009, 0x200A, 0x2028, 0x2029, 0x202F, 0x205F, 0x3000,
    ];
    for c in (0u32..=0x10FFFF).filter_map(char::from_u32) {
        let s = c.to_string();
        assert_eq!(trim(&s).is_empty(), white.contains(&(c as u32)), "char {:x}", c as u32);
    }
}
