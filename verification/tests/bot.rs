use telecon::bot::handlers::callback::{process_callback, CallbackPlan};
use telecon::bot::handlers::command::process_command;
use telecon::bot::keyboard::{child_path_of, folder_keyboard, parent_path_of, Keyboard};
use telecon::bot::Command;
use telecon::parser::handler::{HandlerConfig, HandlerRegistry};
use telecon::parser::tree::Node;
use telecon::parser::{folder_node, ScanEntry, Service};

const OWNER: u64 = 42;

fn service(name: &str, title: &str) -> Service {
    Service {
        title: title.to_string(),
        name: name.to_string(),
        command: "echo".to_string(),
        args: vec![],
    }
}

fn sample_tree() -> Node {
    let tools = folder_node(
        "Tools".to_string(),
        vec![ScanEntry::ServiceFile(service("disk", "Disk usage"))],
    );
    folder_node(
        "".to_string(),
        vec![
            ScanEntry::ServiceFile(service("echo", "Echo")),
            ScanEntry::Folder { name: "tools".to_string(), node: tools },
        ],
    )
}

fn rows(kb: &Keyboard) -> Vec<Vec<(String, String)>> {
    kb.rows
        .iter()
        .map(|r| r.iter().map(|b| (b.text.clone(), b.callback_data.clone())).collect())
        .collect()
}

fn pair(a: &str, b: &str) -> Vec<(String, String)> {
    vec![(a.to_string(), b.to_string())]
}

#[test]
fn root_keyboard() {
    let tree = sample_tree();
    let kb = folder_keyboard(&tree, "");
    assert_eq!(
        rows(&kb),
        vec![pair("\u{2699}\u{fe0f} Echo", "run:echo"), pair("\u{1f4c1} Tools", "open:tools")]
    );
}

#[test]
fn nested_keyboard_has_back_button() {
    let tree = sample_tree();
    let tools = telecon::utils::find_node(&tree, "tools").unwrap();
    let kb = folder_keyboard(tools, "tools");
    assert_eq!(
        rows(&kb),
        vec![pair("\u{2699}\u{fe0f} Disk usage", "run:tools/disk"), pair("\u{2b05} Back", "open:")]
    );
}

#[test]
fn service_keyboard_is_only_back() {
    let tree = sample_tree();
    let disk = telecon::utils::find_node(&tree, "tools/disk").unwrap();
    let kb = folder_keyboard(disk, "tools/disk");
    assert_eq!(rows(&kb), vec![pair("\u{2b05} Back", "open:tools")]);
    let kb = folder_keyboard(disk, "");
    assert!(kb.rows.is_empty());
}

#[test]
fn paths_of_children_and_parents() {
    assert_eq!(child_path_of("", &"a".to_string()), "a");
    assert_eq!(child_path_of("a/b", &"c".to_string()), "a/b/c");
    assert_eq!(parent_path_of("a/b/c"), "a/b");
    assert_eq!(parent_path_of("a"), "");
    assert_eq!(parent_path_of(""), "");
    assert_eq!(parent_path_of("a/"), "a");
}

fn registry() -> HandlerRegistry {
    HandlerRegistry::from_configs(vec![HandlerConfig {
        name: "reboot".to_string(),
        command: "systemctl".to_string(),
        args: vec!["reboot".to_string()],
    }])
}

#[test]
fn callback_without_data_is_ignored() {
    let tree = sample_tree();
    let handlers = registry();
    assert_eq!(process_callback(None, OWNER, OWNER, &tree, &handlers), CallbackPlan::Ignore);
}

#[test]
fn callback_naming_a_handler_runs_it_for_anyone() {
    let tree = sample_tree();
    let handlers = registry();
    for from in [OWNER, 7] {
        match process_callback(Some("reboot"), from, OWNER, &tree, &handlers) {
            CallbackPlan::RunHandler(h) => assert_eq!(h.command, "systemctl"),
            other => panic!("unexpected {:?}", other),
        }
    }
}

#[test]
fn callback_from_stranger_is_ignored() {
    let tree = sample_tree();
    let handlers = registry();
    assert_eq!(process_callback(Some("run:echo"), 7, OWNER, &tree, &handlers), CallbackPlan::Ignore);
}

#[test]
fn callback_open_shows_keyboard() {
    let tree = sample_tree();
    let handlers = registry();
    match process_callback(Some("open:tools"), OWNER, OWNER, &tree, &handlers) {
        CallbackPlan::ShowKeyboard { text, keyboard } => {
            assert_eq!(text, "Select:");
            assert_eq!(
                rows(&keyboard),
                vec![
                    pair("\u{2699}\u{fe0f} Disk usage", "run:tools/disk"),
                    pair("\u{2b05} Back", "open:")
                ]
            );
        }
        other => panic!("unexpected {:?}", other),
    }
    match process_callback(Some("open:"), OWNER, OWNER, &tree, &handlers) {
        CallbackPlan::ShowKeyboard { keyboard, .. } => assert_eq!(keyboard.rows.len(), 2),
        other => panic!("unexpected {:?}", other),
    }
}

#[test]
fn callback_run_runs_service() {
    let tree = sample_tree();
    let handlers = registry();
    match process_callback(Some("run:tools/disk"), OWNER, OWNER, &tree, &handlers) {
        CallbackPlan::RunService(s) => assert_eq!(s.name, "disk"),
        other => panic!("unexpected {:?}", other),
    }
}

#[test]
fn callback_that_finds_nothing_is_only_answered() {
    let tree = sample_tree();
    let handlers = registry();
    assert_eq!(process_callback(Some("run:tools"), OWNER, OWNER, &tree, &handlers), CallbackPlan::Answer);
    assert_eq!(process_callback(Some("open:nope"), OWNER, OWNER, &tree, &handlers), CallbackPlan::Answer);
    assert_eq!(process_callback(Some("hello"), OWNER, OWNER, &tree, &handlers), CallbackPlan::Answer);
}

#[test]
fn command_replies() {
    let tree = sample_tree();
    let start = process_command(Some(OWNER), OWNER, &Command::Start, &tree).unwrap();
    assert_eq!(start.text, "I'm a service management bot.\nWrite /services");
    assert!(start.keyboard.is_none());
    let services = process_command(Some(OWNER), OWNER, &Command::Services, &tree).unwrap();
    assert_eq!(services.text, "Choose a service:");
    assert_eq!(services.keyboard.map(|k| k.rows.len()), Some(2));
    assert!(process_command(Some(7), OWNER, &Command::Start, &tree).is_none());
    assert!(process_command(None, OWNER, &Command::Services, &tree).is_none());
}
