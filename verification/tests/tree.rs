use telecon::parser::handler::{HandlerConfig, HandlerRegistry};
use telecon::parser::tree::{Folder, Node};
use telecon::parser::{build_tree, folder_node, ScanDir, ScanEntry, ScanItem, Service};
use telecon::paths::{is_service_file, path_extension};
use telecon::utils::{find_node, path_segments_of};

fn service(name: &str, title: &str) -> Service {
    Service {
        title: title.to_string(),
        name: name.to_string(),
        command: "echo".to_string(),
        args: vec![name.to_string()],
    }
}

fn sample_tree() -> Node {
    let tools = folder_node(
        "Tools".to_string(),
        vec![
            ScanEntry::ServiceFile(service("disk", "Disk usage")),
            ScanEntry::ServiceFile(service("uptime", "Uptime")),
        ],
    );
    folder_node(
        "root".to_string(),
        vec![
            ScanEntry::Folder { name: "tools".to_string(), node: tools },
            ScanEntry::ServiceFile(service("echo", "Echo")),
        ],
    )
}

fn service_name(node: Option<&Node>) -> Option<String> {
    match node {
        Some(Node::Service(s)) => Some(s.name.clone()),
        _ => None,
    }
}

#[test]
fn tree_from_entries_and_find_node() {
    let tree = folder_node(
        "root".to_string(),
        vec![ScanEntry::ServiceFile(service("test_service", "Test Service"))],
    );
    match &tree {
        Node::Folder(folder) => {
            assert_eq!(folder.title(), "root");
            assert!(folder.contains_key("test_service"));
        }
        _ => panic!("Root should be a folder"),
    }
    let node = find_node(&tree, "test_service").unwrap();
    match node {
        Node::Service(s) => assert_eq!(s.name, "test_service"),
        _ => panic!("Node should be service"),
    }
}

#[test]
fn find_node_follows_segments() {
    let tree = sample_tree();
    assert!(matches!(find_node(&tree, ""), Some(Node::Folder(f)) if f.title() == "root"));
    assert!(matches!(find_node(&tree, "tools"), Some(Node::Folder(f)) if f.title() == "Tools"));
    assert_eq!(service_name(find_node(&tree, "tools/disk")), Some("disk".to_string()));
    assert_eq!(service_name(find_node(&tree, "/tools//uptime/")), Some("uptime".to_string()));
    assert_eq!(service_name(find_node(&tree, "echo")), Some("echo".to_string()));
}

#[test]
fn find_node_misses() {
    let tree = sample_tree();
    assert!(find_node(&tree, "nothing").is_none());
    assert!(find_node(&tree, "tools/nothing").is_none());
    assert!(find_node(&tree, "echo/deeper").is_none());
}

#[test]
fn path_segments_drop_empty_pieces() {
    assert_eq!(path_segments_of("/a//b/c/"), vec!["a", "b", "c"]);
    assert!(path_segments_of("").is_empty());
    assert!(path_segments_of("///").is_empty());
    assert_eq!(path_segments_of("x"), vec!["x"]);
}

#[test]
fn folder_keeps_keys_in_order_and_replaces() {
    let mut f = Folder::new("t".to_string());
    f.insert("b".to_string(), Node::Service(service("b", "B")));
    f.insert("a".to_string(), Node::Service(service("a", "A")));
    f.insert("c".to_string(), Node::Service(service("c", "C")));
    f.insert("b".to_string(), Node::Service(service("b2", "B2")));
    assert_eq!(f.len(), 3);
    let keys: Vec<String> = (0..f.len()).map(|i| f.entry(i).0.clone()).collect();
    assert_eq!(keys, vec!["a", "b", "c"]);
    assert_eq!(service_name(f.get("b")), Some("b2".to_string()));
    assert!(f.get("d").is_none());
}

#[test]
fn folder_orders_like_string_order() {
    let mut f = Folder::new("t".to_string());
    let names = ["zeta", "Alpha", "alpha", "al", "\u{e9}t\u{e9}", "beta"];
    for n in names.iter() {
        f.insert(n.to_string(), Node::Service(service(n, n)));
    }
    let keys: Vec<String> = (0..f.len()).map(|i| f.entry(i).0.clone()).collect();
    let mut sorted: Vec<String> = names.iter().map(|s| s.to_string()).collect();
    sorted.sort();
    assert_eq!(keys, sorted);
}

#[test]
fn later_entry_replaces_earlier_one() {
    let tree = folder_node(
        "root".to_string(),
        vec![
            ScanEntry::ServiceFile(service("dup", "First")),
            ScanEntry::ServiceFile(service("dup", "Second")),
        ],
    );
    match find_node(&tree, "dup") {
        Some(Node::Service(s)) => assert_eq!(s.title, "Second"),
        _ => panic!("dup should be a service"),
    }
}

#[test]
fn handler_registry_from_configs() {
    let handler = HandlerConfig {
        name: "my_handler".to_string(),
        command: "echo".to_string(),
        args: vec!["hello".to_string()],
    };
    let registry: HandlerRegistry = HandlerRegistry::from_configs(vec![handler]);
    assert!(registry.contains_key("my_handler"));
    let handler: &HandlerConfig = registry.get("my_handler").unwrap();
    assert_eq!(handler.command, "echo");
    assert_eq!(handler.args, vec!["hello"]);
}

#[test]
fn handler_registry_later_wins() {
    let first = HandlerConfig { name: "h".into(), command: "a".into(), args: vec![] };
    let other = HandlerConfig { name: "g".into(), command: "b".into(), args: vec![] };
    let second = HandlerConfig { name: "h".into(), command: "c".into(), args: vec![] };
    let registry = HandlerRegistry::from_configs(vec![first, other, second]);
    assert_eq!(registry.len(), 2);
    assert_eq!(registry.get("h").unwrap().command, "c");
    assert_eq!(registry.get("g").unwrap().command, "b");
    assert!(registry.get("x").is_none());
    assert!(!registry.contains_key("x"));
}

#[test]
fn service_file_extension() {
    assert!(is_service_file("/data/services/backup.toml"));
    assert!(is_service_file("backup.toml/"));
    assert!(!is_service_file("backup.TOML"));
    assert!(!is_service_file(".toml"));
    assert!(!is_service_file("dir/"));
    assert!(!is_service_file("backup.toml.bak"));
}

#[test]
fn path_extension_cases() {
    assert_eq!(path_extension("a/b.txt"), Some("txt".to_string()));
    assert_eq!(path_extension("a/.bashrc"), None);
    assert_eq!(path_extension("a/.x.y"), Some("y".to_string()));
    assert_eq!(path_extension("foo."), Some("".to_string()));
    assert_eq!(path_extension("a.b/.."), None);
    assert_eq!(path_extension("a.b/."), Some("b".to_string()));
    assert_eq!(path_extension("/"), None);
    assert_eq!(path_extension(""), None);
    assert_eq!(path_extension("noext"), None);
}

#[test]
fn service_display_text() {
    assert_eq!(service("echo", "Echo Service").display_text(), "Echo Service - echo");
}

#[test]
fn scanned_tree_keys_and_reach() {
    let scan = ScanDir {
        title: "".to_string(),
        entries: vec![
            ScanItem::Dir(ScanDir {
                title: "d1".to_string(),
                entries: vec![ScanItem::Dir(ScanDir {
                    title: "d2".to_string(),
                    entries: vec![ScanItem::ServiceFile(service("svc", "Service"))],
                })],
            }),
            ScanItem::ServiceFile(service("top", "Top")),
            ScanItem::Dir(ScanDir { title: "top".to_string(), entries: vec![] }),
        ],
    };
    let tree = build_tree(scan);
    assert_eq!(service_name(find_node(&tree, "d1/d2/svc")), Some("svc".to_string()));
    assert!(matches!(find_node(&tree, "d1/d2"), Some(Node::Folder(f)) if f.title() == "d2"));
    // the later directory "top" replaces the service of the same key
    assert!(matches!(find_node(&tree, "top"), Some(Node::Folder(f)) if f.title() == "top"));
    match &tree {
        Node::Folder(f) => assert_eq!(f.len(), 2),
        _ => panic!("root is a folder"),
    }
}
