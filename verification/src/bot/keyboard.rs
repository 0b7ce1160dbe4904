//! Inline keyboards that let the owner browse the service tree.

use vstd::prelude::*;

use crate::parser::Service;
use crate::parser::tree::{Folder, Node, lemma_sorted_lookup_at};
use crate::utils::{
    join_path, lemma_child_path_segments, lemma_join_path_segments, lemma_segments_plain,
    lemma_walk_push, normalized_path, path_segments, walk,
};

verus! {

/// A button: its label and the data that the chat sends back when it is pressed.
#[derive(Debug, Clone, PartialEq, Eq)]
pub struct Button {
    pub text: String,
    pub callback_data: String,
}

/// An inline keyboard, row by row.
#[derive(Debug, Clone, PartialEq, Eq)]
pub struct Keyboard {
    pub rows: Vec<Vec<Button>>,
}

impl View for Button {
    type V = (Seq<char>, Seq<char>);

    open spec fn view(&self) -> (Seq<char>, Seq<char>) {
        (self.text@, self.callback_data@)
    }
}

/// The views of a row of buttons.
pub open spec fn row_view(row: Seq<Button>) -> Seq<(Seq<char>, Seq<char>)> {
    row.map_values(|b: Button| b@)
}

impl View for Keyboard {
    type V = Seq<Seq<(Seq<char>, Seq<char>)>>;

    open spec fn view(&self) -> Seq<Seq<(Seq<char>, Seq<char>)>> {
        self.rows@.map_values(|r: Vec<Button>| row_view(r@))
    }
}

/// The label prefix of a folder button.
pub open spec fn folder_icon() -> Seq<char> {
    "\u{1F4C1} "@
}

/// The label prefix of a service button.
pub open spec fn service_icon() -> Seq<char> {
    "\u{2699}\u{FE0F} "@
}

/// The label of the button that goes one level up.
pub open spec fn back_label() -> Seq<char> {
    "\u{2B05} Back"@
}

/// The callback prefix of a button that opens a folder.
pub open spec fn open_prefix() -> Seq<char> {
    "open:"@
}

/// The callback prefix of a button that runs a service.
pub open spec fn run_prefix() -> Seq<char> {
    "run:"@
}

/// The path of the child `key` of the folder at `path`.
pub open spec fn child_path(path: Seq<char>, key: Seq<char>) -> Seq<char> {
    if path.len() == 0 {
        key
    } else {
        path + seq!['/'] + key
    }
}

/// The path up to its last `/`, or the empty path where it has none
/// (what `rsplit_once('/')` keeps of it).
pub open spec fn parent_path(path: Seq<char>) -> Seq<char>
    decreases path.len(),
{
    if path.len() == 0 {
        Seq::empty()
    } else if path.last() == '/' {
        path.drop_last()
    } else {
        parent_path(path.drop_last())
    }
}

/// The button for the child `key` of the folder at `path`.
pub open spec fn child_button(path: Seq<char>, key: Seq<char>, child: Node) -> (Seq<char>, Seq<char>) {
    match child {
        Node::Folder(f) => (folder_icon() + f.title_view(), open_prefix() + child_path(path, key)),
        Node::Service(s) => (service_icon() + s.title@, run_prefix() + child_path(path, key)),
    }
}

/// The button that opens the parent of the folder at `path`.
pub open spec fn back_button(path: Seq<char>) -> (Seq<char>, Seq<char>) {
    (back_label(), open_prefix() + parent_path(path))
}

/// One row per child of `node` (none when `node` is a service), in key
/// order, then a back row when `path` is not the root.
pub open spec fn keyboard_spec(node: Node, path: Seq<char>) -> Seq<Seq<(Seq<char>, Seq<char>)>> {
    let child_rows = match node {
        Node::Folder(f) => f.entries().map_values(
            |e: (String, Node)| seq![child_button(path, e.0@, e.1)],
        ),
        Node::Service(_) => Seq::empty(),
    };
    if path.len() == 0 {
        child_rows
    } else {
        child_rows.push(seq![back_button(path)])
    }
}

/// A keyboard row that holds one button.
fn single_row(text: String, callback_data: String) -> (row: Vec<Button>)
    ensures
        row_view(row@) == seq![(text@, callback_data@)],
{
    let mut row: Vec<Button> = Vec::new();
    row.push(Button { text, callback_data });
    assert(row_view(row@) =~= seq![(text@, callback_data@)]);
    row
}

/// The path of the child `key` of the folder at `path`.
pub fn child_path_of(path: &str, key: &String) -> (p: String)
    ensures
        p@ == child_path(path@, key@),
{
    if path.unicode_len() == 0 {
        key.clone()
    } else {
        let mut p = path.to_owned();
        p.append("/");
        p.append(key.as_str());
        proof {
            reveal_strlit("/");
        }
        p
    }
}

/// The path up to its last `/`, or the empty path where it has none.
pub fn parent_path_of(path: &str) -> (p: String)
    ensures
        p@ == parent_path(path@),
{
    let n = path.unicode_len();
    let mut i: usize = n;
    assert(path@.take(n as int) =~= path@);
    while i > 0 && path.get_char(i - 1) != '/'
        invariant
            n == path@.len(),
            i <= n,
            parent_path(path@) == parent_path(path@.take(i as int)),
        decreases i,
    {
        assert(path@.take(i as int).drop_last() =~= path@.take(i - 1));
        i = i - 1;
    }
    if i == 0 {
        assert(path@.take(0) =~= Seq::<char>::empty());
        String::new()
    } else {
        assert(path@.take(i as int).drop_last() =~= path@.take(i - 1));
        path.substring_char(0, i - 1).to_owned()
    }
}

/// The keyboard for the node at `path`: one button per child of a folder,
/// opening sub-folders and running services, and a back button below any
/// folder but the root.
pub fn folder_keyboard(node: &Node, path: &str) -> (kb: Keyboard)
    ensures
        kb@ == keyboard_spec(*node, path@),
{
    let mut rows: Vec<Vec<Button>> = Vec::new();
    if let Node::Folder(folder) = node {
        let n = folder.len();
        let mut i: usize = 0;
        while i < n
            invariant
                n == folder.entries().len(),
                i <= n,
                rows@.len() == i,
                forall|j: int| 0 <= j < i ==> row_view(#[trigger] rows@[j]@) == seq![
                    child_button(path@, folder.entries()[j].0@, folder.entries()[j].1),
                ],
            decreases n - i,
        {
            let (key, child) = folder.entry(i);
            let data_path = child_path_of(path, key);
            let row = match child {
                Node::Folder(f) => {
                    let text = "\u{1F4C1} ".to_owned().concat(f.title().as_str());
                    let data = "open:".to_owned().concat(data_path.as_str());
                    single_row(text, data)
                },
                Node::Service(s) => {
                    let text = "\u{2699}\u{FE0F} ".to_owned().concat(s.title.as_str());
                    let data = "run:".to_owned().concat(data_path.as_str());
                    single_row(text, data)
                },
            };
            rows.push(row);
            i = i + 1;
        }
    }
    if path.unicode_len() > 0 {
        let parent = parent_path_of(path);
        let data = "open:".to_owned().concat(parent.as_str());
        rows.push(single_row("\u{2B05} Back".to_owned(), data));
    }
    let kb = Keyboard { rows };
    assert(kb@ =~= keyboard_spec(*node, path@));
    kb
}

/// Slash-free characters at the end of a path do not move its parent.
proof fn lemma_parent_path_skips_plain(s: Seq<char>, k: Seq<char>)
    requires
        !k.contains('/'),
    ensures
        parent_path(s + k) == parent_path(s),
    decreases k.len(),
{
    if k.len() == 0 {
        assert(s + k =~= s);
    } else {
        assert(k[k.len() - 1] != '/');
        assert((s + k).drop_last() =~= s + k.drop_last());
        assert(!k.drop_last().contains('/')) by {
            if k.drop_last().contains('/') {
                let j = choose|j: int| 0 <= j < k.drop_last().len() && k.drop_last()[j] == '/';
                assert(k[j] == '/');
            }
        }
        lemma_parent_path_skips_plain(s, k.drop_last());
    }
}

/// The back button below the keyboard of a child opens the folder that holds
/// it: the parent of a child's path is the folder's path.
pub proof fn law_back_button_opens_parent(path: Seq<char>, key: Seq<char>)
    requires
        !key.contains('/'),
    ensures
        parent_path(child_path(path, key)) == path,
{
    if path.len() == 0 {
        let e = Seq::<char>::empty();
        assert(e + key =~= key);
        lemma_parent_path_skips_plain(e, key);
    } else {
        let ps = path + seq!['/'];
        lemma_parent_path_skips_plain(ps, key);
        assert(ps.drop_last() =~= path);
    }
}

/// Every child button of the keyboard for the folder at `path` carries, after
/// its prefix, the path that `find_node` follows back to that very child.
pub proof fn law_child_button_reaches_child(root: Node, path: Seq<char>, f: Folder, j: int)
    requires
        walk(root, path_segments(path)) == Some(Node::Folder(f)),
        f.wf(),
        0 <= j < f.entries().len(),
        f.entries()[j].0@.len() > 0,
        !f.entries()[j].0@.contains('/'),
    ensures
        keyboard_spec(Node::Folder(f), path)[j] == seq![
            child_button(path, f.entries()[j].0@, f.entries()[j].1),
        ],
        walk(root, path_segments(child_path(path, f.entries()[j].0@))) == Some(f.entries()[j].1),
{
    let key = f.entries()[j].0@;
    lemma_child_path_segments(path, key);
    lemma_walk_push(root, path_segments(path), key);
    lemma_sorted_lookup_at(f.entries(), j);
}

/// The back button below the keyboard of any node leads to the folder that
/// holds it: for a path without empty segments that names a node, the
/// keyboard ends with the back button, whose path names a folder that holds
/// the node under the path's last segment.
pub proof fn law_back_button_leads_to_holder(root: Node, path: Seq<char>, node: Node)
    requires
        path.len() > 0,
        path == normalized_path(path),
        walk(root, path_segments(path)) == Some(node),
    ensures
        keyboard_spec(node, path).last() == seq![back_button(path)],
        back_button(path).1 == open_prefix() + parent_path(path),
        walk(root, path_segments(parent_path(path))) matches Some(Node::Folder(f)) && f.child(
            path_segments(path).last(),
        ) == Some(node),
{
    let segs = path_segments(path);
    lemma_segments_plain(path);
    lemma_join_path_segments(segs);
    let front = segs.drop_last();
    let key = segs.last();
    assert(segs.len() > 0);
    assert(key == segs[segs.len() - 1]);
    assert(join_path(segs) == child_path(join_path(front), key));
    law_back_button_opens_parent(join_path(front), key);
    assert forall|i: int| 0 <= i < front.len() implies (#[trigger] front[i]).len() > 0
        && !front[i].contains('/') by {
        assert(front[i] == segs[i]);
    }
    lemma_join_path_segments(front);
    assert(front.push(key) =~= segs);
    lemma_walk_push(root, front, key);
}

/// The keyboard of a folder at any path has one row per child, in key
/// order, then a back row below any folder but the root. Row `j` holds one
/// button: the folder icon and the child folder's own title, or the service
/// icon and the child service's title, whatever the path; its data opens the
/// child folder or runs the child service at the child's path.
pub proof fn law_folder_keyboard_rows(f: Folder, path: Seq<char>)
    ensures
        keyboard_spec(Node::Folder(f), path).len() == f.entries().len() + if path.len() > 0 {
            1int
        } else {
            0int
        },
        forall|j: int|
            0 <= j < f.entries().len() ==> (#[trigger] keyboard_spec(Node::Folder(f), path)[j]).len()
                == 1,
        forall|j: int|
            0 <= j < f.entries().len() ==> (#[trigger] keyboard_spec(Node::Folder(f), path)[j])[0].0
                == match f.entries()[j].1 {
                Node::Folder(g) => "\u{1F4C1} "@ + g.title_view(),
                Node::Service(s) => "\u{2699}\u{FE0F} "@ + s.title@,
            },
        forall|j: int|
            0 <= j < f.entries().len() ==> (#[trigger] keyboard_spec(Node::Folder(f), path)[j])[0].1
                == match f.entries()[j].1 {
                Node::Folder(_) => "open:"@,
                Node::Service(_) => "run:"@,
            } + if path.len() == 0 {
                f.entries()[j].0@
            } else {
                path + seq!['/'] + f.entries()[j].0@
            },
        path.len() > 0 ==> keyboard_spec(Node::Folder(f), path).last() == seq![
            ("\u{2B05} Back"@, "open:"@ + parent_path(path)),
        ],
{
}

/// The keyboard of a service holds only the back row, below the root, and
/// nothing at the root.
pub proof fn law_service_keyboard(s: Service, path: Seq<char>)
    ensures
        keyboard_spec(Node::Service(s), path) == if path.len() > 0 {
            seq![seq![("\u{2B05} Back"@, "open:"@ + parent_path(path))]]
        } else {
            Seq::<Seq<(Seq<char>, Seq<char>)>>::empty()
        },
{
    assert(Seq::<Seq<(Seq<char>, Seq<char>)>>::empty().push(seq![back_button(path)]) =~= seq![seq![back_button(path)]]);
}

} // verus!
