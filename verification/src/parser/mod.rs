//! Service definitions and the tree of services shown in the bot menu.

pub mod handler;
pub mod tree;

use vstd::prelude::*;

use crate::parser::tree::{Folder, Node};
use crate::utils::walk;

verus! {

/// A service: an entry of the bot menu that runs a command when chosen.
#[derive(Debug, Clone, PartialEq, Eq)]
pub struct Service {
    pub title: String,
    pub name: String,
    pub command: String,
    pub args: Vec<String>,
}

impl Service {
    /// The service as a line of text: `title - name`.
    pub fn display_text(&self) -> (s: String)
        ensures
            s@ == self.title@ + " - "@ + self.name@,
    {
        let mut s = self.title.clone();
        s.append(" - ");
        s.append(self.name.as_str());
        s
    }
}

/// What a scan of a services directory found in one entry: a sub-folder
/// (already scanned) or a service definition file.
#[derive(Debug, PartialEq, Eq)]
pub enum ScanEntry {
    Folder { name: String, node: Node },
    ServiceFile(Service),
}

impl ScanEntry {
    /// The key the entry is stored under: the folder's name, or the
    /// service's own name.
    pub open spec fn key(&self) -> Seq<char> {
        match self {
            ScanEntry::Folder { name, .. } => name@,
            ScanEntry::ServiceFile(s) => s.name@,
        }
    }

    /// The node the entry becomes.
    pub open spec fn node(&self) -> Node {
        match self {
            ScanEntry::Folder { node, .. } => *node,
            ScanEntry::ServiceFile(s) => Node::Service(*s),
        }
    }
}

/// The node of the last entry of `entries` stored under `key`, if any.
pub open spec fn last_entry_under(entries: Seq<ScanEntry>, key: Seq<char>) -> Option<Node>
    decreases entries.len(),
{
    if entries.len() == 0 {
        None
    } else if entries.last().key() == key {
        Some(entries.last().node())
    } else {
        last_entry_under(entries.drop_last(), key)
    }
}

/// The number of distinct keys among `entries`.
pub open spec fn distinct_keys(entries: Seq<ScanEntry>) -> nat
    decreases entries.len(),
{
    if entries.len() == 0 {
        0
    } else if last_entry_under(entries.drop_last(), entries.last().key()) is Some {
        distinct_keys(entries.drop_last())
    } else {
        distinct_keys(entries.drop_last()) + 1
    }
}

/// The folder titled `title` that holds the scanned `entries`, each stored
/// under its key, a later entry replacing an earlier one with the same key.
pub fn folder_node(title: String, entries: Vec<ScanEntry>) -> (node: Node)
    ensures
        match node {
            Node::Folder(f) => {
                &&& f.title_view() == title@
                &&& forall|k: Seq<char>| f.child(k) == last_entry_under(entries@, k)
                &&& f.entries().len() == distinct_keys(entries@)
            },
            Node::Service(_) => false,
        },
{
    let ghost all = entries@;
    let total = entries.len();
    let mut folder = Folder::new(title);
    let mut rest = entries;
    let mut i: usize = 0;
    assert(all.skip(0) =~= all);
    while rest.len() > 0
        invariant
            rest@ == all.skip(i as int),
            all.len() == total,
            i <= total,
            folder.title_view() == title@,
            forall|k: Seq<char>| folder.child(k) == last_entry_under(all.take(i as int), k),
            folder.entries().len() == distinct_keys(all.take(i as int)),
        decreases rest.len(),
    {
        let e = rest.remove(0);
        assert(all.take(i + 1).drop_last() =~= all.take(i as int));
        assert(all.take(i + 1).last() == e);
        assert(rest@ =~= all.skip(i + 1));
        match e {
            ScanEntry::Folder { name, node } => folder.insert(name, node),
            ScanEntry::ServiceFile(s) => {
                let key = s.name.clone();
                folder.insert(key, Node::Service(s));
            },
        }
        i = i + 1;
    }
    assert(all.take(i as int) =~= all);
    Node::Folder(folder)
}

/// A scanned services directory: its title and what it holds, in the order
/// the scan met it.
#[derive(Debug, PartialEq, Eq)]
pub struct ScanDir {
    pub title: String,
    pub entries: Vec<ScanItem>,
}

/// One thing a scanned directory holds: a sub-directory (named by its
/// title) or a service definition file.
#[derive(Debug, PartialEq, Eq)]
pub enum ScanItem {
    Dir(ScanDir),
    ServiceFile(Service),
}

/// The key an item is stored under: a directory's title, a service's name.
pub open spec fn item_key(it: ScanItem) -> Seq<char> {
    match it {
        ScanItem::Dir(d) => d.title@,
        ScanItem::ServiceFile(s) => s.name@,
    }
}

/// Item `i` is the last of `items` with its key.
pub open spec fn is_last_for(items: Seq<ScanItem>, i: int) -> bool {
    &&& 0 <= i < items.len()
    &&& forall|j: int| i < j < items.len() ==> item_key(#[trigger] items[j]) != item_key(items[i])
}

/// `node` is the tree of the scanned directory `d`: a folder titled like
/// `d`, holding a child under each key that an item of `d` has, and, under
/// the key of each item that is the last with its key, that item's service
/// or the tree of that item's directory.
pub open spec fn built_from(node: Node, d: ScanDir) -> bool
    decreases d,
{
    match node {
        Node::Folder(f) => {
            &&& f.title_view() == d.title@
            &&& forall|k: Seq<char>|
                (#[trigger] f.child(k) is Some) == (exists|i: int|
                    0 <= i < d.entries@.len() && item_key(d.entries@[i]) == k)
            &&& forall|i: int|
                #![trigger d.entries@[i]]
                0 <= i < d.entries@.len() && is_last_for(d.entries@, i) ==> match d.entries@[i] {
                    ScanItem::ServiceFile(s) => f.child(s.name@) == Some(Node::Service(s)),
                    ScanItem::Dir(sub) => f.child(sub.title@) matches Some(c) && built_from(c, sub),
                }
        },
        Node::Service(_) => false,
    }
}

/// The scan entries `conv` stand item by item for `items`, under the same keys.
pub open spec fn keys_agree(conv: Seq<ScanEntry>, items: Seq<ScanItem>) -> bool {
    &&& conv.len() == items.len()
    &&& forall|j: int| 0 <= j < conv.len() ==> (#[trigger] conv[j]).key() == item_key(items[j])
}

proof fn lemma_keys_agree_front(conv: Seq<ScanEntry>, items: Seq<ScanItem>)
    requires
        keys_agree(conv, items),
        conv.len() > 0,
    ensures
        keys_agree(conv.drop_last(), items.drop_last()),
{
    assert forall|j: int| 0 <= j < conv.drop_last().len() implies (
    #[trigger] conv.drop_last()[j]).key() == item_key(items.drop_last()[j]) by {
        assert(conv.drop_last()[j] == conv[j]);
        assert(items.drop_last()[j] == items[j]);
    }
}

proof fn lemma_last_entry_domain(conv: Seq<ScanEntry>, items: Seq<ScanItem>, k: Seq<char>)
    requires
        keys_agree(conv, items),
    ensures
        (last_entry_under(conv, k) is Some) == (exists|i: int|
            0 <= i < items.len() && item_key(items[i]) == k),
    decreases conv.len(),
{
    if conv.len() > 0 {
        lemma_keys_agree_front(conv, items);
        lemma_last_entry_domain(conv.drop_last(), items.drop_last(), k);
        let n = conv.len() - 1;
        assert(conv[n].key() == item_key(items[n]));
        if exists|i: int| 0 <= i < items.len() && item_key(items[i]) == k {
            let i = choose|i: int| 0 <= i < items.len() && item_key(items[i]) == k;
            if i < n {
                assert(items.drop_last()[i] == items[i]);
            }
        }
        if exists|i: int| 0 <= i < items.drop_last().len() && item_key(items.drop_last()[i]) == k {
            let i = choose|i: int| 0 <= i < items.drop_last().len() && item_key(items.drop_last()[i]) == k;
            assert(items.drop_last()[i] == items[i]);
        }
    }
}

proof fn lemma_last_entry_at(conv: Seq<ScanEntry>, items: Seq<ScanItem>, i: int)
    requires
        keys_agree(conv, items),
        is_last_for(items, i),
    ensures
        last_entry_under(conv, item_key(items[i])) == Some(conv[i].node()),
    decreases conv.len(),
{
    let n = conv.len() - 1;
    assert(conv[n].key() == item_key(items[n]));
    assert(conv[i].key() == item_key(items[i]));
    if i < n {
        assert(item_key(items[n]) != item_key(items[i]));
        lemma_keys_agree_front(conv, items);
        assert(items.drop_last()[i] == items[i]);
        assert(conv.drop_last()[i] == conv[i]);
        assert forall|j: int| i < j < items.drop_last().len() implies item_key(
            #[trigger] items.drop_last()[j],
        ) != item_key(items.drop_last()[i]) by {
            assert(items.drop_last()[j] == items[j]);
        }
        lemma_last_entry_at(conv.drop_last(), items.drop_last(), i);
    }
}

/// The tree of a scanned directory: each directory becomes a folder titled
/// like it, holding its items under their keys, a later item replacing an
/// earlier one with the same key.
pub fn build_tree(dir: ScanDir) -> (node: Node)
    ensures
        built_from(node, dir),
    decreases dir,
{
    let ghost d0 = dir;
    let ScanDir { title, entries } = dir;
    let ghost all = entries@;
    let total = entries.len();
    let mut conv: Vec<ScanEntry> = Vec::new();
    let mut rest = entries;
    let mut i: usize = 0;
    assert(all.skip(0) =~= all);
    #[verifier::loop_isolation(false)]
    while rest.len() > 0
        invariant
            rest@ == all.skip(i as int),
            all == d0.entries@,
            all.len() == total,
            i <= total,
            conv@.len() == i,
            keys_agree(conv@, all.take(i as int)),
            forall|j: int|
                0 <= j < i ==> match #[trigger] all[j] {
                    ScanItem::ServiceFile(s) => conv@[j] == ScanEntry::ServiceFile(s),
                    ScanItem::Dir(sub) => conv@[j] matches ScanEntry::Folder { node, .. }
                        && built_from(node, sub),
                },
        decreases rest.len(),
    {
        let it = rest.remove(0);
        assert(it == all[i as int]);
        assert(rest@ =~= all.skip(i + 1));
        let ghost before = conv@;
        match it {
            ScanItem::Dir(sub) => {
                let name = sub.title.clone();
                proof {
                    assert(decreases_to!(d0 => d0.entries));
                    assert(decreases_to!(d0.entries => d0.entries@));
                    assert(decreases_to!(d0.entries@ => d0.entries@[i as int]));
                    assert(d0.entries@[i as int] == ScanItem::Dir(sub));
                    assert(decreases_to!(d0.entries@[i as int] => sub));
                    assert(decreases_to!(d0 => sub));
                }
                let node = build_tree(sub);
                conv.push(ScanEntry::Folder { name, node });
            },
            ScanItem::ServiceFile(s) => {
                conv.push(ScanEntry::ServiceFile(s));
            },
        }
        proof {
            assert(conv@.drop_last() == before);
            assert forall|j: int| 0 <= j < conv@.len() implies (#[trigger] conv@[j]).key() == item_key(
                all.take(i + 1)[j],
            ) by {
                if j < i {
                    assert(conv@[j] == before[j]);
                    assert(all.take(i + 1)[j] == all.take(i as int)[j]);
                }
            }
        }
        i = i + 1;
    }
    assert(all.take(i as int) =~= all);
    let ghost cs = conv@;
    let node = folder_node(title, conv);
    proof {
        let ghost_node = node;
        match ghost_node {
            Node::Folder(f) => {
                assert forall|k: Seq<char>| (#[trigger] f.child(k) is Some) == (exists|i: int|
                    0 <= i < all.len() && item_key(all[i]) == k) by {
                    lemma_last_entry_domain(cs, all, k);
                }
                assert forall|j: int| 0 <= j < all.len() && is_last_for(all, j) implies match all[j] {
                    ScanItem::ServiceFile(s) => f.child(s.name@) == Some(Node::Service(s)),
                    ScanItem::Dir(sub) => f.child(sub.title@) matches Some(c) && built_from(c, sub),
                } by {
                    lemma_last_entry_at(cs, all, j);
                }
            },
            Node::Service(_) => {},
        }
    }
    node
}

proof fn lemma_last_exists(items: Seq<ScanItem>, i: int) -> (j: int)
    requires
        0 <= i < items.len(),
    ensures
        is_last_for(items, j),
        item_key(items[j]) == item_key(items[i]),
    decreases items.len() - i,
{
    if exists|j: int| i < j < items.len() && item_key(items[j]) == item_key(items[i]) {
        let j = choose|j: int| i < j < items.len() && item_key(items[j]) == item_key(items[i]);
        lemma_last_exists(items, j)
    } else {
        i
    }
}

proof fn lemma_child_item(f: Folder, d: ScanDir, k: Seq<char>) -> (j: int)
    requires
        built_from(Node::Folder(f), d),
        f.child(k) is Some,
    ensures
        is_last_for(d.entries@, j),
        item_key(d.entries@[j]) == k,
{
    assert(f.child(k) is Some);
    let i = choose|i: int| 0 <= i < d.entries@.len() && item_key(d.entries@[i]) == k;
    lemma_last_exists(d.entries@, i)
}

/// Each child of `f` is stored under its own key: a service under its name,
/// a folder under its title.
pub open spec fn keys_match(f: Folder) -> bool {
    forall|k: Seq<char>|
        #[trigger] f.child(k) is Some ==> match f.child(k)->0 {
            Node::Service(s) => s.name@ == k,
            Node::Folder(g) => g.title_view() == k,
        }
}

/// In the tree of a scanned directory, every folder reached by any path
/// stores each service under the service's name and each sub-folder under
/// its title.
pub proof fn law_scanned_keys_match(node: Node, d: ScanDir, segs: Seq<Seq<char>>)
    requires
        built_from(node, d),
    ensures
        walk(node, segs) matches Some(Node::Folder(f)) ==> keys_match(f),
    decreases segs.len(),
{
    match node {
        Node::Folder(f) => {
            if segs.len() == 0 {
                assert forall|k: Seq<char>| #[trigger] f.child(k) is Some implies match f.child(k)->0 {
                    Node::Service(s) => s.name@ == k,
                    Node::Folder(g) => g.title_view() == k,
                } by {
                    let j = lemma_child_item(f, d, k);
                    match d.entries@[j] {
                        ScanItem::ServiceFile(s) => {},
                        ScanItem::Dir(sub) => {
                            let c = f.child(k)->0;
                            assert(built_from(c, sub));
                            match c {
                                Node::Folder(g) => {
                                    assert(g.title_view() == sub.title@);
                                },
                                Node::Service(_) => {},
                            }
                        },
                    }
                }
            } else {
                if f.child(segs[0]) is Some {
                    let j = lemma_child_item(f, d, segs[0]);
                    match d.entries@[j] {
                        ScanItem::ServiceFile(s) => {
                            let rest = segs.drop_first();
                            if rest.len() > 0 {
                                assert(walk(Node::Service(s), rest) is None);
                            }
                        },
                        ScanItem::Dir(sub) => {
                            let c = f.child(segs[0])->0;
                            law_scanned_keys_match(c, sub, segs.drop_first());
                        },
                    }
                }
            }
        },
        Node::Service(_) => {},
    }
}

/// The directory reached in a scan by following directory titles, each the
/// last item of its key in its directory.
pub open spec fn scan_walk(d: ScanDir, titles: Seq<Seq<char>>) -> Option<ScanDir>
    decreases titles.len(),
{
    if titles.len() == 0 {
        Some(d)
    } else if exists|j: int|
        is_last_for(d.entries@, j) && d.entries@[j] is Dir && item_key(d.entries@[j]) == titles[0] {
        let j = choose|j: int|
            is_last_for(d.entries@, j) && d.entries@[j] is Dir && item_key(d.entries@[j]) == titles[0];
        match d.entries@[j] {
            ScanItem::Dir(sub) => scan_walk(sub, titles.drop_first()),
            ScanItem::ServiceFile(_) => None,
        }
    } else {
        None
    }
}

/// A service is reached in the tree of a scan by the titles of the
/// directories that hold it followed by its name (not its file name), where
/// each of these is the last item of its key in its directory.
pub proof fn law_service_reached_by_name(
    node: Node,
    d: ScanDir,
    titles: Seq<Seq<char>>,
    dk: ScanDir,
    j: int,
    s: Service,
)
    requires
        built_from(node, d),
        scan_walk(d, titles) == Some(dk),
        is_last_for(dk.entries@, j),
        dk.entries@[j] == ScanItem::ServiceFile(s),
    ensures
        walk(node, titles.push(s.name@)) == Some(Node::Service(s)),
    decreases titles.len(),
{
    match node {
        Node::Folder(f) => {
            if titles.len() == 0 {
                assert(dk == d);
                let path = titles.push(s.name@);
                assert(path[0] == s.name@);
                assert(path.drop_first() =~= Seq::<Seq<char>>::empty());
                assert(walk(Node::Service(s), Seq::<Seq<char>>::empty()) == Some(Node::Service(s)));
            } else {
                let i = choose|i: int|
                    is_last_for(d.entries@, i) && d.entries@[i] is Dir && item_key(d.entries@[i])
                        == titles[0];
                match d.entries@[i] {
                    ScanItem::Dir(sub) => {
                        let c = f.child(sub.title@)->0;
                        law_service_reached_by_name(c, sub, titles.drop_first(), dk, j, s);
                        let path = titles.push(s.name@);
                        assert(path[0] == titles[0]);
                        assert(path.drop_first() =~= titles.drop_first().push(s.name@));
                    },
                    ScanItem::ServiceFile(_) => {},
                }
            }
        },
        Node::Service(_) => {},
    }
}

} // verus!
