//! The tree of services: folders keyed by name, services at the leaves.

use vstd::prelude::*;

use crate::parser::Service;
use crate::text::{char_seq_lt, lemma_char_seq_lt_irreflexive, lemma_char_seq_lt_total, lemma_char_seq_lt_asymmetric,
    lemma_char_seq_lt_transitive, str_equal, str_less};

verus! {

/// A node of the service tree.
#[derive(Debug, PartialEq, Eq)]
pub enum Node {
    Folder(Folder),
    Service(Service),
}

/// A folder: a title and children keyed by name, kept in increasing key order.
#[derive(Debug, PartialEq, Eq)]
pub struct Folder {
    title: String,
    children: Vec<(String, Node)>,
}

/// The keys of `entries` increase strictly in the order `char_seq_lt`.
pub open spec fn keys_sorted(entries: Seq<(String, Node)>) -> bool {
    forall|i: int, j: int|
        0 <= i < j < entries.len() ==> char_seq_lt(
            #[trigger] entries[i].0@,
            #[trigger] entries[j].0@,
        )
}

/// Entry `i` of `entries` is the one with key `key`.
pub open spec fn key_at(entries: Seq<(String, Node)>, key: Seq<char>, i: int) -> bool {
    0 <= i < entries.len() && entries[i].0@ == key
}

/// The node stored under `key` in `entries`, if any.
pub open spec fn entry_lookup(entries: Seq<(String, Node)>, key: Seq<char>) -> Option<Node> {
    if exists|i: int| key_at(entries, key, i) {
        Some(entries[choose|i: int| key_at(entries, key, i)].1)
    } else {
        None
    }
}

/// In sorted entries, the entry at `i` is the one found under its key.
pub proof fn lemma_sorted_lookup_at(entries: Seq<(String, Node)>, i: int)
    requires
        keys_sorted(entries),
        0 <= i < entries.len(),
    ensures
        entry_lookup(entries, entries[i].0@) == Some(entries[i].1),
{
    let key = entries[i].0@;
    assert(key_at(entries, key, i));
    let j = choose|j: int| key_at(entries, key, j);
    if j < i {
        assert(char_seq_lt(entries[j].0@, entries[i].0@));
        lemma_char_seq_lt_irreflexive(key);
    } else if i < j {
        assert(char_seq_lt(entries[i].0@, entries[j].0@));
        lemma_char_seq_lt_irreflexive(key);
    }
}

/// Inserting an entry at its place in key order keeps the entries sorted and
/// stores it under its key, leaving every other key as it was.
proof fn lemma_insert_in_order(entries: Seq<(String, Node)>, i: int, e: (String, Node))
    requires
        keys_sorted(entries),
        0 <= i <= entries.len(),
        forall|j: int| 0 <= j < i ==> char_seq_lt(#[trigger] entries[j].0@, e.0@),
        i < entries.len() ==> char_seq_lt(e.0@, entries[i].0@),
    ensures
        keys_sorted(entries.insert(i, e)),
        entry_lookup(entries.insert(i, e), e.0@) == Some(e.1),
        forall|k: Seq<char>| k != e.0@ ==> entry_lookup(entries.insert(i, e), k) == entry_lookup(entries, k),
{
    let new = entries.insert(i, e);
    assert forall|a: int, b: int| 0 <= a < b < new.len() implies char_seq_lt(
        #[trigger] new[a].0@,
        #[trigger] new[b].0@,
    ) by {
        if a < i && b == i {
        } else if a == i && b > i {
            if b - 1 > i {
                assert(char_seq_lt(entries[i].0@, entries[b - 1].0@));
                lemma_char_seq_lt_transitive(e.0@, entries[i].0@, entries[b - 1].0@);
            }
        } else if a < i && b > i {
            assert(char_seq_lt(entries[a].0@, entries[b - 1].0@));
        } else if a > i {
            assert(char_seq_lt(entries[a - 1].0@, entries[b - 1].0@));
        }
    }
    lemma_sorted_lookup_at(new, i);
    assert forall|k: Seq<char>| k != e.0@ implies entry_lookup(new, k) == entry_lookup(entries, k) by {
        if exists|j: int| key_at(entries, k, j) {
            let j = choose|j: int| key_at(entries, k, j);
            lemma_sorted_lookup_at(entries, j);
            if j < i {
                assert(new[j] == entries[j]);
                lemma_sorted_lookup_at(new, j);
            } else {
                assert(new[j + 1] == entries[j]);
                lemma_sorted_lookup_at(new, j + 1);
            }
        } else {
            if exists|j: int| key_at(new, k, j) {
                let j = choose|j: int| key_at(new, k, j);
                if j < i {
                    assert(key_at(entries, k, j));
                } else {
                    assert(key_at(entries, k, j - 1));
                }
            }
        }
    }
}

/// Replacing the entry that holds a key keeps the entries sorted and stores
/// the new node under it, leaving every other key as it was.
proof fn lemma_replace_in_place(entries: Seq<(String, Node)>, i: int, e: (String, Node))
    requires
        keys_sorted(entries),
        0 <= i < entries.len(),
        entries[i].0@ == e.0@,
    ensures
        keys_sorted(entries.update(i, e)),
        entry_lookup(entries.update(i, e), e.0@) == Some(e.1),
        forall|k: Seq<char>| k != e.0@ ==> entry_lookup(entries.update(i, e), k) == entry_lookup(entries, k),
{
    let new = entries.update(i, e);
    assert forall|a: int, b: int| 0 <= a < b < new.len() implies char_seq_lt(
        #[trigger] new[a].0@,
        #[trigger] new[b].0@,
    ) by {
        assert(char_seq_lt(entries[a].0@, entries[b].0@));
    }
    lemma_sorted_lookup_at(new, i);
    assert forall|k: Seq<char>| k != e.0@ implies entry_lookup(new, k) == entry_lookup(entries, k) by {
        if exists|j: int| key_at(entries, k, j) {
            let j = choose|j: int| key_at(entries, k, j);
            lemma_sorted_lookup_at(entries, j);
            lemma_sorted_lookup_at(new, j);
        } else {
            if exists|j: int| key_at(new, k, j) {
                let j = choose|j: int| key_at(new, k, j);
                assert(key_at(entries, k, j));
            }
        }
    }
}

impl Folder {
    /// The children in key order.
    pub closed spec fn entries(&self) -> Seq<(String, Node)> {
        self.children@
    }

    /// The folder's title.
    pub closed spec fn title_view(&self) -> Seq<char> {
        self.title@
    }

    #[verifier::type_invariant]
    pub open spec fn wf(&self) -> bool {
        keys_sorted(self.entries())
    }

    /// The child under `key`, if any.
    pub open spec fn child(&self, key: Seq<char>) -> Option<Node> {
        entry_lookup(self.entries(), key)
    }

    /// An empty folder with the given title.
    pub fn new(title: String) -> (f: Folder)
        ensures
            f.title_view() == title@,
            f.entries() == Seq::<(String, Node)>::empty(),
    {
        Folder { title, children: Vec::new() }
    }

    /// The folder's title.
    pub fn title(&self) -> (t: &String)
        ensures
            t@ == self.title_view(),
    {
        &self.title
    }

    /// The number of children.
    pub fn len(&self) -> (n: usize)
        ensures
            n == self.entries().len(),
    {
        self.children.len()
    }

    /// The child at position `i` in key order, with its key.
    pub fn entry(&self, i: usize) -> (e: (&String, &Node))
        requires
            i < self.entries().len(),
        ensures
            *e.0 == self.entries()[i as int].0,
            *e.1 == self.entries()[i as int].1,
    {
        let (k, n) = &self.children[i];
        (k, n)
    }

    /// Finds the child under `key`.
    pub fn get(&self, key: &str) -> (r: Option<&Node>)
        ensures
            match r {
                Some(n) => self.child(key@) == Some(*n),
                None => self.child(key@) is None,
            },
    {
        proof {
            use_type_invariant(self);
        }
        let n = self.children.len();
        let mut i: usize = 0;
        while i < n
            invariant
                n == self.entries().len(),
                keys_sorted(self.entries()),
                i <= n,
                forall|j: int| 0 <= j < i ==> self.entries()[j].0@ != key@,
            decreases n - i,
        {
            if str_equal(self.children[i].0.as_str(), key) {
                proof {
                    lemma_sorted_lookup_at(self.entries(), i as int);
                }
                return Some(&self.children[i].1);
            }
            i = i + 1;
        }
        None
    }

    /// Tells whether a child is stored under `key`.
    pub fn contains_key(&self, key: &str) -> (b: bool)
        ensures
            b == (self.child(key@) is Some),
    {
        self.get(key).is_some()
    }

    /// Stores `node` under `key`, replacing the child already stored there.
    pub fn insert(&mut self, key: String, node: Node)
        ensures
            final(self).title_view() == old(self).title_view(),
            final(self).child(key@) == Some(node),
            final(self).entries().len() == old(self).entries().len() + if old(self).child(key@) is Some {
                0int
            } else {
                1int
            },
            forall|k: Seq<char>| k != key@ ==> final(self).child(k) == old(self).child(k),
    {
        proof {
            use_type_invariant(&*self);
        }
        let ghost old_entries = self.entries();
        let n = self.children.len();
        let mut i: usize = 0;
        while i < n && str_less(self.children[i].0.as_str(), key.as_str())
            invariant
                n == self.entries().len(),
                self.entries() == old_entries,
                keys_sorted(old_entries),
                i <= n,
                forall|j: int| 0 <= j < i ==> char_seq_lt(#[trigger] old_entries[j].0@, key@),
            decreases n - i,
        {
            i = i + 1;
        }
        let replace = i < n && str_equal(self.children[i].0.as_str(), key.as_str());
        let ghost e = (key, node);
        proof {
            if i < n && !replace {
                lemma_char_seq_lt_total(old_entries[i as int].0@, key@);
            }
        }
        let mut children: Vec<(String, Node)> = Vec::new();
        std::mem::swap(&mut children, &mut self.children);
        if replace {
            proof {
                lemma_replace_in_place(old_entries, i as int, e);
                assert(key_at(old_entries, key@, i as int));
            }
            children.set(i, (key, node));
        } else {
            proof {
                lemma_insert_in_order(old_entries, i as int, e);
                assert forall|j: int| !key_at(old_entries, key@, j) by {
                    if key_at(old_entries, key@, j) {
                        if j < i {
                            lemma_char_seq_lt_irreflexive(key@);
                        } else {
                            if j > i {
                                assert(char_seq_lt(old_entries[i as int].0@, old_entries[j].0@));
                                lemma_char_seq_lt_asymmetric(key@, old_entries[i as int].0@);
                            }
                            lemma_char_seq_lt_irreflexive(key@);
                        }
                    }
                }
            }
            children.insert(i, (key, node));
        }
        self.children = children;
    }
}

} // verus!
