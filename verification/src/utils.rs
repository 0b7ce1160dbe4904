//! Locating a node of the service tree by a slash-separated path.

use vstd::prelude::*;

use crate::parser::tree::Node;

verus! {

/// The pieces of `s` between `sep` separators, empty pieces included
/// (what `str::split(sep)` yields).
pub open spec fn split_on(s: Seq<char>, sep: char) -> Seq<Seq<char>>
    decreases s.len(),
{
    if s.len() == 0 {
        seq![Seq::<char>::empty()]
    } else {
        let r = split_on(s.drop_last(), sep);
        if s.last() == sep {
            r.push(Seq::<char>::empty())
        } else {
            r.update(r.len() - 1, r.last().push(s.last()))
        }
    }
}

/// The non-empty pieces among `pieces`, in order.
pub open spec fn nonempty_pieces(pieces: Seq<Seq<char>>) -> Seq<Seq<char>> {
    pieces.filter(|p: Seq<char>| p.len() > 0)
}

/// The segments of a path: its non-empty pieces between slashes.
pub open spec fn path_segments(path: Seq<char>) -> Seq<Seq<char>> {
    nonempty_pieces(split_on(path, '/'))
}

/// The views of a sequence of strings.
pub open spec fn string_views(v: Seq<String>) -> Seq<Seq<char>> {
    v.map_values(|x: String| x@)
}

/// The node reached from `node` by following `segs` through folder children.
pub open spec fn walk(node: Node, segs: Seq<Seq<char>>) -> Option<Node>
    decreases segs.len(),
{
    if segs.len() == 0 {
        Some(node)
    } else {
        match node {
            Node::Folder(f) => match f.child(segs[0]) {
                Some(c) => walk(c, segs.drop_first()),
                None => None,
            },
            Node::Service(_) => None,
        }
    }
}

pub proof fn lemma_split_is_never_empty(s: Seq<char>, sep: char)
    ensures
        split_on(s, sep).len() > 0,
    decreases s.len(),
{
    if s.len() > 0 {
        lemma_split_is_never_empty(s.drop_last(), sep);
    }
}

proof fn lemma_nonempty_pieces_push(pieces: Seq<Seq<char>>, p: Seq<char>)
    ensures
        nonempty_pieces(pieces.push(p)) == if p.len() > 0 {
            nonempty_pieces(pieces).push(p)
        } else {
            nonempty_pieces(pieces)
        },
{
    pieces.lemma_filter_push(p, |p: Seq<char>| p.len() > 0);
}

/// Splits a path into its segments.
pub fn path_segments_of(path: &str) -> (segs: Vec<String>)
    ensures
        string_views(segs@) == path_segments(path@),
{
    let n = path.unicode_len();
    let mut segs: Vec<String> = Vec::new();
    let mut start: usize = 0;
    let mut i: usize = 0;
    let ghost mut pieces: Seq<Seq<char>> = Seq::empty();
    assert(path@.take(0) =~= Seq::<char>::empty());
    assert(split_on(path@.take(0), '/') =~= pieces.push(path@.subrange(0, 0)));
    while i < n
        invariant
            n == path@.len(),
            start <= i <= n,
            split_on(path@.take(i as int), '/') == pieces.push(path@.subrange(start as int, i as int)),
            string_views(segs@) == nonempty_pieces(pieces),
        decreases n - i,
    {
        let c = path.get_char(i);
        let ghost cur = path@.subrange(start as int, i as int);
        assert(path@.take(i + 1).drop_last() =~= path@.take(i as int));
        assert(path@.take(i + 1).last() == c);
        if c == '/' {
            if start < i {
                let piece = path.substring_char(start, i).to_owned();
                segs.push(piece);
            }
            proof {
                lemma_nonempty_pieces_push(pieces, cur);
                assert(string_views(segs@) =~= nonempty_pieces(pieces.push(cur)));
                pieces = pieces.push(cur);
                assert(path@.subrange(i + 1, i + 1) =~= Seq::<char>::empty());
            }
            start = i + 1;
        } else {
            assert(path@.subrange(start as int, i + 1) =~= cur.push(c));
        }
        i = i + 1;
    }
    let ghost cur = path@.subrange(start as int, n as int);
    if start < n {
        let piece = path.substring_char(start, n).to_owned();
        segs.push(piece);
    }
    proof {
        lemma_nonempty_pieces_push(pieces, cur);
        assert(path@.take(n as int) =~= path@);
        assert(string_views(segs@) =~= nonempty_pieces(pieces.push(cur)));
    }
    segs
}

/// Finds the node at `path` below `root`: each non-empty segment of the path
/// names a child of the folder reached so far.
pub fn find_node<'a>(root: &'a Node, path: &str) -> (r: Option<&'a Node>)
    ensures
        match r {
            Some(n) => walk(*root, path_segments(path@)) == Some(*n),
            None => walk(*root, path_segments(path@)) is None,
        },
{
    let segs = path_segments_of(path);
    let ghost svs = string_views(segs@);
    let mut current = root;
    let mut k: usize = 0;
    assert(svs.skip(0) =~= svs);
    while k < segs.len()
        invariant
            svs == string_views(segs@),
            svs == path_segments(path@),
            k <= segs.len(),
            walk(*root, svs) == walk(*current, svs.skip(k as int)),
        decreases segs.len() - k,
    {
        let seg = &segs[k];
        assert(svs.skip(k as int)[0] == seg@);
        assert(svs.skip(k as int).drop_first() =~= svs.skip(k + 1));
        match current {
            Node::Folder(folder) => {
                match folder.get(seg.as_str()) {
                    Some(child) => {
                        current = child;
                    },
                    None => {
                        return None;
                    },
                }
            },
            Node::Service(_) => {
                return None;
            },
        }
        k = k + 1;
    }
    assert(svs.skip(k as int) =~= Seq::<Seq<char>>::empty());
    Some(current)
}

/// Appending characters other than the separator to a string extends its
/// last piece.
pub proof fn lemma_split_append_plain(s: Seq<char>, q: Seq<char>, sep: char)
    requires
        !q.contains(sep),
    ensures
        split_on(s + q, sep) == split_on(s, sep).update(
            split_on(s, sep).len() - 1,
            split_on(s, sep).last() + q,
        ),
    decreases q.len(),
{
    lemma_split_is_never_empty(s, sep);
    if q.len() == 0 {
        assert(s + q =~= s);
        assert(split_on(s, sep).last() + q =~= split_on(s, sep).last());
        assert(split_on(s, sep).update(split_on(s, sep).len() - 1, split_on(s, sep).last())
            =~= split_on(s, sep));
    } else {
        let q0 = q.drop_last();
        assert(!q0.contains(sep)) by {
            if q0.contains(sep) {
                let j = choose|j: int| 0 <= j < q0.len() && q0[j] == sep;
                assert(q[j] == sep);
            }
        }
        lemma_split_append_plain(s, q0, sep);
        assert((s + q).drop_last() =~= s + q0);
        assert((s + q).last() == q.last());
        assert(q.last() != sep) by {
            assert(q[q.len() - 1] == q.last());
        }
        assert(split_on(s, sep).last() + q0 + seq![q.last()] =~= split_on(s, sep).last() + q);
        assert((split_on(s, sep).last() + q0).push(q.last()) =~= split_on(s, sep).last() + q0 + seq![q.last()]);
    }
}

/// The segments of the path of a child: those of its folder, then its key.
pub proof fn lemma_child_path_segments(path: Seq<char>, key: Seq<char>)
    requires
        key.len() > 0,
        !key.contains('/'),
    ensures
        path_segments(if path.len() == 0 { key } else { path + seq!['/'] + key })
            == path_segments(path).push(key),
{
    if path.len() == 0 {
        let e = Seq::<char>::empty();
        assert(e + key =~= key);
        lemma_split_append_plain(e, key, '/');
        assert(split_on(e, '/') =~= seq![e]);
        assert(split_on(key, '/') =~= seq![e + key]);
        assert(split_on(key, '/') =~= Seq::<Seq<char>>::empty().push(key));
        lemma_nonempty_pieces_push(Seq::empty(), key);
        lemma_nonempty_pieces_push(Seq::empty(), e);
        assert(seq![e] =~= Seq::<Seq<char>>::empty().push(e));
        assert(nonempty_pieces(Seq::<Seq<char>>::empty()) =~= Seq::<Seq<char>>::empty());
        assert(split_on(path, '/') =~= seq![e]);
    } else {
        let ps = path + seq!['/'];
        assert(ps.drop_last() =~= path);
        assert(ps.last() == '/');
        let e = Seq::<char>::empty();
        assert(split_on(ps, '/') == split_on(path, '/').push(e));
        lemma_split_append_plain(ps, key, '/');
        assert(e + key =~= key);
        assert(split_on(ps + key, '/') =~= split_on(path, '/').push(e).push(key).drop_last().drop_last().push(key)) by {
            assert(split_on(path, '/').push(e).update(split_on(path, '/').len() as int, e + key)
                =~= split_on(path, '/').push(key));
        }
        assert(split_on(path, '/').push(e).push(key).drop_last().drop_last() =~= split_on(path, '/'));
        lemma_nonempty_pieces_push(split_on(path, '/'), key);
    }
}

/// Following a path one segment further goes to the child of the node reached.
pub proof fn lemma_walk_push(node: Node, segs: Seq<Seq<char>>, key: Seq<char>)
    ensures
        walk(node, segs.push(key)) == match walk(node, segs) {
            Some(Node::Folder(f)) => f.child(key),
            _ => None::<Node>,
        },
    decreases segs.len(),
{
    if segs.len() == 0 {
        assert(segs.push(key) =~= seq![key]);
        assert(seq![key][0] == key);
        assert(seq![key].drop_first() =~= Seq::<Seq<char>>::empty());
        match node {
            Node::Folder(f) => {
                match f.child(key) {
                    Some(c) => {
                        assert(walk(c, Seq::<Seq<char>>::empty()) == Some(c));
                    },
                    None => {},
                }
            },
            Node::Service(_) => {},
        }
    } else {
        assert(segs.push(key)[0] == segs[0]);
        assert(segs.push(key).drop_first() =~= segs.drop_first().push(key));
        match node {
            Node::Folder(f) => {
                match f.child(segs[0]) {
                    Some(c) => {
                        lemma_walk_push(c, segs.drop_first(), key);
                    },
                    None => {},
                }
            },
            Node::Service(_) => {},
        }
    }
}

proof fn lemma_split_concat(a: Seq<char>, b: Seq<char>, sep: char)
    ensures
        split_on(a + seq![sep] + b, sep) == split_on(a, sep) + split_on(b, sep),
    decreases b.len(),
{
    let e = Seq::<char>::empty();
    if b.len() == 0 {
        let s = a + seq![sep];
        assert(a + seq![sep] + b =~= s);
        assert(s.drop_last() =~= a);
        assert(s.last() == sep);
        assert(split_on(b, sep) =~= seq![e]);
        assert(split_on(a, sep).push(e) =~= split_on(a, sep) + seq![e]);
    } else {
        lemma_split_concat(a, b.drop_last(), sep);
        let s = a + seq![sep] + b;
        assert(s.drop_last() =~= a + seq![sep] + b.drop_last());
        assert(s.last() == b.last());
        lemma_split_is_never_empty(b.drop_last(), sep);
        let l = split_on(a, sep);
        let r = split_on(b.drop_last(), sep);
        if b.last() == sep {
            assert((l + r).push(e) =~= l + r.push(e));
        } else {
            assert((l + r).update((l + r).len() - 1, (l + r).last().push(b.last())) =~= l + r.update(
                r.len() - 1,
                r.last().push(b.last()),
            ));
        }
    }
}

proof fn lemma_walk_concat(node: Node, a: Seq<Seq<char>>, b: Seq<Seq<char>>)
    ensures
        walk(node, a + b) == match walk(node, a) {
            Some(m) => walk(m, b),
            None => None,
        },
    decreases a.len(),
{
    if a.len() == 0 {
        assert(a + b =~= b);
    } else {
        assert((a + b)[0] == a[0]);
        assert((a + b).drop_first() =~= a.drop_first() + b);
        match node {
            Node::Folder(f) => {
                match f.child(a[0]) {
                    Some(c) => lemma_walk_concat(c, a.drop_first(), b),
                    None => {},
                }
            },
            Node::Service(_) => {},
        }
    }
}

/// Following two paths joined by a slash reaches what following the first,
/// then the second from there, reaches.
pub proof fn law_find_node_composes(root: Node, first: Seq<char>, second: Seq<char>)
    ensures
        walk(root, path_segments(first + seq!['/'] + second)) == match walk(
            root,
            path_segments(first),
        ) {
            Some(m) => walk(m, path_segments(second)),
            None => None,
        },
{
    lemma_split_concat(first, second, '/');
    Seq::filter_distributes_over_add(
        split_on(first, '/'),
        split_on(second, '/'),
        |p: Seq<char>| p.len() > 0,
    );
    lemma_walk_concat(root, path_segments(first), path_segments(second));
}

/// The empty path names the root.
pub proof fn law_empty_path_is_root(root: Node)
    ensures
        walk(root, path_segments(Seq::empty())) == Some(root),
{
    let e = Seq::<char>::empty();
    assert(split_on(e, '/') =~= seq![e]);
    assert(seq![e].filter(|p: Seq<char>| p.len() > 0) =~= Seq::<Seq<char>>::empty()) by {
        reveal_with_fuel(Seq::<Seq<char>>::filter, 2);
    }
}

/// Segments joined by single slashes.
pub open spec fn join_path(segs: Seq<Seq<char>>) -> Seq<char>
    decreases segs.len(),
{
    if segs.len() == 0 {
        Seq::empty()
    } else {
        let p = join_path(segs.drop_last());
        if p.len() == 0 {
            segs.last()
        } else {
            p + seq!['/'] + segs.last()
        }
    }
}

/// A path with its empty segments dropped: no leading, trailing or double
/// slash.
pub open spec fn normalized_path(path: Seq<char>) -> Seq<char> {
    join_path(path_segments(path))
}

/// Each segment is non-empty and holds no slash.
pub open spec fn plain_segments(segs: Seq<Seq<char>>) -> bool {
    forall|i: int| 0 <= i < segs.len() ==> (#[trigger] segs[i]).len() > 0 && !segs[i].contains('/')
}

proof fn lemma_split_pieces_plain(s: Seq<char>, sep: char)
    ensures
        forall|i: int| 0 <= i < split_on(s, sep).len() ==> !(#[trigger] split_on(s, sep)[i]).contains(sep),
    decreases s.len(),
{
    if s.len() > 0 {
        lemma_split_pieces_plain(s.drop_last(), sep);
        lemma_split_is_never_empty(s.drop_last(), sep);
        let r = split_on(s.drop_last(), sep);
        if s.last() != sep {
            let l = r.last().push(s.last());
            assert(!l.contains(sep)) by {
                if l.contains(sep) {
                    let j = choose|j: int| 0 <= j < l.len() && l[j] == sep;
                    assert(r[r.len() - 1][j] == sep);
                }
            }
        }
    }
}

proof fn lemma_nonempty_pieces_plain(pieces: Seq<Seq<char>>)
    requires
        forall|i: int| 0 <= i < pieces.len() ==> !(#[trigger] pieces[i]).contains('/'),
    ensures
        plain_segments(nonempty_pieces(pieces)),
    decreases pieces.len(),
{
    if pieces.len() > 0 {
        let front = pieces.drop_last();
        assert(front.push(pieces.last()) =~= pieces);
        assert forall|i: int| 0 <= i < front.len() implies !(#[trigger] front[i]).contains('/') by {
            assert(front[i] == pieces[i]);
        }
        lemma_nonempty_pieces_plain(front);
        lemma_nonempty_pieces_push(front, pieces.last());
        assert(!pieces[pieces.len() - 1].contains('/'));
    } else {
        assert(nonempty_pieces(pieces) =~= Seq::<Seq<char>>::empty()) by {
            assert(pieces =~= Seq::<Seq<char>>::empty().push(Seq::<char>::empty()).drop_last());
            reveal_with_fuel(Seq::<Seq<char>>::filter, 1);
        }
    }
}

/// The segments of any path are non-empty and hold no slash.
pub proof fn lemma_segments_plain(path: Seq<char>)
    ensures
        plain_segments(path_segments(path)),
{
    lemma_split_pieces_plain(path, '/');
    lemma_nonempty_pieces_plain(split_on(path, '/'));
}

/// Joining plain segments and splitting the result gives them back.
pub proof fn lemma_join_path_segments(segs: Seq<Seq<char>>)
    requires
        plain_segments(segs),
    ensures
        path_segments(join_path(segs)) == segs,
        join_path(segs).len() == 0 <==> segs.len() == 0,
    decreases segs.len(),
{
    if segs.len() == 0 {
        let e = Seq::<char>::empty();
        assert(split_on(e, '/') =~= seq![e]);
        assert(seq![e] =~= Seq::<Seq<char>>::empty().push(e));
        lemma_nonempty_pieces_push(Seq::empty(), e);
        assert(nonempty_pieces(Seq::<Seq<char>>::empty()) =~= Seq::<Seq<char>>::empty()) by {
            reveal_with_fuel(Seq::<Seq<char>>::filter, 1);
        }
    } else {
        let front = segs.drop_last();
        assert forall|i: int| 0 <= i < front.len() implies (#[trigger] front[i]).len() > 0
            && !front[i].contains('/') by {
            assert(front[i] == segs[i]);
        }
        lemma_join_path_segments(front);
        assert(segs[segs.len() - 1].len() > 0);
        lemma_child_path_segments(join_path(front), segs.last());
        assert(front.push(segs.last()) =~= segs);
    }
}

/// Empty segments of a path are ignored: a path names the same node as the
/// path of its non-empty segments joined by single slashes (`/a//b/` as
/// `a/b`).
pub proof fn law_empty_segments_ignored(root: Node, path: Seq<char>)
    ensures
        path_segments(normalized_path(path)) == path_segments(path),
        walk(root, path_segments(normalized_path(path))) == walk(root, path_segments(path)),
{
    lemma_segments_plain(path);
    lemma_join_path_segments(path_segments(path));
}

} // verus!
