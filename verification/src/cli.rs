//! The controller's side: turning command-line options into a request.

use vstd::prelude::*;

use crate::socket::SocketCommand;
use crate::utils::{lemma_split_append_plain, lemma_split_is_never_empty, split_on};

verus! {

/// The index of the first `c` in `s`, or -1 where there is none.
pub open spec fn first_index_of(s: Seq<char>, c: char) -> int
    decreases s.len(),
{
    if s.len() == 0 {
        -1
    } else {
        let r = first_index_of(s.drop_last(), c);
        if r >= 0 {
            r
        } else if s.last() == c {
            s.len() - 1
        } else {
            -1
        }
    }
}

/// A button definition `title:callback`, split at its first `:`; none
/// without a `:`.
pub open spec fn button_of(piece: Seq<char>) -> Option<(Seq<char>, Seq<char>)> {
    let i = first_index_of(piece, ':');
    if i < 0 {
        None
    } else {
        Some((piece.take(i), piece.skip(i + 1)))
    }
}

/// The buttons defined by the pieces that hold a `:`, in order.
pub open spec fn buttons_of_pieces(pieces: Seq<Seq<char>>) -> Seq<(Seq<char>, Seq<char>)>
    decreases pieces.len(),
{
    if pieces.len() == 0 {
        Seq::empty()
    } else {
        buttons_of_pieces(pieces.drop_last()) + match button_of(pieces.last()) {
            Some(b) => seq![b],
            None => Seq::empty(),
        }
    }
}

/// The buttons of a comma-separated list of `title:callback` definitions;
/// a definition without `:` is skipped.
pub open spec fn parse_buttons_spec(list: Seq<char>) -> Seq<(Seq<char>, Seq<char>)> {
    buttons_of_pieces(split_on(list, ','))
}

/// The views of pairs of strings.
pub open spec fn pairs_view(v: Seq<(String, String)>) -> Seq<(Seq<char>, Seq<char>)> {
    v.map_values(|p: (String, String)| (p.0@, p.1@))
}

proof fn lemma_buttons_push(pieces: Seq<Seq<char>>, p: Seq<char>)
    ensures
        buttons_of_pieces(pieces.push(p)) == buttons_of_pieces(pieces) + match button_of(p) {
            Some(b) => seq![b],
            None => Seq::<(Seq<char>, Seq<char>)>::empty(),
        },
{
    assert(pieces.push(p).drop_last() =~= pieces);
}

/// Parses a comma-separated list of `title:callback` button definitions.
pub fn parse_buttons(list: &str) -> (buttons: Vec<(String, String)>)
    ensures
        pairs_view(buttons@) == parse_buttons_spec(list@),
{
    let n = list.unicode_len();
    let mut buttons: Vec<(String, String)> = Vec::new();
    let mut start: usize = 0;
    let mut colon: Option<usize> = None;
    let mut i: usize = 0;
    let ghost mut pieces: Seq<Seq<char>> = Seq::empty();
    assert(list@.take(0) =~= Seq::<char>::empty());
    assert(split_on(list@.take(0), ',') =~= pieces.push(list@.subrange(0, 0)));
    assert(pairs_view(buttons@) =~= buttons_of_pieces(pieces));
    while i < n
        invariant
            n == list@.len(),
            start <= i <= n,
            split_on(list@.take(i as int), ',') == pieces.push(list@.subrange(start as int, i as int)),
            pairs_view(buttons@) == buttons_of_pieces(pieces),
            match colon {
                Some(c) => start <= c < i && first_index_of(
                    list@.subrange(start as int, i as int),
                    ':',
                ) == c - start,
                None => first_index_of(list@.subrange(start as int, i as int), ':') < 0,
            },
        decreases n - i,
    {
        let ch = list.get_char(i);
        let ghost cur = list@.subrange(start as int, i as int);
        assert(list@.take(i + 1).drop_last() =~= list@.take(i as int));
        assert(list@.take(i + 1).last() == ch);
        if ch == ',' {
            proof {
                lemma_buttons_push(pieces, cur);
            }
            if let Some(c) = colon {
                let title = list.substring_char(start, c).to_owned();
                let data = list.substring_char(c + 1, i).to_owned();
                assert(cur.take(c - start) =~= title@);
                assert(cur.skip(c - start + 1) =~= data@);
                buttons.push((title, data));
                assert(pairs_view(buttons@) =~= buttons_of_pieces(pieces.push(cur)));
            } else {
                assert(pairs_view(buttons@) =~= buttons_of_pieces(pieces.push(cur)));
            }
            proof {
                pieces = pieces.push(cur);
                assert(list@.subrange(i + 1, i + 1) =~= Seq::<char>::empty());
            }
            start = i + 1;
            colon = None;
        } else {
            assert(list@.subrange(start as int, i + 1) =~= cur.push(ch));
            assert(cur.push(ch).drop_last() =~= cur);
            if ch == ':' && colon.is_none() {
                colon = Some(i);
            }
        }
        i = i + 1;
    }
    let ghost cur = list@.subrange(start as int, n as int);
    proof {
        lemma_buttons_push(pieces, cur);
        assert(list@.take(n as int) =~= list@);
    }
    if let Some(c) = colon {
        let title = list.substring_char(start, c).to_owned();
        let data = list.substring_char(c + 1, n).to_owned();
        assert(cur.take(c - start) =~= title@);
        assert(cur.skip(c - start + 1) =~= data@);
        buttons.push((title, data));
    }
    assert(pairs_view(buttons@) =~= buttons_of_pieces(pieces.push(cur)));
    buttons
}

/// Why the controller refuses to send.
#[derive(Debug, Clone, Copy, PartialEq, Eq)]
pub enum CliError {
    /// None of text, files, media or buttons was given.
    NothingToSend,
}

/// The request for `send`: refused where none of text, files, media or
/// buttons is given; otherwise a message with the given text, files and
/// media and the buttons parsed from the given list (none without a list).
pub fn send_command(
    text: Option<String>,
    files: Vec<String>,
    media: Vec<String>,
    buttons: Option<String>,
) -> (r: Result<SocketCommand, CliError>)
    ensures
        (text is None && files@.len() == 0 && media@.len() == 0 && buttons is None) <==> r is Err,
        match r {
            Ok(SocketCommand::SendMessage { text: t, files: f, media: m, buttons: b }) => {
                &&& t == text
                &&& f == files
                &&& m == media
                &&& pairs_view(b@) == parse_buttons_spec(
                    match buttons {
                        Some(l) => l@,
                        None => Seq::empty(),
                    },
                )
            },
            Ok(SocketCommand::ReloadServices) => false,
            Err(_) => true,
        },
{
    if text.is_none() && files.len() == 0 && media.len() == 0 && buttons.is_none() {
        return Err(CliError::NothingToSend);
    }
    let list = match buttons {
        Some(l) => l,
        None => String::new(),
    };
    let parsed = parse_buttons(list.as_str());
    Ok(SocketCommand::SendMessage { text, files, media, buttons: parsed })
}

/// A list of button definitions: `title:callback` for each, separated by commas.
pub open spec fn join_buttons(pairs: Seq<(Seq<char>, Seq<char>)>) -> Seq<char>
    decreases pairs.len(),
{
    if pairs.len() == 0 {
        Seq::empty()
    } else if pairs.len() == 1 {
        pairs[0].0 + seq![':'] + pairs[0].1
    } else {
        join_buttons(pairs.drop_last()) + seq![','] + pairs.last().0 + seq![':'] + pairs.last().1
    }
}

proof fn lemma_first_index_absent(s: Seq<char>, c: char)
    requires
        !s.contains(c),
    ensures
        first_index_of(s, c) == -1,
    decreases s.len(),
{
    if s.len() > 0 {
        assert(!s.drop_last().contains(c)) by {
            if s.drop_last().contains(c) {
                let j = choose|j: int| 0 <= j < s.drop_last().len() && s.drop_last()[j] == c;
                assert(s[j] == c);
            }
        }
        lemma_first_index_absent(s.drop_last(), c);
        assert(s[s.len() - 1] != c);
    }
}

proof fn lemma_first_index_at(s: Seq<char>, c: char, k: int)
    requires
        0 <= k < s.len(),
        s[k] == c,
        forall|j: int| 0 <= j < k ==> s[j] != c,
    ensures
        first_index_of(s, c) == k,
    decreases s.len(),
{
    if s.len() - 1 > k {
        lemma_first_index_at(s.drop_last(), c, k);
    } else {
        assert(!s.drop_last().contains(c)) by {
            if s.drop_last().contains(c) {
                let j = choose|j: int| 0 <= j < s.drop_last().len() && s.drop_last()[j] == c;
                assert(s[j] == c);
            }
        }
        lemma_first_index_absent(s.drop_last(), c);
    }
}

/// A definition that can be written unambiguously: the title holds no `:`
/// and no `,`, the callback no `,`.
pub open spec fn writable_button(b: (Seq<char>, Seq<char>)) -> bool {
    !b.0.contains(':') && !b.0.contains(',') && !b.1.contains(',')
}

proof fn lemma_button_of_written(b: (Seq<char>, Seq<char>))
    requires
        writable_button(b),
    ensures
        button_of(b.0 + seq![':'] + b.1) == Some(b),
        !(b.0 + seq![':'] + b.1).contains(','),
{
    let p = b.0 + seq![':'] + b.1;
    assert forall|j: int| 0 <= j < b.0.len() implies p[j] != ':' by {
        assert(p[j] == b.0[j]);
    }
    lemma_first_index_at(p, ':', b.0.len() as int);
    assert(p.take(b.0.len() as int) =~= b.0);
    assert(p.skip(b.0.len() as int + 1) =~= b.1);
    assert(!p.contains(',')) by {
        if p.contains(',') {
            let j = choose|j: int| 0 <= j < p.len() && p[j] == ',';
            if j < b.0.len() {
                assert(b.0[j] == ',');
            } else if j > b.0.len() {
                assert(b.1[j - b.0.len() - 1] == ',');
            }
        }
    }
}

proof fn lemma_split_written(pairs: Seq<(Seq<char>, Seq<char>)>)
    requires
        pairs.len() > 0,
        forall|i: int| 0 <= i < pairs.len() ==> writable_button(#[trigger] pairs[i]),
    ensures
        split_on(join_buttons(pairs), ',') == pairs.map_values(
            |b: (Seq<char>, Seq<char>)| b.0 + seq![':'] + b.1,
        ),
    decreases pairs.len(),
{
    let last = pairs.last();
    let q = last.0 + seq![':'] + last.1;
    assert(writable_button(pairs[pairs.len() - 1]));
    lemma_button_of_written(last);
    let e = Seq::<char>::empty();
    if pairs.len() == 1 {
        lemma_split_append_plain(e, q, ',');
        assert(e + q =~= q);
        assert(split_on(e, ',') =~= seq![e]);
        assert(split_on(q, ',') =~= seq![q]);
        assert(pairs.map_values(|b: (Seq<char>, Seq<char>)| b.0 + seq![':'] + b.1) =~= seq![q]);
    } else {
        let front = pairs.drop_last();
        assert forall|i: int| 0 <= i < front.len() implies writable_button(#[trigger] front[i]) by {
            assert(front[i] == pairs[i]);
        }
        lemma_split_written(front);
        let j = join_buttons(front);
        let jc = j + seq![','];
        assert(jc.drop_last() =~= j);
        assert(jc.last() == ',');
        lemma_split_is_never_empty(j, ',');
        lemma_split_append_plain(jc, q, ',');
        assert(join_buttons(pairs) =~= jc + q);
        assert(e + q =~= q);
        assert(split_on(jc, ',').update(split_on(jc, ',').len() - 1, split_on(jc, ',').last() + q)
            =~= split_on(j, ',').push(q));
        assert(pairs.map_values(|b: (Seq<char>, Seq<char>)| b.0 + seq![':'] + b.1) =~= front.map_values(
            |b: (Seq<char>, Seq<char>)| b.0 + seq![':'] + b.1,
        ).push(q));
    }
}

proof fn lemma_buttons_of_written(pairs: Seq<(Seq<char>, Seq<char>)>)
    requires
        forall|i: int| 0 <= i < pairs.len() ==> writable_button(#[trigger] pairs[i]),
    ensures
        buttons_of_pieces(pairs.map_values(|b: (Seq<char>, Seq<char>)| b.0 + seq![':'] + b.1))
            == pairs,
    decreases pairs.len(),
{
    let pieces = pairs.map_values(|b: (Seq<char>, Seq<char>)| b.0 + seq![':'] + b.1);
    if pairs.len() == 0 {
        assert(pieces =~= Seq::<Seq<char>>::empty());
        assert(Seq::<(Seq<char>, Seq<char>)>::empty() =~= pairs);
    } else {
        let front = pairs.drop_last();
        assert forall|i: int| 0 <= i < front.len() implies writable_button(#[trigger] front[i]) by {
            assert(front[i] == pairs[i]);
        }
        lemma_buttons_of_written(front);
        assert(writable_button(pairs[pairs.len() - 1]));
        lemma_button_of_written(pairs.last());
        assert(pieces.drop_last() =~= front.map_values(
            |b: (Seq<char>, Seq<char>)| b.0 + seq![':'] + b.1,
        ));
        assert(front + seq![pairs.last()] =~= pairs);
    }
}

/// Buttons written as a list and parsed back are the buttons written, where
/// no title holds `:` or `,` and no callback holds `,`.
pub proof fn law_buttons_roundtrip(pairs: Seq<(Seq<char>, Seq<char>)>)
    requires
        forall|i: int| 0 <= i < pairs.len() ==> writable_button(#[trigger] pairs[i]),
    ensures
        parse_buttons_spec(join_buttons(pairs)) == pairs,
{
    if pairs.len() == 0 {
        let e = Seq::<char>::empty();
        assert(split_on(e, ',') =~= seq![e]);
        assert(seq![e].drop_last() =~= Seq::<Seq<char>>::empty());
        assert(first_index_of(e, ':') == -1);
        assert(seq![e].last() == e);
        assert(button_of(e) is None);
        assert(join_buttons(pairs) == e);
        let none = Seq::<(Seq<char>, Seq<char>)>::empty();
        assert(buttons_of_pieces(seq![e]) == buttons_of_pieces(Seq::<Seq<char>>::empty()) + none);
        assert(none + none =~= none);
        assert(parse_buttons_spec(e) =~= pairs);
    } else {
        lemma_split_written(pairs);
        lemma_buttons_of_written(pairs);
    }
}

} // verus!
