//! How a notification is delivered: its files and its media as documents,
//! then its text as a message with the buttons' keyboard.

use vstd::prelude::*;

use crate::bot::keyboard::{Button, Keyboard, row_view};
use crate::domain::notification::{Notification, opt_view};
use crate::text::clone_opt;
use crate::socket::SocketCommand;
use crate::utils::string_views;

verus! {

/// One message sent to the chat.
#[derive(Debug, Clone, PartialEq, Eq)]
pub enum Delivery {
    Document(String),
    Message { text: String, keyboard: Option<Keyboard> },
}

/// The view of a delivery.
pub enum DeliveryView {
    Document(Seq<char>),
    Message(Seq<char>, Option<Seq<Seq<(Seq<char>, Seq<char>)>>>),
}

/// The view of an optional keyboard.
pub open spec fn opt_keyboard_view(k: Option<Keyboard>) -> Option<Seq<Seq<(Seq<char>, Seq<char>)>>> {
    match k {
        Some(kb) => Some(kb@),
        None => None,
    }
}

impl View for Delivery {
    type V = DeliveryView;

    open spec fn view(&self) -> DeliveryView {
        match self {
            Delivery::Document(f) => DeliveryView::Document(f@),
            Delivery::Message { text, keyboard } => DeliveryView::Message(
                text@,
                opt_keyboard_view(*keyboard),
            ),
        }
    }
}

/// The views of a sequence of deliveries.
pub open spec fn plan_view(plan: Seq<Delivery>) -> Seq<DeliveryView> {
    plan.map_values(|d: Delivery| d@)
}

/// One document delivery per file.
pub open spec fn document_deliveries(files: Seq<Seq<char>>) -> Seq<DeliveryView> {
    files.map_values(|f: Seq<char>| DeliveryView::Document(f))
}

/// The keyboard of a notification's buttons, one button per row; none
/// without buttons.
pub open spec fn buttons_keyboard(buttons: Seq<(String, String)>) -> Option<
    Seq<Seq<(Seq<char>, Seq<char>)>>,
> {
    if buttons.len() == 0 {
        None
    } else {
        Some(buttons.map_values(|b: (String, String)| seq![(b.0@, b.1@)]))
    }
}

/// The deliveries of a notification, in order: its files as documents, its
/// media as documents (uncompressed), then, where it has text, the text as a
/// message with the buttons' keyboard.
pub open spec fn delivery_plan(n: Notification) -> Seq<DeliveryView> {
    document_deliveries(string_views(n.files@)) + document_deliveries(string_views(n.media@)) + match opt_view(n.text) {
        Some(t) => seq![DeliveryView::Message(t, buttons_keyboard(n.buttons@))],
        None => Seq::empty(),
    }
}

/// The keyboard of a notification's buttons: one button per row, in order;
/// none where the notification has no buttons.
pub fn build_keyboard(n: &Notification) -> (kb: Option<Keyboard>)
    ensures
        opt_keyboard_view(kb) == buttons_keyboard(n.buttons@),
        kb is None <==> n.buttons@.len() == 0,
        kb matches Some(k) ==> k@.len() == n.buttons@.len(),
        kb matches Some(k) ==> forall|j: int|
            0 <= j < n.buttons@.len() ==> #[trigger] k@[j] == seq![(n.buttons@[j].0@, n.buttons@[j].1@)],
{
    let count = n.buttons.len();
    if count == 0 {
        return None;
    }
    let mut rows: Vec<Vec<Button>> = Vec::new();
    let mut i: usize = 0;
    while i < count
        invariant
            count == n.buttons@.len(),
            i <= count,
            rows@.len() == i,
            forall|j: int|
                0 <= j < i ==> row_view(#[trigger] rows@[j]@) == seq![
                    (n.buttons@[j].0@, n.buttons@[j].1@),
                ],
        decreases count - i,
    {
        let (t, d) = &n.buttons[i];
        let mut row: Vec<Button> = Vec::new();
        row.push(Button { text: t.clone(), callback_data: d.clone() });
        assert(row_view(row@) =~= seq![(n.buttons@[i as int].0@, n.buttons@[i as int].1@)]);
        rows.push(row);
        i = i + 1;
    }
    let kb = Keyboard { rows };
    assert(kb@ =~= n.buttons@.map_values(|b: (String, String)| seq![(b.0@, b.1@)]));
    Some(kb)
}

/// One document delivery per file.
fn documents_of(files: &Vec<String>) -> (plan: Vec<Delivery>)
    ensures
        plan_view(plan@) == document_deliveries(string_views(files@)),
{
    let mut plan: Vec<Delivery> = Vec::new();
    let mut i: usize = 0;
    while i < files.len()
        invariant
            i <= files@.len(),
            plan@.len() == i,
            forall|j: int| 0 <= j < i ==> #[trigger] plan@[j]@ == DeliveryView::Document(files@[j]@),
        decreases files@.len() - i,
    {
        plan.push(Delivery::Document(files[i].clone()));
        i = i + 1;
    }
    assert(plan_view(plan@) =~= document_deliveries(string_views(files@)));
    plan
}

/// The deliveries of a notification (see `delivery_plan`).
pub fn plan_delivery(n: &Notification) -> (plan: Vec<Delivery>)
    ensures
        plan_view(plan@) == delivery_plan(*n),
{
    let mut plan = documents_of(&n.files);
    let ghost p0 = plan_view(plan@);
    let mut media_plan = documents_of(&n.media);
    let ghost pm = plan_view(media_plan@);
    plan.append(&mut media_plan);
    assert(plan_view(plan@) =~= p0 + pm);
    if let Some(t) = clone_opt(&n.text) {
        plan.push(Delivery::Message { text: t, keyboard: build_keyboard(n) });
    }
    assert(plan_view(plan@) =~= delivery_plan(*n));
    plan
}

/// The keyboard of a notification's buttons has one row per button, in
/// order, each holding just that button's title and callback data; there is
/// none exactly when there are no buttons.
pub proof fn law_button_rows(buttons: Seq<(String, String)>)
    ensures
        buttons_keyboard(buttons) is None <==> buttons.len() == 0,
        buttons_keyboard(buttons) matches Some(rows) ==> rows.len() == buttons.len(),
        buttons_keyboard(buttons) matches Some(rows) ==> forall|j: int|
            0 <= j < buttons.len() ==> #[trigger] rows[j] == seq![(buttons[j].0@, buttons[j].1@)],
{
}

/// Where a notification has text, its plan ends with one message of that
/// text, whatever its files and media, and the message carries the keyboard
/// of the notification's buttons: one row per button holding that button's
/// title and callback data, and no keyboard exactly when there are no
/// buttons. Before it come one delivery per file and per medium.
pub proof fn law_message_carries_buttons(n: Notification)
    ensures
        delivery_plan(n).len() == n.files@.len() + n.media@.len() + if n.text is Some {
            1int
        } else {
            0int
        },
        n.text matches Some(t) ==> (delivery_plan(n).last() matches DeliveryView::Message(mt, _)
            && mt == t@),
        n.text is Some ==> (delivery_plan(n).last() matches DeliveryView::Message(_, kb) && (kb is None
            <==> n.buttons@.len() == 0)),
        n.text is Some ==> (delivery_plan(n).last() matches DeliveryView::Message(_, Some(rows))
            ==> rows.len() == n.buttons@.len() && forall|j: int|
            0 <= j < n.buttons@.len() ==> #[trigger] rows[j] == seq![
                (n.buttons@[j].0@, n.buttons@[j].1@),
            ]),
{
    law_button_rows(n.buttons@);
}

/// The files a delivery sends.
pub open spec fn files_in(d: DeliveryView) -> Seq<Seq<char>> {
    match d {
        DeliveryView::Document(f) => seq![f],
        DeliveryView::Message(_, _) => Seq::empty(),
    }
}

/// The texts a delivery shows.
pub open spec fn texts_in(d: DeliveryView) -> Seq<Seq<char>> {
    match d {
        DeliveryView::Message(t, _) => seq![t],
        DeliveryView::Document(_) => Seq::empty(),
    }
}

/// All files sent by a sequence of deliveries, in order.
pub open spec fn files_delivered(plan: Seq<DeliveryView>) -> Seq<Seq<char>>
    decreases plan.len(),
{
    if plan.len() == 0 {
        Seq::empty()
    } else {
        files_delivered(plan.drop_last()) + files_in(plan.last())
    }
}

/// All texts shown by a sequence of deliveries, in order.
pub open spec fn texts_delivered(plan: Seq<DeliveryView>) -> Seq<Seq<char>>
    decreases plan.len(),
{
    if plan.len() == 0 {
        Seq::empty()
    } else {
        texts_delivered(plan.drop_last()) + texts_in(plan.last())
    }
}

proof fn lemma_delivered_concat(a: Seq<DeliveryView>, b: Seq<DeliveryView>)
    ensures
        files_delivered(a + b) == files_delivered(a) + files_delivered(b),
        texts_delivered(a + b) == texts_delivered(a) + texts_delivered(b),
    decreases b.len(),
{
    if b.len() == 0 {
        assert(a + b =~= a);
        assert(files_delivered(a) + files_delivered(b) =~= files_delivered(a));
        assert(texts_delivered(a) + texts_delivered(b) =~= texts_delivered(a));
    } else {
        lemma_delivered_concat(a, b.drop_last());
        assert((a + b).drop_last() =~= a + b.drop_last());
        assert((a + b).last() == b.last());
        assert(files_delivered(a) + files_delivered(b.drop_last()) + files_in(b.last())
            =~= files_delivered(a) + (files_delivered(b.drop_last()) + files_in(b.last())));
        assert(texts_delivered(a) + texts_delivered(b.drop_last()) + texts_in(b.last())
            =~= texts_delivered(a) + (texts_delivered(b.drop_last()) + texts_in(b.last())));
    }
}

proof fn lemma_documents(fs: Seq<Seq<char>>)
    ensures
        files_delivered(document_deliveries(fs)) == fs,
        texts_delivered(document_deliveries(fs)) == Seq::<Seq<char>>::empty(),
    decreases fs.len(),
{
    if fs.len() == 0 {
        assert(document_deliveries(fs) =~= Seq::<DeliveryView>::empty());
        assert(fs =~= Seq::<Seq<char>>::empty());
    } else {
        lemma_documents(fs.drop_last());
        assert(document_deliveries(fs).drop_last() =~= document_deliveries(fs.drop_last()));
        assert(fs.drop_last() + seq![fs.last()] =~= fs);
        assert(Seq::<Seq<char>>::empty() + Seq::<Seq<char>>::empty() =~= Seq::<Seq<char>>::empty());
    }
}

/// Every file and every media file of a notification is sent once, in
/// order: the files that its deliveries send are its files, then its media.
pub proof fn law_every_file_sent_once(n: Notification)
    ensures
        files_delivered(delivery_plan(n)) == string_views(n.files@) + string_views(n.media@),
        texts_delivered(delivery_plan(n)) == match opt_view(n.text) {
            Some(t) => seq![t],
            None => Seq::<Seq<char>>::empty(),
        },
{
    let files = string_views(n.files@);
    let media = string_views(n.media@);
    let d0 = document_deliveries(files);
    let d1 = document_deliveries(media);
    let d2: Seq<DeliveryView> = match opt_view(n.text) {
        Some(t) => seq![DeliveryView::Message(t, buttons_keyboard(n.buttons@))],
        None => Seq::empty(),
    };
    lemma_delivered_concat(d0 + d1, d2);
    lemma_delivered_concat(d0, d1);
    lemma_documents(files);
    lemma_documents(media);
    let e = Seq::<Seq<char>>::empty();
    assert(files_delivered(Seq::<DeliveryView>::empty()) == e);
    assert(texts_delivered(Seq::<DeliveryView>::empty()) == e);
    if d2.len() > 0 {
        assert(d2.drop_last() =~= Seq::<DeliveryView>::empty());
        assert(files_delivered(d2) == e + files_in(d2.last()));
        assert(texts_delivered(d2) == e + texts_in(d2.last()));
    } else {
        assert(d2 =~= Seq::<DeliveryView>::empty());
    }
    assert(files_delivered(d2) =~= e);
    assert(files_delivered(delivery_plan(n)) =~= files + media);
    assert(texts_delivered(delivery_plan(n)) =~= e + e + texts_delivered(d2));
    match opt_view(n.text) {
        Some(t) => {
            assert(e + e + texts_delivered(d2) =~= seq![t]);
        },
        None => {
            assert(e + e + texts_delivered(d2) =~= e);
        },
    }
}

/// One step of the daemon's handling of a request.
#[derive(Debug, Clone, PartialEq, Eq)]
pub enum LoopStep {
    /// Deliver a notification.
    Send(Notification),
    /// Read the service tree again.
    ReloadServices,
    /// Read the custom handlers again.
    ReloadHandlers,
}

/// The text sent after the services were reloaded.
pub open spec fn services_reloaded_text() -> Seq<char> {
    "Services reloaded"@
}

/// The text sent after the custom handlers were reloaded.
pub open spec fn handlers_reloaded_text() -> Seq<char> {
    "Custom handlers reloaded"@
}

/// A notification that holds only the text `t`.
pub open spec fn is_text_only(n: Notification, t: Seq<char>) -> bool {
    &&& n.text matches Some(s) && s@ == t
    &&& n.files@.len() == 0
    &&& n.media@.len() == 0
    &&& n.buttons@.len() == 0
}

/// The steps for a request: a message is delivered as it came; a reload
/// reloads the services, reports it, reloads the handlers and reports that.
pub fn socket_loop_steps(cmd: SocketCommand) -> (steps: Vec<LoopStep>)
    ensures
        match cmd {
            SocketCommand::SendMessage { text, files, media, buttons } => {
                &&& steps@.len() == 1
                &&& steps@[0] matches LoopStep::Send(n) && n.text == text && n.files == files
                    && n.media == media && n.buttons == buttons
            },
            SocketCommand::ReloadServices => {
                &&& steps@.len() == 4
                &&& steps@[0] is ReloadServices
                &&& steps@[1] matches LoopStep::Send(n) && is_text_only(n, services_reloaded_text())
                &&& steps@[2] is ReloadHandlers
                &&& steps@[3] matches LoopStep::Send(n) && is_text_only(n, handlers_reloaded_text())
            },
        },
{
    let mut steps: Vec<LoopStep> = Vec::new();
    match cmd {
        SocketCommand::SendMessage { text, files, media, buttons } => {
            steps.push(LoopStep::Send(Notification { text, files, media, buttons }));
        },
        SocketCommand::ReloadServices => {
            steps.push(LoopStep::ReloadServices);
            steps.push(LoopStep::Send(Notification::text_only("Services reloaded".to_owned())));
            steps.push(LoopStep::ReloadHandlers);
            steps.push(
                LoopStep::Send(Notification::text_only("Custom handlers reloaded".to_owned())),
            );
        },
    }
    steps
}

} // verus!
