use vstd::prelude::*;

use crate::bot::keyboard::{
    Keyboard, child_button, child_path, folder_keyboard, keyboard_spec, law_child_button_reaches_child,
    back_button, law_back_button_opens_parent,
};
use crate::parser::tree::Folder;
use crate::parser::Service;
use crate::parser::handler::{HandlerConfig, HandlerRegistry};
use crate::parser::tree::Node;
use crate::text::{has_prefix, strip_prefix};
use crate::utils::{find_node, path_segments, walk};

verus! {

/// What the bot does about a button press.
#[derive(Debug, PartialEq, Eq)]
pub enum CallbackPlan<'a> {
    /// Nothing: no data, or a press by someone other than the owner.
    Ignore,
    /// Answer the press and run the custom handler named by its data.
    RunHandler(&'a HandlerConfig),
    /// Answer the press, and nothing more.
    Answer,
    /// Answer the press and replace the pressed message by `text` over `keyboard`.
    ShowKeyboard { text: String, keyboard: Keyboard },
    /// Answer the press and run the service.
    RunService(&'a Service),
}

/// The text above a folder's keyboard.
pub open spec fn select_text() -> Seq<char> {
    "Select:"@
}

/// The path that a callback with prefix `prefix` names.
pub open spec fn path_after(data: Seq<char>, prefix: Seq<char>) -> Seq<char> {
    data.skip(prefix.len() as int)
}

/// What the bot does about a press with `data`, by a user who is the owner
/// or not: a handler registered under the data runs, whoever pressed; then
/// only the owner is answered; `open:` followed by the path of a node shows
/// that node's keyboard, `run:` followed by the path of a service runs it.
pub open spec fn callback_decision(
    data: Option<Seq<char>>,
    by_owner: bool,
    tree: Node,
    handlers: HandlerRegistry,
    plan: CallbackPlan,
) -> bool {
    match data {
        None => plan is Ignore,
        Some(d) => match handlers.handler(d) {
            Some(h) => plan matches CallbackPlan::RunHandler(ph) && *ph == h,
            None => if !by_owner {
                plan is Ignore
            } else if has_prefix(d, "open:"@) {
                let p = path_after(d, "open:"@);
                match walk(tree, path_segments(p)) {
                    Some(node) => plan matches CallbackPlan::ShowKeyboard { text, keyboard }
                        && text@ == select_text() && keyboard@ == keyboard_spec(node, p),
                    None => plan is Answer,
                }
            } else if has_prefix(d, "run:"@) {
                let p = path_after(d, "run:"@);
                match walk(tree, path_segments(p)) {
                    Some(Node::Service(s)) => plan matches CallbackPlan::RunService(ps) && *ps == s,
                    _ => plan is Answer,
                }
            } else {
                plan is Answer
            },
        },
    }
}

/// Decides what the bot does about a button press with `data` by the user
/// `from` (see `callback_decision`).
pub fn process_callback<'a>(
    data: Option<&str>,
    from: u64,
    owner_id: u64,
    tree: &'a Node,
    handlers: &'a HandlerRegistry,
) -> (plan: CallbackPlan<'a>)
    ensures
        callback_decision(
            match data {
                Some(d) => Some(d@),
                None => None,
            },
            from == owner_id,
            *tree,
            *handlers,
            plan,
        ),
{
    let d = match data {
        Some(d) => d,
        None => return CallbackPlan::Ignore,
    };
    if let Some(h) = handlers.get(d) {
        return CallbackPlan::RunHandler(h);
    }
    if from != owner_id {
        return CallbackPlan::Ignore;
    }
    if let Some(path) = strip_prefix(d, "open:") {
        return match find_node(tree, path.as_str()) {
            Some(node) => {
                let keyboard = folder_keyboard(node, path.as_str());
                CallbackPlan::ShowKeyboard { text: "Select:".to_owned(), keyboard }
            },
            None => CallbackPlan::Answer,
        };
    }
    if let Some(path) = strip_prefix(d, "run:") {
        return match find_node(tree, path.as_str()) {
            Some(Node::Service(service)) => CallbackPlan::RunService(service),
            _ => CallbackPlan::Answer,
        };
    }
    CallbackPlan::Answer
}

proof fn lemma_prefix_of_concat(p: Seq<char>, rest: Seq<char>)
    ensures
        has_prefix(p + rest, p),
        path_after(p + rest, p) == rest,
{
    assert((p + rest).take(p.len() as int) =~= p);
    assert((p + rest).skip(p.len() as int) =~= rest);
}

/// Pressing a child button of the keyboard of a folder does what the button
/// shows: where no handler is registered under its data, a press by the
/// owner opens the keyboard of that child folder at the child's path, or
/// runs that child service.
pub proof fn law_pressing_child_button(
    root: Node,
    path: Seq<char>,
    f: Folder,
    j: int,
    handlers: HandlerRegistry,
    plan: CallbackPlan,
)
    requires
        walk(root, path_segments(path)) == Some(Node::Folder(f)),
        f.wf(),
        0 <= j < f.entries().len(),
        f.entries()[j].0@.len() > 0,
        !f.entries()[j].0@.contains('/'),
        handlers.handler(child_button(path, f.entries()[j].0@, f.entries()[j].1).1) is None,
        callback_decision(
            Some(child_button(path, f.entries()[j].0@, f.entries()[j].1).1),
            true,
            root,
            handlers,
            plan,
        ),
    ensures
        match f.entries()[j].1 {
            Node::Folder(_) => plan matches CallbackPlan::ShowKeyboard { text, keyboard }
                && text@ == select_text() && keyboard@ == keyboard_spec(
                f.entries()[j].1,
                child_path(path, f.entries()[j].0@),
            ),
            Node::Service(s) => plan matches CallbackPlan::RunService(ps) && *ps == s,
        },
{
    let key = f.entries()[j].0@;
    let cp = child_path(path, key);
    law_child_button_reaches_child(root, path, f, j);
    reveal_strlit("open:");
    reveal_strlit("run:");
    match f.entries()[j].1 {
        Node::Folder(_) => {
            lemma_prefix_of_concat("open:"@, cp);
        },
        Node::Service(_) => {
            lemma_prefix_of_concat("run:"@, cp);
            let d = "run:"@ + cp;
            assert(d[0] == 'r');
            assert(!has_prefix(d, "open:"@)) by {
                if has_prefix(d, "open:"@) {
                    assert(d.take(5)[0] == 'o');
                }
            }
        },
    }
}

/// The back button below the keyboard of a child leads back: where no
/// handler is registered under its data, a press by the owner shows the
/// keyboard of the folder that holds the child, at the folder's path.
pub proof fn law_pressing_back_button(
    root: Node,
    path: Seq<char>,
    f: Folder,
    j: int,
    handlers: HandlerRegistry,
    plan: CallbackPlan,
)
    requires
        walk(root, path_segments(path)) == Some(Node::Folder(f)),
        f.wf(),
        0 <= j < f.entries().len(),
        f.entries()[j].0@.len() > 0,
        !f.entries()[j].0@.contains('/'),
        handlers.handler(back_button(child_path(path, f.entries()[j].0@)).1) is None,
        callback_decision(
            Some(back_button(child_path(path, f.entries()[j].0@)).1),
            true,
            root,
            handlers,
            plan,
        ),
    ensures
        keyboard_spec(f.entries()[j].1, child_path(path, f.entries()[j].0@)).last() == seq![
            back_button(child_path(path, f.entries()[j].0@)),
        ],
        plan matches CallbackPlan::ShowKeyboard { text, keyboard } && text@ == select_text()
            && keyboard@ == keyboard_spec(Node::Folder(f), path),
{
    let key = f.entries()[j].0@;
    law_back_button_opens_parent(path, key);
    lemma_prefix_of_concat("open:"@, path);
    assert(child_path(path, key).len() > 0);
}

/// A press whose data names a registered handler runs that handler, whoever
/// pressed; a press without data does nothing.
pub proof fn law_handler_runs_for_anyone(
    d: Seq<char>,
    by_owner: bool,
    tree: Node,
    handlers: HandlerRegistry,
    plan: CallbackPlan,
)
    requires
        handlers.handler(d) is Some,
        callback_decision(Some(d), by_owner, tree, handlers, plan),
    ensures
        plan matches CallbackPlan::RunHandler(h) && Some(*h) == handlers.handler(d),
{
}

/// A press by anyone but the owner whose data names no handler is ignored:
/// not even answered; and so is a press without data.
pub proof fn law_stranger_ignored(
    data: Option<Seq<char>>,
    tree: Node,
    handlers: HandlerRegistry,
    plan: CallbackPlan,
)
    requires
        data matches Some(d) ==> handlers.handler(d) is None,
        callback_decision(data, false, tree, handlers, plan),
    ensures
        plan is Ignore,
{
}

/// A press by the owner whose data names no handler is always answered:
/// it is never ignored and never runs a handler.
pub proof fn law_owner_answered(
    d: Seq<char>,
    tree: Node,
    handlers: HandlerRegistry,
    plan: CallbackPlan,
)
    requires
        handlers.handler(d) is None,
        callback_decision(Some(d), true, tree, handlers, plan),
    ensures
        !(plan is Ignore),
        !(plan is RunHandler),
{
}

} // verus!
