use vstd::prelude::*;

verus! {

/// A message for the owner: optional text, files sent as documents, media
/// sent by kind, and buttons given as (title, callback data).
#[derive(Debug, Clone, PartialEq, Eq)]
pub struct Notification {
    pub text: Option<String>,
    pub files: Vec<String>,
    pub media: Vec<String>,
    pub buttons: Vec<(String, String)>,
}

/// The view of an optional string.
pub open spec fn opt_view(o: Option<String>) -> Option<Seq<char>> {
    match o {
        Some(s) => Some(s@),
        None => None,
    }
}

impl Notification {
    /// A notification that holds only a text.
    pub fn text_only(text: String) -> (n: Notification)
        ensures
            n.text == Some(text),
            n.files@.len() == 0,
            n.media@.len() == 0,
            n.buttons@.len() == 0,
    {
        Notification { text: Some(text), files: Vec::new(), media: Vec::new(), buttons: Vec::new() }
    }
}

} // verus!
