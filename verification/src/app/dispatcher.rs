use vstd::prelude::*;

use crate::domain::notification::Notification;

verus! {

/// The text sent after services were reloaded.
pub open spec fn reloaded_text() -> Seq<char> {
    "Services reloaded"@
}

/// The text sent after a failed reload, before the error.
pub open spec fn reload_error_prefix() -> Seq<char> {
    "Reload error: "@
}

/// The notification that reports how a reload of the services went.
pub fn reload_report(outcome: &Result<(), String>) -> (n: Notification)
    ensures
        n.files@.len() == 0,
        n.media@.len() == 0,
        n.buttons@.len() == 0,
        match outcome {
            Ok(_) => n.text matches Some(t) && t@ == reloaded_text(),
            Err(e) => n.text matches Some(t) && t@ == reload_error_prefix() + e@,
        },
{
    match outcome {
        Ok(_) => Notification::text_only("Services reloaded".to_owned()),
        Err(e) => {
            let mut text = "Reload error: ".to_owned();
            text.append(e.as_str());
            Notification::text_only(text)
        },
    }
}

} // verus!
