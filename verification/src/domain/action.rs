use vstd::prelude::*;

use crate::domain::notification::Notification;

verus! {

/// What the daemon is asked to do.
#[derive(Debug, Clone, PartialEq, Eq)]
pub enum Action {
    Notify(Notification),
    ReloadServices,
}

} // verus!
