use vstd::prelude::*;

verus! {

/// Notifications waiting to be shown.
pub struct Notifier {
    pub notifs: Vec<String>,
}

impl Notifier {
    /// No notifications.
    pub fn new() -> (r: Notifier)
        ensures
            r.notifs@.len() == 0,
    {
        Notifier { notifs: Vec::new() }
    }
}

} // verus!
