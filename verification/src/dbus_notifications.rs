//! Desktop notification payloads forwarded from the guest to the host.
//! Producing and finally displaying a notification are external concerns;
//! the protocol layer only defines how the payload is framed and delivered.
use vstd::prelude::*;

verus! {

/// A desktop notification payload forwarded from guest to host.
#[derive(Debug, PartialEq)]
pub struct DbusNotification {
    pub summary: String,
    pub body: String,
}

/// Spec-level model of a desktop notification payload.
pub ghost struct DbusNotificationV {
    pub summary: Seq<char>,
    pub body: Seq<char>,
}

impl View for DbusNotification {
    type V = DbusNotificationV;

    open spec fn view(&self) -> DbusNotificationV {
        DbusNotificationV { summary: self.summary@, body: self.body@ }
    }
}

} // verus!
