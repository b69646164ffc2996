//! Clipboard payloads mirrored between host and guest. Capturing clipboard
//! contents from the windowing system is an external concern; the protocol
//! layer only defines how the payload is framed and delivered.
use vstd::prelude::*;

verus! {

/// A clipboard payload (arbitrary UTF-8 text) to be mirrored to the peer's
/// clipboard.
#[derive(Debug, PartialEq)]
pub struct ClipboardEvent {
    pub data: String,
}

/// Spec-level model of a clipboard payload.
pub ghost struct ClipboardEventV {
    pub data: Seq<char>,
}

impl View for ClipboardEvent {
    type V = ClipboardEventV;

    open spec fn view(&self) -> ClipboardEventV {
        ClipboardEventV { data: self.data@ }
    }
}

/// Message wrapper used when clipboard payloads travel through an
/// in-process queue on their way to the channel.
#[derive(Debug, PartialEq)]
pub enum ClipboardMessage {
    ClipboardEvent(ClipboardEvent),
}

impl View for ClipboardMessage {
    type V = ClipboardEventV;

    open spec fn view(&self) -> ClipboardEventV {
        match self {
            ClipboardMessage::ClipboardEvent(c) => c@,
        }
    }
}

} // verus!
