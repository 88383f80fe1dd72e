//! The logical log record that both wire encodings decode to.

use vstd::prelude::*;

verus! {

/// One log record.
#[derive(Clone, Debug, PartialEq, Eq)]
pub struct Event {
    /// Status or severity code; the only field that routing looks at.
    pub code: u16,
    /// Name of the component that produced the record.
    pub service: String,
    /// Instant of the record, in milliseconds since the Unix epoch.
    pub timestamp: i64,
    /// Free text.
    pub message: String,
}

/// The mathematical value of an [`Event`].
pub struct EventView {
    pub code: u16,
    pub service: Seq<char>,
    pub timestamp: i64,
    pub message: Seq<char>,
}

impl View for Event {
    type V = EventView;

    open spec fn view(&self) -> EventView {
        EventView {
            code: self.code,
            service: self.service@,
            timestamp: self.timestamp,
            message: self.message@,
        }
    }
}

/// The value of an optional event.
pub open spec fn event_view(event: Option<Event>) -> Option<EventView> {
    match event {
        Some(e) => Some(e@),
        None => None,
    }
}

} // verus!
