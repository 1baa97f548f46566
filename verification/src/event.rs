//! Events that reach the runtime, and the ledger entries that they leave.
use vstd::prelude::*;

use crate::keyed::{Keyed, Record};
use crate::message::{Message, MessageView};
use crate::text::{blank, join3, same_text};

verus! {

/// Where an event comes from.
#[derive(Debug, Clone, Copy, PartialEq, Eq, Structural)]
pub enum EventSource {
    Platform,
    Runtime,
}

/// The model of an [`EventKind`].
#[verifier::ext_equal]
#[allow(inconsistent_fields)]
pub enum EventKindView {
    MessageReceived { message: MessageView },
    RuntimeNotice { message: Seq<char> },
}

/// The model of an [`Event`].
#[verifier::ext_equal]
pub struct EventView {
    pub id: Seq<char>,
    pub source: EventSource,
    pub kind: EventKindView,
    pub received_at_unix: u64,
}

/// The model of an [`InboundEventRecord`].
#[verifier::ext_equal]
pub struct EventRecordView {
    pub id: Seq<char>,
    pub received_at_unix: u64,
    pub recorded_at_unix: u64,
}

impl Keyed for EventRecordView {
    open spec fn key(self) -> Seq<char> {
        self.id
    }
}

impl EventRecordView {
    /// Why this ledger entry is unsound, if it is.
    pub open spec fn flaw(self) -> Option<Seq<char>> {
        if self.recorded_at_unix < self.received_at_unix {
            Some(
                "inbound event "@ + self.id + " has recorded_at_unix before received_at_unix"@,
            )
        } else {
            None
        }
    }
}

/// The ledger entry for an event that is recorded at `recorded_at_unix`; an event
/// is never recorded before it was received.
pub open spec fn event_record(event: EventView, recorded_at_unix: u64) -> EventRecordView {
    EventRecordView {
        id: event.id,
        received_at_unix: event.received_at_unix,
        recorded_at_unix: if recorded_at_unix < event.received_at_unix {
            event.received_at_unix
        } else {
            recorded_at_unix
        },
    }
}

/// The id of an event.
#[derive(Debug, PartialEq, Eq)]
pub struct EventId {
    pub text: String,
}

impl View for EventId {
    type V = Seq<char>;

    open spec fn view(&self) -> Seq<char> {
        self.text@
    }
}

impl Clone for EventId {
    fn clone(&self) -> (r: Self)
        ensures
            r@ == self@,
    {
        EventId { text: self.text.clone() }
    }
}

impl EventId {
    /// An event id; it may not be blank.
    pub fn new(text: &str) -> (r: Result<EventId, String>)
        ensures
            match r {
                Ok(id) => !crate::text::is_blank(text@) && id@ == text@,
                Err(e) => crate::text::is_blank(text@) && e@ == "event id is empty"@,
            },
    {
        if blank(text) {
            return Err("event id is empty".to_owned());
        }
        Ok(EventId { text: text.to_owned() })
    }

    pub fn as_str(&self) -> (r: &str)
        ensures
            r@ == self@,
    {
        self.text.as_str()
    }
}

/// What happened.
#[allow(inconsistent_fields)]
#[derive(Debug, PartialEq, Eq)]
pub enum EventKind {
    MessageReceived { message: Message },
    RuntimeNotice { message: String },
}

impl View for EventKind {
    type V = EventKindView;

    open spec fn view(&self) -> EventKindView {
        match self {
            EventKind::MessageReceived { message } => EventKindView::MessageReceived {
                message: message@,
            },
            EventKind::RuntimeNotice { message } => EventKindView::RuntimeNotice {
                message: message@,
            },
        }
    }
}

impl Clone for EventKind {
    fn clone(&self) -> (r: Self)
        ensures
            r@ == self@,
    {
        match self {
            EventKind::MessageReceived { message } => EventKind::MessageReceived {
                message: message.clone(),
            },
            EventKind::RuntimeNotice { message } => EventKind::RuntimeNotice {
                message: message.clone(),
            },
        }
    }
}

/// An event, as the runtime receives it.
#[derive(Debug, PartialEq, Eq)]
pub struct Event {
    pub id: EventId,
    pub source: EventSource,
    pub kind: EventKind,
    pub received_at_unix: u64,
}

impl View for Event {
    type V = EventView;

    open spec fn view(&self) -> EventView {
        EventView {
            id: self.id@,
            source: self.source,
            kind: self.kind@,
            received_at_unix: self.received_at_unix,
        }
    }
}

impl Clone for Event {
    fn clone(&self) -> (r: Self)
        ensures
            r@ == self@,
    {
        Event {
            id: self.id.clone(),
            source: self.source,
            kind: self.kind.clone(),
            received_at_unix: self.received_at_unix,
        }
    }
}

impl Event {
    pub fn new(
        id: EventId,
        source: EventSource,
        kind: EventKind,
        received_at_unix: u64,
    ) -> (r: Event)
        ensures
            r@ == (EventView { id: id@, source, kind: kind@, received_at_unix }),
    {
        Event { id, source, kind, received_at_unix }
    }
}

/// Whether an event was new to the ledger.
#[derive(Debug, Clone, Copy, PartialEq, Eq, Structural)]
pub enum InboundEventRecordStatus {
    Recorded,
    Duplicate,
}

impl View for InboundEventRecordStatus {
    type V = InboundEventRecordStatus;

    open spec fn view(&self) -> InboundEventRecordStatus {
        *self
    }
}

/// A ledger entry: the event was received, and recorded, at these times.
#[derive(Debug, PartialEq, Eq)]
pub struct InboundEventRecord {
    pub id: EventId,
    pub received_at_unix: u64,
    pub recorded_at_unix: u64,
}

impl View for InboundEventRecord {
    type V = EventRecordView;

    open spec fn view(&self) -> EventRecordView {
        EventRecordView {
            id: self.id@,
            received_at_unix: self.received_at_unix,
            recorded_at_unix: self.recorded_at_unix,
        }
    }
}

impl Clone for InboundEventRecord {
    fn clone(&self) -> (r: Self)
        ensures
            r@ == self@,
    {
        InboundEventRecord {
            id: self.id.clone(),
            received_at_unix: self.received_at_unix,
            recorded_at_unix: self.recorded_at_unix,
        }
    }
}

impl Record for InboundEventRecord {
    fn key_text(&self) -> (r: &String) {
        &self.id.text
    }
}

impl InboundEventRecord {
    /// The ledger entry for `event`, recorded at `recorded_at_unix`.
    pub fn from_event(event: &Event, recorded_at_unix: u64) -> (r: InboundEventRecord)
        ensures
            r@ == event_record(event@, recorded_at_unix),
    {
        InboundEventRecord {
            id: event.id.clone(),
            received_at_unix: event.received_at_unix,
            recorded_at_unix: if recorded_at_unix < event.received_at_unix {
                event.received_at_unix
            } else {
                recorded_at_unix
            },
        }
    }

    pub fn id(&self) -> (r: &EventId)
        ensures
            r@ == self@.id,
    {
        &self.id
    }

    pub fn received_at_unix(&self) -> (r: u64)
        ensures
            r == self@.received_at_unix,
    {
        self.received_at_unix
    }

    pub fn recorded_at_unix(&self) -> (r: u64)
        ensures
            r == self@.recorded_at_unix,
    {
        self.recorded_at_unix
    }

    /// Checks that the event was not recorded before it was received.
    pub fn validate(&self) -> (r: Result<(), String>)
        ensures
            crate::fault::reports(r, self@.flaw()),
    {
        if self.recorded_at_unix < self.received_at_unix {
            return Err(
                join3(
                    "inbound event ",
                    self.id.as_str(),
                    " has recorded_at_unix before received_at_unix",
                ),
            );
        }
        Ok(())
    }

    /// Whether two ledger entries are the same in every field.
    pub fn same(&self, other: &InboundEventRecord) -> (r: bool)
        ensures
            r == (self@ == other@),
    {
        same_text(&self.id.text, &other.id.text) && self.received_at_unix == other.received_at_unix
            && self.recorded_at_unix == other.recorded_at_unix
    }
}

} // verus!
