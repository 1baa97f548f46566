//! The current state file, written from a state and read back into one.
use vstd::prelude::*;

use super::versioned::{decode_persisted_collections, FieldsView};
use super::wire::{FieldView, WireField};
use crate::event::InboundEventRecord;
use crate::outbox::OutboundDeliveryRecord;
use crate::queue::{QueuedMessage, RunInputRecord};
use crate::run::RunRecord;
use crate::session::{Session, SessionView};
use crate::state::model::RuntimeState;
use crate::state::persisted::PersistedStateParts;
use crate::state::view::StateView;

verus! {

/// The version of the state file that is written.
pub const RUNTIME_STATE_FILE_VERSION: u32 = 8;

/// The model of a state file, of whatever version.
#[verifier::ext_equal]
pub struct FileView {
    pub version: u32,
    pub sessions: Seq<SessionView>,
    pub fields: FieldsView,
    pub updated_at_unix: u64,
}

impl FileView {
    /// The file that a state is written as.
    pub open spec fn of_state(state: StateView) -> FileView {
        FileView {
            version: RUNTIME_STATE_FILE_VERSION,
            sessions: state.sessions,
            fields: FieldsView {
                runs: FieldView::Value(state.runs),
                run_inputs: FieldView::Value(state.run_inputs),
                inbound_events: FieldView::Value(state.inbound_events),
                queued_messages: FieldView::Value(state.queued_messages),
                outbound_deliveries: FieldView::Value(state.outbound_deliveries),
            },
            updated_at_unix: state.updated_at_unix,
        }
    }

    /// The state that the parts of the file make, as they stand.
    pub open spec fn raw(self) -> StateView {
        let collections = self.fields.collections(self.version);
        StateView {
            sessions: self.sessions,
            runs: collections.runs,
            run_inputs: collections.run_inputs,
            inbound_events: collections.inbound_events,
            queued_messages: collections.queued_messages,
            outbound_deliveries: collections.outbound_deliveries,
            updated_at_unix: self.updated_at_unix,
        }
    }

    /// The state that the file is read as, or why it cannot be: the file breaks
    /// the rules of its version, or the state in it is not valid.
    pub open spec fn decoded(self) -> Result<StateView, Seq<char>> {
        match self.fields.fault(self.version) {
            Some(e) => Err(e),
            None => if self.fields.collections(self.version).normalize_aggregate_updated_at {
                self.raw().normalized().checked()
            } else {
                self.raw().checked()
            },
        }
    }
}

/// A state file, as it is written.
#[derive(Debug)]
pub struct RuntimeStateFile<'a> {
    pub version: u32,
    pub sessions: &'a [Session],
    pub runs: &'a [RunRecord],
    pub run_inputs: &'a [RunInputRecord],
    pub inbound_events: &'a [InboundEventRecord],
    pub queued_messages: &'a [QueuedMessage],
    pub outbound_deliveries: &'a [OutboundDeliveryRecord],
    pub updated_at_unix: u64,
}

impl<'a> View for RuntimeStateFile<'a> {
    type V = FileView;

    open spec fn view(&self) -> FileView {
        FileView {
            version: self.version,
            sessions: crate::keyed::views(self.sessions@),
            fields: FieldsView {
                runs: FieldView::Value(crate::keyed::views(self.runs@)),
                run_inputs: FieldView::Value(crate::keyed::views(self.run_inputs@)),
                inbound_events: FieldView::Value(crate::keyed::views(self.inbound_events@)),
                queued_messages: FieldView::Value(crate::keyed::views(self.queued_messages@)),
                outbound_deliveries: FieldView::Value(
                    crate::keyed::views(self.outbound_deliveries@),
                ),
            },
            updated_at_unix: self.updated_at_unix,
        }
    }
}

impl<'a> RuntimeStateFile<'a> {
    /// The file that a state is written as.
    pub fn from_state(state: &'a RuntimeState) -> (r: RuntimeStateFile<'a>)
        ensures
            r@ == FileView::of_state(state@),
    {
        RuntimeStateFile {
            version: RUNTIME_STATE_FILE_VERSION,
            sessions: state.sessions(),
            runs: state.runs(),
            run_inputs: state.run_inputs(),
            inbound_events: state.inbound_events(),
            queued_messages: state.queued_messages(),
            outbound_deliveries: state.outbound_deliveries(),
            updated_at_unix: state.updated_at_unix(),
        }
    }
}

/// The file that a state is written as.
pub fn state_file_from_state<'a>(state: &'a RuntimeState) -> (r: RuntimeStateFile<'a>)
    ensures
        r@ == FileView::of_state(state@),
{
    RuntimeStateFile::from_state(state)
}

/// A state file, as it is read.
#[derive(Debug, PartialEq, Eq)]
pub struct RuntimeStateFileWire {
    pub version: u32,
    pub sessions: Vec<Session>,
    pub runs: WireField<Vec<RunRecord>>,
    pub run_inputs: WireField<Vec<RunInputRecord>>,
    pub inbound_events: WireField<Vec<InboundEventRecord>>,
    pub queued_messages: WireField<Vec<QueuedMessage>>,
    pub outbound_deliveries: WireField<Vec<OutboundDeliveryRecord>>,
    pub updated_at_unix: u64,
}

impl View for RuntimeStateFileWire {
    type V = FileView;

    open spec fn view(&self) -> FileView {
        FileView {
            version: self.version,
            sessions: crate::keyed::views(self.sessions@),
            fields: FieldsView {
                runs: super::wire::field_view(self.runs),
                run_inputs: super::wire::field_view(self.run_inputs),
                inbound_events: super::wire::field_view(self.inbound_events),
                queued_messages: super::wire::field_view(self.queued_messages),
                outbound_deliveries: super::wire::field_view(self.outbound_deliveries),
            },
            updated_at_unix: self.updated_at_unix,
        }
    }
}

impl Clone for RuntimeStateFileWire {
    fn clone(&self) -> (r: Self)
        ensures
            r@ == self@,
    {
        let r = RuntimeStateFileWire {
            version: self.version,
            sessions: self.sessions.clone(),
            runs: self.runs.copied(),
            run_inputs: self.run_inputs.copied(),
            inbound_events: self.inbound_events.copied(),
            queued_messages: self.queued_messages.copied(),
            outbound_deliveries: self.outbound_deliveries.copied(),
            updated_at_unix: self.updated_at_unix,
        };
        assert(r@.fields.runs =~= self@.fields.runs);
        assert(r@.fields.run_inputs =~= self@.fields.run_inputs);
        assert(r@.fields.inbound_events =~= self@.fields.inbound_events);
        assert(r@.fields.queued_messages =~= self@.fields.queued_messages);
        assert(r@.fields.outbound_deliveries =~= self@.fields.outbound_deliveries);
        assert(r@ =~= self@);
        r
    }
}

impl RuntimeStateFileWire {
    /// What is read back from the file that a state is written as.
    pub fn of_state(state: RuntimeState) -> (r: RuntimeStateFileWire)
        ensures
            r@ == FileView::of_state(state@),
    {
        RuntimeStateFileWire {
            version: RUNTIME_STATE_FILE_VERSION,
            sessions: state.sessions,
            runs: WireField::Value(state.runs),
            run_inputs: WireField::Value(state.run_inputs),
            inbound_events: WireField::Value(state.inbound_events),
            queued_messages: WireField::Value(state.queued_messages),
            outbound_deliveries: WireField::Value(state.outbound_deliveries),
            updated_at_unix: state.updated_at_unix,
        }
    }

    /// The state that the file is read as.
    pub fn into_state(self) -> (r: Result<RuntimeState, String>)
        ensures
            crate::state::persisted::gives_state(r, self@.decoded()),
    {
        let collections = match decode_persisted_collections(
            self.version,
            self.runs,
            self.run_inputs,
            self.inbound_events,
            self.queued_messages,
            self.outbound_deliveries,
        ) {
            Ok(collections) => collections,
            Err(e) => return Err(e),
        };
        RuntimeState::from_persisted_parts(
            PersistedStateParts {
                sessions: self.sessions,
                runs: collections.runs,
                run_inputs: collections.run_inputs,
                inbound_events: collections.inbound_events,
                queued_messages: collections.queued_messages,
                outbound_deliveries: collections.outbound_deliveries,
                updated_at_unix: self.updated_at_unix,
                normalize_aggregate_updated_at: collections.normalize_aggregate_updated_at,
            },
        )
    }
}

/// A valid state that is written to a file is read back from it unchanged.
pub proof fn law_file_round_trip(state: StateView)
    requires
        state.valid(),
    ensures
        FileView::of_state(state).decoded() == Ok::<StateView, Seq<char>>(state),
{
    crate::state::validity::law_fault_free_is_valid(state);
    assert(FileView::of_state(state).raw() =~= state);
}

/// Whatever a file holds, a state that is read from it is valid.
pub proof fn law_decoded_states_are_valid(file: FileView)
    ensures
        file.decoded() matches Ok(state) ==> state.valid(),
{
    crate::state::validity::law_fault_free_is_valid(file.raw());
    crate::state::validity::law_fault_free_is_valid(file.raw().normalized());
}

} // verus!
