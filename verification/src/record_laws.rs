//! What the models of records say of them, and what sessions and ledger entries
//! are, field by field.
use vstd::prelude::*;

use crate::event::{
    event_record, Event, EventKind, EventRecordView, EventView, InboundEventRecord,
};
use crate::keyed::{find_key, has_key, lemma_find_key, lookup, Keyed};
use crate::message::{Message, MessageContent};
use crate::outbox::{DeliveryView, OutboundDeliveryRecord};
use crate::queue::{QueuedMessage, QueuedView, RunInputRecord, RunInputView};
use crate::run::{RunRecord, RunView};
use crate::session::{derived_id, session_started, ScopeView, Session, SessionView};
use crate::state::model::RuntimeState;
use crate::state::persisted::PersistedStateParts;
use crate::text::{hex_bytes, numeral};

verus! {

// ------------------------------------------------------------- searching

/// Something is found under a key exactly where some item has the key, and what is
/// found is the first such item.
pub proof fn law_searching<T: Keyed>(items: Seq<T>, key: Seq<char>)
    ensures
        has_key(items, key) <==> exists|i: int|
            0 <= i < items.len() && (#[trigger] items[i]).key() == key,
        lookup(items, key) is Some <==> has_key(items, key),
        lookup(items, key) matches Some(item) ==> exists|i: int|
            {
                &&& 0 <= i < items.len()
                &&& #[trigger] items[i] == item
                &&& item.key() == key
                &&& forall|j: int| 0 <= j < i ==> (#[trigger] items[j]).key() != key
            },
{
    lemma_find_key(items, key);
    if let Some(i) = find_key(items, key) {
        assert(items[i].key() == key);
    }
}

/// Sessions, runs, events and deliveries are known by their id, queued messages by
/// that of their event, and run inputs by that of their run.
pub proof fn law_keys(
    session: SessionView,
    run: RunView,
    event: EventRecordView,
    delivery: DeliveryView,
    queued: QueuedView,
    input: RunInputView,
)
    ensures
        session.key() == session.id,
        run.key() == run.id,
        event.key() == event.id,
        delivery.key() == delivery.id,
        queued.key() == queued.event_id,
        input.key() == input.run_id,
{
}

// -------------------------------------------------- sessions and events

/// A session that starts has the id of its scope, and is as old as it is new.
pub proof fn law_new_sessions(scope: ScopeView, now: u64)
    ensures
        ({
            let session = session_started(scope, now);
            &&& session.id == derived_id(scope)
            &&& session.scope == scope
            &&& session.created_at_unix == now
            &&& session.updated_at_unix == now
            &&& session.flaw() is None
        }),
{
}

/// The id of a session names the platform and then the scope, each by the number of its
/// bytes and the bytes, in hexadecimal and behind underscores.
pub proof fn law_session_id_shape(scope: ScopeView)
    ensures
        ({
            let platform = vstd::utf8::encode_utf8(scope.platform);
            let place = vstd::utf8::encode_utf8(scope.scope);
            derived_id(scope) == "session_v1"@ + ("_"@ + numeral(platform.len(), 16) + ("_"@
                + hex_bytes(platform))) + ("_"@ + numeral(place.len(), 16) + ("_"@ + hex_bytes(
                place,
            )))
        }),
{
}

/// A session is sound exactly where it has the id of its scope and was not updated
/// before it was created.
pub proof fn law_sound_sessions(session: SessionView)
    ensures
        session.flaw() is None <==> session.id == derived_id(session.scope)
            && session.created_at_unix <= session.updated_at_unix,
{
}

/// Refreshing a session moves its last update forward to that of the newer record,
/// never back, and changes nothing else.
pub proof fn law_refreshing(session: SessionView, newer: SessionView)
    ensures
        ({
            let after = session.refreshed(newer);
            &&& after.id == session.id
            &&& after.scope == session.scope
            &&& after.created_at_unix == session.created_at_unix
            &&& after.updated_at_unix >= session.updated_at_unix
            &&& after.updated_at_unix >= newer.updated_at_unix
            &&& after.updated_at_unix == session.updated_at_unix || after.updated_at_unix
                == newer.updated_at_unix
        }),
{
}

/// A ledger entry has the id and the receive time of its event, and is recorded at
/// the given time, or at the receive time where that is later.
pub proof fn law_ledger_entries(event: EventView, at: u64)
    ensures
        ({
            let record = event_record(event, at);
            &&& record.id == event.id
            &&& record.received_at_unix == event.received_at_unix
            &&& record.recorded_at_unix >= at
            &&& record.recorded_at_unix >= event.received_at_unix
            &&& record.recorded_at_unix == at || record.recorded_at_unix == event.received_at_unix
            &&& record.flaw() is None
        }),
{
}

/// A ledger entry is sound exactly where it was not recorded before it was received.
pub proof fn law_sound_ledger_entries(record: EventRecordView)
    ensures
        record.flaw() is None <==> record.received_at_unix <= record.recorded_at_unix,
{
}

// ---------------------------------------------------------------- models

/// The model of a message has its id, session, author, text and time.
pub proof fn law_message_models(message: Message)
    ensures
        message@.id == message.id.text@,
        message@.session_id is Some <==> message.session_id is Some,
        message.session_id matches Some(id) ==> message@.session_id == Some(id.text@),
        message@.author == message.author,
        message.content matches MessageContent::Text(text) ==> message@.text == text@,
        message@.created_at_unix == message.created_at_unix,
{
}

/// The model of an event has its id, source, contents and receive time.
pub proof fn law_event_models(event: Event)
    ensures
        event@.id == event.id.text@,
        event@.source == event.source,
        event@.received_at_unix == event.received_at_unix,
        event.kind matches EventKind::MessageReceived { message } ==> event@.kind
            is MessageReceived && event@.kind->MessageReceived_message == message@,
        event.kind matches EventKind::RuntimeNotice { message } ==> event@.kind is RuntimeNotice
            && event@.kind->RuntimeNotice_message == message@,
{
}

/// The model of a ledger entry has its id and both of its times.
pub proof fn law_ledger_models(record: InboundEventRecord)
    ensures
        record@.id == record.id.text@,
        record@.received_at_unix == record.received_at_unix,
        record@.recorded_at_unix == record.recorded_at_unix,
{
}

/// The model of a session has its id, scope and times.
pub proof fn law_session_models(session: Session)
    ensures
        session@.id == session.id.text@,
        session@.scope.platform == session.scope.platform@,
        session@.scope.scope == session.scope.scope@,
        session@.created_at_unix == session.created_at_unix,
        session@.updated_at_unix == session.updated_at_unix,
{
}

/// The model of a run has its ids, status and times, and the ids of its output in
/// order.
pub proof fn law_run_models(run: RunRecord)
    ensures
        run@.id == run.id.text@,
        run@.session_id == run.session_id.text@,
        run@.status == run.status,
        run@.created_at_unix == run.created_at_unix,
        run@.updated_at_unix == run.updated_at_unix,
        run@.started_at_unix == run.started_at_unix,
        run@.finished_at_unix == run.finished_at_unix,
        run@.output_delivery_ids.len() == run.output_delivery_ids@.len(),
        forall|i: int|
            0 <= i < run.output_delivery_ids@.len() ==> #[trigger] run@.output_delivery_ids[i]
                == run.output_delivery_ids@[i].text@,
{
}

/// The model of a delivery has its ids, message, status, attempts, times and error.
pub proof fn law_delivery_models(delivery: OutboundDeliveryRecord)
    ensures
        delivery@.id == delivery.id.text@,
        delivery@.session_id == delivery.session_id.text@,
        delivery@.message == delivery.message@,
        delivery@.status == delivery.status,
        delivery@.delivery_attempts == delivery.delivery_attempts,
        delivery@.created_at_unix == delivery.created_at_unix,
        delivery@.updated_at_unix == delivery.updated_at_unix,
        delivery@.delivered_at_unix == delivery.delivered_at_unix,
        delivery@.last_error is Some <==> delivery.last_error is Some,
        delivery.last_error matches Some(error) ==> delivery@.last_error == Some(error@),
{
}

/// The model of a queue entry has its ids, message and times.
pub proof fn law_queue_models(queued: QueuedMessage)
    ensures
        queued@.event_id == queued.event_id.text@,
        queued@.session_id == queued.session_id.text@,
        queued@.message == queued.message@,
        queued@.received_at_unix == queued.received_at_unix,
        queued@.enqueued_at_unix == queued.enqueued_at_unix,
{
}

/// The model of a run input has its ids and time, and its messages in order.
pub proof fn law_input_models(input: RunInputRecord)
    ensures
        input@.run_id == input.run_id.text@,
        input@.session_id == input.session_id.text@,
        input@.claimed_at_unix == input.claimed_at_unix,
        input@.messages.len() == input.messages@.len(),
        forall|i: int|
            0 <= i < input.messages@.len() ==> #[trigger] input@.messages[i]
                == input.messages@[i]@,
{
}

/// The model of a state has the models of all its records, in order, and its time.
pub proof fn law_state_models(state: RuntimeState)
    ensures
        state@.updated_at_unix == state.updated_at_unix,
        state@.sessions.len() == state.sessions@.len(),
        forall|i: int|
            0 <= i < state.sessions@.len() ==> #[trigger] state@.sessions[i]
                == state.sessions@[i]@,
        state@.runs.len() == state.runs@.len(),
        forall|i: int|
            0 <= i < state.runs@.len() ==> #[trigger] state@.runs[i] == state.runs@[i]@,
        state@.run_inputs.len() == state.run_inputs@.len(),
        forall|i: int|
            0 <= i < state.run_inputs@.len() ==> #[trigger] state@.run_inputs[i]
                == state.run_inputs@[i]@,
        state@.inbound_events.len() == state.inbound_events@.len(),
        forall|i: int|
            0 <= i < state.inbound_events@.len() ==> #[trigger] state@.inbound_events[i]
                == state.inbound_events@[i]@,
        state@.queued_messages.len() == state.queued_messages@.len(),
        forall|i: int|
            0 <= i < state.queued_messages@.len() ==> #[trigger] state@.queued_messages[i]
                == state.queued_messages@[i]@,
        state@.outbound_deliveries.len() == state.outbound_deliveries@.len(),
        forall|i: int|
            0 <= i < state.outbound_deliveries@.len() ==> #[trigger] state@.outbound_deliveries[i]
                == state.outbound_deliveries@[i]@,
{
}

/// The state that persisted parts make has the models of all their records, in order,
/// and their time.
pub proof fn law_persisted_parts(parts: PersistedStateParts)
    ensures
        parts.raw().updated_at_unix == parts.updated_at_unix,
        parts.raw().sessions.len() == parts.sessions@.len(),
        forall|i: int|
            0 <= i < parts.sessions@.len() ==> #[trigger] parts.raw().sessions[i]
                == parts.sessions@[i]@,
        parts.raw().runs.len() == parts.runs@.len(),
        forall|i: int|
            0 <= i < parts.runs@.len() ==> #[trigger] parts.raw().runs[i] == parts.runs@[i]@,
        parts.raw().run_inputs.len() == parts.run_inputs@.len(),
        forall|i: int|
            0 <= i < parts.run_inputs@.len() ==> #[trigger] parts.raw().run_inputs[i]
                == parts.run_inputs@[i]@,
        parts.raw().inbound_events.len() == parts.inbound_events@.len(),
        forall|i: int|
            0 <= i < parts.inbound_events@.len() ==> #[trigger] parts.raw().inbound_events[i]
                == parts.inbound_events@[i]@,
        parts.raw().queued_messages.len() == parts.queued_messages@.len(),
        forall|i: int|
            0 <= i < parts.queued_messages@.len() ==> #[trigger] parts.raw().queued_messages[i]
                == parts.queued_messages@[i]@,
        parts.raw().outbound_deliveries.len() == parts.outbound_deliveries@.len(),
        forall|i: int|
            0 <= i < parts.outbound_deliveries@.len()
                ==> #[trigger] parts.raw().outbound_deliveries[i] == parts.outbound_deliveries@[i]@,
{
}

} // verus!
