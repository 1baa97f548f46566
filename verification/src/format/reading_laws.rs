//! What is read from a state file of each version, in terms of what stands in it.
use vstd::prelude::*;

use super::current::{FileView, RuntimeStateFile, RuntimeStateFileWire};
use super::versioned::FieldsView;
use super::wire::{FieldView, WireField};
use crate::run::RunView;
use crate::state::persisted::{
    law_normalizing_covers_every_record, law_normalizing_takes_a_record_time,
};
use crate::state::validity::law_fault_free_is_valid;
use crate::state::view::StateView;

verus! {

/// A file that is read without a refusal is of one of the versions from the first
/// to the eighth, and gives a state with exactly the lists that stand in it. A
/// list is empty for want of a field only where the version has no such field:
/// runs came with the second version, the ledger with the third, deliveries with
/// the fourth, the queue with the fifth, and run inputs with the sixth.
pub proof fn law_reading_keeps_every_list(file: FileView, state: StateView)
    requires
        file.decoded() == Ok::<StateView, Seq<char>>(state),
    ensures
        1 <= file.version <= 8,
        state.sessions == file.sessions,
        file.version >= 2 ==> file.fields.runs == FieldView::Value(state.runs),
        file.version >= 3 ==> file.fields.inbound_events == FieldView::Value(state.inbound_events),
        file.version >= 4 ==> file.fields.outbound_deliveries == FieldView::Value(
            state.outbound_deliveries,
        ),
        file.version >= 5 ==> file.fields.queued_messages == FieldView::Value(
            state.queued_messages,
        ),
        file.version >= 6 ==> file.fields.run_inputs == FieldView::Value(state.run_inputs),
        file.version < 2 ==> file.fields.runs is Missing && state.runs.len() == 0,
        file.version < 3 ==> file.fields.inbound_events is Missing && state.inbound_events.len()
            == 0,
        file.version < 4 ==> file.fields.outbound_deliveries is Missing
            && state.outbound_deliveries.len() == 0,
        file.version < 5 ==> file.fields.queued_messages is Missing && state.queued_messages.len()
            == 0,
        file.version < 6 ==> file.fields.run_inputs is Missing && state.run_inputs.len() == 0,
        file.version < 7 ==> forall|i: int|
            0 <= i < state.runs.len() ==> (#[trigger] state.runs[i]).status !is Interrupted,
        file.version < 8 ==> forall|i: int|
            0 <= i < state.runs.len() ==> (#[trigger] state.runs[i]).output_delivery_ids.len() == 0,
{
}

/// The time of the last update is that in the file. Files of the first two
/// versions are the exception: there it is the latest of that time and the times
/// of the sessions and runs in the file.
pub proof fn law_reading_keeps_the_time(file: FileView, state: StateView)
    requires
        file.decoded() == Ok::<StateView, Seq<char>>(state),
    ensures
        file.version >= 3 ==> state.updated_at_unix == file.updated_at_unix,
        file.updated_at_unix <= state.updated_at_unix,
        state.updated_at_unix == file.updated_at_unix || (exists|i: int|
            0 <= i < file.sessions.len() && (#[trigger] file.sessions[i]).updated_at_unix
                == state.updated_at_unix) || (exists|i: int|
            0 <= i < state.runs.len() && (#[trigger] state.runs[i]).updated_at_unix
                == state.updated_at_unix),
        forall|i: int|
            0 <= i < file.sessions.len() ==> (#[trigger] file.sessions[i]).updated_at_unix
                <= state.updated_at_unix,
        forall|i: int|
            0 <= i < state.runs.len() ==> (#[trigger] state.runs[i]).updated_at_unix
                <= state.updated_at_unix,
{
    super::current::law_decoded_states_are_valid(file);
    law_normalizing_covers_every_record(file.raw());
    law_normalizing_takes_a_record_time(file.raw());
}

/// A file is read wherever it keeps to its version and holds a valid state: each
/// list is there from the version on that brought it, and absent before; no run
/// is interrupted before the seventh version, and none has output deliveries
/// before the eighth. What is read is then the state that the lists make.
pub proof fn law_sound_files_are_read(file: FileView, held: StateView)
    requires
        1 <= file.version <= 8,
        file.sessions == held.sessions,
        file.fields.runs == if file.version >= 2 {
            FieldView::Value(held.runs)
        } else {
            FieldView::Missing
        },
        file.fields.inbound_events == if file.version >= 3 {
            FieldView::Value(held.inbound_events)
        } else {
            FieldView::Missing
        },
        file.fields.outbound_deliveries == if file.version >= 4 {
            FieldView::Value(held.outbound_deliveries)
        } else {
            FieldView::Missing
        },
        file.fields.queued_messages == if file.version >= 5 {
            FieldView::Value(held.queued_messages)
        } else {
            FieldView::Missing
        },
        file.fields.run_inputs == if file.version >= 6 {
            FieldView::Value(held.run_inputs)
        } else {
            FieldView::Missing
        },
        file.version < 2 ==> held.runs.len() == 0,
        file.version < 3 ==> held.inbound_events.len() == 0,
        file.version < 4 ==> held.outbound_deliveries.len() == 0,
        file.version < 5 ==> held.queued_messages.len() == 0,
        file.version < 6 ==> held.run_inputs.len() == 0,
        file.version < 7 ==> forall|i: int|
            0 <= i < held.runs.len() ==> (#[trigger] held.runs[i]).status !is Interrupted,
        file.version < 8 ==> forall|i: int|
            0 <= i < held.runs.len() ==> (#[trigger] held.runs[i]).output_delivery_ids.len() == 0,
        held.updated_at_unix == file.updated_at_unix,
        held.valid(),
    ensures
        file.decoded() == Ok::<StateView, Seq<char>>(held),
{
    let raw = file.raw();
    assert(raw =~= held);
    if file.version >= 2 {
        assert(file.fields.runs.records() == held.runs);
    } else {
        assert(file.fields.runs.records() =~= Seq::<RunView>::empty());
    }
    law_normalizing_covers_every_record(held);
    law_fault_free_is_valid(held);
}

/// A file of the first two versions is read even where its time lies before that
/// of its sessions or runs, as long as the rest of it is in order.
pub proof fn law_early_files_may_be_behind_their_records(file: FileView, held: StateView)
    requires
        1 <= file.version <= 2,
        file.sessions == held.sessions,
        file.fields.runs == if file.version >= 2 {
            FieldView::Value(held.runs)
        } else {
            FieldView::Missing
        },
        file.version < 2 ==> held.runs.len() == 0,
        file.fields.inbound_events is Missing && held.inbound_events.len() == 0,
        file.fields.outbound_deliveries is Missing && held.outbound_deliveries.len() == 0,
        file.fields.queued_messages is Missing && held.queued_messages.len() == 0,
        file.fields.run_inputs is Missing && held.run_inputs.len() == 0,
        forall|i: int|
            0 <= i < held.runs.len() ==> (#[trigger] held.runs[i]).status !is Interrupted
                && held.runs[i].output_delivery_ids.len() == 0,
        file.updated_at_unix <= held.updated_at_unix,
        file.updated_at_unix == held.updated_at_unix || (exists|i: int|
            0 <= i < held.sessions.len() && (#[trigger] held.sessions[i]).updated_at_unix
                == held.updated_at_unix) || (exists|i: int|
            0 <= i < held.runs.len() && (#[trigger] held.runs[i]).updated_at_unix
                == held.updated_at_unix),
        held.valid(),
    ensures
        file.decoded() == Ok::<StateView, Seq<char>>(held),
{
    let raw = file.raw();
    assert(raw =~= (StateView { updated_at_unix: file.updated_at_unix, ..held }));
    if file.version >= 2 {
        assert(file.fields.runs.records() == held.runs);
    } else {
        assert(file.fields.runs.records() =~= Seq::<RunView>::empty());
    }
    law_normalizing_covers_every_record(raw);
    law_normalizing_takes_a_record_time(raw);
    assert(raw.normalized() =~= held);
    law_fault_free_is_valid(held);
}

/// A state is written as a file of the eighth version, with every list in it.
pub proof fn law_written_files(state: StateView)
    ensures
        ({
            let file = FileView::of_state(state);
            &&& file.version == 8
            &&& file.sessions == state.sessions
            &&& file.fields.runs == FieldView::Value(state.runs)
            &&& file.fields.run_inputs == FieldView::Value(state.run_inputs)
            &&& file.fields.inbound_events == FieldView::Value(state.inbound_events)
            &&& file.fields.queued_messages == FieldView::Value(state.queued_messages)
            &&& file.fields.outbound_deliveries == FieldView::Value(state.outbound_deliveries)
            &&& file.updated_at_unix == state.updated_at_unix
        }),
{
}

/// The lists of a file of a version are accepted exactly where each is there from the
/// version on that brought it and absent before, no run is interrupted before the
/// seventh version, and none has output deliveries before the eighth.
pub proof fn law_version_rules(fields: FieldsView, version: u32)
    ensures
        fields.fault(version) is None <==> {
            &&& 1 <= version <= 8
            &&& if version >= 2 { fields.runs is Value } else { fields.runs is Missing }
            &&& if version >= 3 { fields.inbound_events is Value } else {
                fields.inbound_events is Missing
            }
            &&& if version >= 4 { fields.outbound_deliveries is Value } else {
                fields.outbound_deliveries is Missing
            }
            &&& if version >= 5 { fields.queued_messages is Value } else {
                fields.queued_messages is Missing
            }
            &&& if version >= 6 { fields.run_inputs is Value } else {
                fields.run_inputs is Missing
            }
            &&& fields.runs matches FieldView::Value(runs) ==> forall|i: int|
                0 <= i < runs.len() ==> (version >= 7 || (#[trigger] runs[i]).status
                    !is Interrupted) && (version >= 8 || runs[i].output_delivery_ids.len() == 0)
        },
{
    let runs = fields.runs.records();
    if super::versioned::any_interrupted(runs) {
        let i = choose|i: int| 0 <= i < runs.len() && (#[trigger] runs[i]).status is Interrupted;
        assert(runs[i].status is Interrupted);
    }
    if super::versioned::any_output(runs) {
        let i = choose|i: int|
            0 <= i < runs.len() && (#[trigger] runs[i]).output_delivery_ids.len() > 0;
        assert(runs[i].output_delivery_ids.len() > 0);
    }
}

/// The lists that are taken from a file are exactly those that stand in it, and only
/// files of the first two versions have their time brought up to that of their
/// records.
pub proof fn law_lists_are_taken_as_they_stand(fields: FieldsView, version: u32)
    ensures
        ({
            let taken = fields.collections(version);
            &&& match fields.runs {
                FieldView::Value(list) => taken.runs == list,
                _ => taken.runs.len() == 0,
            }
            &&& match fields.run_inputs {
                FieldView::Value(list) => taken.run_inputs == list,
                _ => taken.run_inputs.len() == 0,
            }
            &&& match fields.inbound_events {
                FieldView::Value(list) => taken.inbound_events == list,
                _ => taken.inbound_events.len() == 0,
            }
            &&& match fields.queued_messages {
                FieldView::Value(list) => taken.queued_messages == list,
                _ => taken.queued_messages.len() == 0,
            }
            &&& match fields.outbound_deliveries {
                FieldView::Value(list) => taken.outbound_deliveries == list,
                _ => taken.outbound_deliveries.len() == 0,
            }
            &&& taken.normalize_aggregate_updated_at <==> version <= 2
        }),
{
}

/// The model of a field that may be absent says whether it is, whether it is null, and
/// otherwise what stands in it, in order.
pub proof fn law_field_models<T: View>(field: WireField<Vec<T>>)
    ensures
        field is Missing <==> super::wire::field_view(field) is Missing,
        field is Null <==> super::wire::field_view(field) is Null,
        field matches WireField::Value(records) ==> {
            &&& super::wire::field_view(field) matches FieldView::Value(list)
            &&& list.len() == records@.len()
            &&& forall|i: int| 0 <= i < list.len() ==> #[trigger] list[i] == records@[i]@
        },
{
}

/// The model of a file that is read has its version and time, its sessions in order,
/// and each of its fields.
pub proof fn law_read_file_models(file: RuntimeStateFileWire)
    ensures
        file@.version == file.version,
        file@.updated_at_unix == file.updated_at_unix,
        file@.sessions.len() == file.sessions@.len(),
        forall|i: int|
            0 <= i < file.sessions@.len() ==> #[trigger] file@.sessions[i] == file.sessions@[i]@,
        file@.fields.runs == super::wire::field_view(file.runs),
        file@.fields.run_inputs == super::wire::field_view(file.run_inputs),
        file@.fields.inbound_events == super::wire::field_view(file.inbound_events),
        file@.fields.queued_messages == super::wire::field_view(file.queued_messages),
        file@.fields.outbound_deliveries == super::wire::field_view(file.outbound_deliveries),
{
}

/// The model of a file that is written has its version and time, and all its lists in
/// order.
pub proof fn law_written_file_models<'a>(file: RuntimeStateFile<'a>)
    ensures
        file@.version == file.version,
        file@.updated_at_unix == file.updated_at_unix,
        file@.sessions.len() == file.sessions@.len(),
        forall|i: int|
            0 <= i < file.sessions@.len() ==> #[trigger] file@.sessions[i] == file.sessions@[i]@,
        file@.fields.runs matches FieldView::Value(list) && list.len() == file.runs@.len() && (
        forall|i: int| 0 <= i < list.len() ==> #[trigger] list[i] == file.runs@[i]@),
        file@.fields.run_inputs matches FieldView::Value(list) && list.len()
            == file.run_inputs@.len() && (forall|i: int|
            0 <= i < list.len() ==> #[trigger] list[i] == file.run_inputs@[i]@),
        file@.fields.inbound_events matches FieldView::Value(list) && list.len()
            == file.inbound_events@.len() && (forall|i: int|
            0 <= i < list.len() ==> #[trigger] list[i] == file.inbound_events@[i]@),
        file@.fields.queued_messages matches FieldView::Value(list) && list.len()
            == file.queued_messages@.len() && (forall|i: int|
            0 <= i < list.len() ==> #[trigger] list[i] == file.queued_messages@[i]@),
        file@.fields.outbound_deliveries matches FieldView::Value(list) && list.len()
            == file.outbound_deliveries@.len() && (forall|i: int|
            0 <= i < list.len() ==> #[trigger] list[i] == file.outbound_deliveries@[i]@),
{
}

} // verus!
