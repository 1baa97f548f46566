//! The rules of each version of the state file.
use vstd::prelude::*;

use super::current::RUNTIME_STATE_FILE_VERSION;
use super::wire::{FieldView, WireField};
use crate::event::{EventRecordView, InboundEventRecord};
use crate::outbox::{DeliveryView, OutboundDeliveryRecord};
use crate::queue::{QueuedMessage, QueuedView, RunInputRecord, RunInputView};
use crate::run::{RunRecord, RunStatus, RunView};
use crate::text::{decimal_text, join4};

verus! {

/// The version that brought run records.
pub const RUNS_SINCE: u32 = 2;

/// The version that brought the inbound event ledger.
pub const INBOUND_EVENTS_SINCE: u32 = 3;

/// The version that brought outbound deliveries.
pub const OUTBOUND_DELIVERIES_SINCE: u32 = 4;

/// The version that brought queued messages.
pub const QUEUED_MESSAGES_SINCE: u32 = 5;

/// The version that brought run inputs.
pub const RUN_INPUTS_SINCE: u32 = 6;

/// The version that brought interrupted runs.
pub const INTERRUPTED_RUNS_SINCE: u32 = 7;

/// The version that brought the output deliveries of runs.
pub const RUN_OUTPUTS_SINCE: u32 = 8;

/// The model of the collections of a state file.
#[verifier::ext_equal]
pub struct FieldsView {
    pub runs: FieldView<RunView>,
    pub run_inputs: FieldView<RunInputView>,
    pub inbound_events: FieldView<EventRecordView>,
    pub queued_messages: FieldView<QueuedView>,
    pub outbound_deliveries: FieldView<DeliveryView>,
}

/// The model of [`PersistedCollections`].
#[verifier::ext_equal]
pub struct CollectionsView {
    pub runs: Seq<RunView>,
    pub run_inputs: Seq<RunInputView>,
    pub inbound_events: Seq<EventRecordView>,
    pub queued_messages: Seq<QueuedView>,
    pub outbound_deliveries: Seq<DeliveryView>,
    pub normalize_aggregate_updated_at: bool,
}

/// A file of `version` must not have what came later.
pub open spec fn must_not_contain(version: u32, noun: Seq<char>) -> Seq<char> {
    "runtime state version "@ + crate::text::decimal(version as nat) + " must not contain "@ + noun
}

/// A file of `version` must have what it is known for.
pub open spec fn must_contain(version: u32, noun: Seq<char>) -> Seq<char> {
    "runtime state version "@ + crate::text::decimal(version as nat) + " must contain "@ + noun
}

/// A field must be absent from files of versions before `since`, and have a value
/// in all others.
pub open spec fn field_fault<V>(
    version: u32,
    since: u32,
    field: FieldView<V>,
    noun: Seq<char>,
) -> Option<Seq<char>> {
    if version < since {
        if field is Missing {
            None
        } else {
            Some(must_not_contain(version, noun))
        }
    } else if field is Value {
        None
    } else {
        Some(must_contain(version, noun))
    }
}

/// Some run is interrupted.
pub open spec fn any_interrupted(runs: Seq<RunView>) -> bool {
    exists|i: int| 0 <= i < runs.len() && (#[trigger] runs[i]).status is Interrupted
}

/// Some run has output deliveries.
pub open spec fn any_output(runs: Seq<RunView>) -> bool {
    exists|i: int| 0 <= i < runs.len() && (#[trigger] runs[i]).output_delivery_ids.len() > 0
}

/// What a file of `version` must not say of its runs.
pub open spec fn run_rules_fault(version: u32, runs: Seq<RunView>) -> Option<Seq<char>> {
    if version < INTERRUPTED_RUNS_SINCE && any_interrupted(runs) {
        Some(must_not_contain(version, "interrupted runs"@))
    } else if version < RUN_OUTPUTS_SINCE && any_output(runs) {
        Some(must_not_contain(version, "run output delivery ids"@))
    } else {
        None
    }
}

impl FieldsView {
    pub open spec fn deliveries_fault(self, version: u32) -> Option<Seq<char>> {
        field_fault(
            version,
            OUTBOUND_DELIVERIES_SINCE,
            self.outbound_deliveries,
            "outbound deliveries"@,
        )
    }

    pub open spec fn queue_fault(self, version: u32) -> Option<Seq<char>> {
        field_fault(version, QUEUED_MESSAGES_SINCE, self.queued_messages, "queued messages"@)
    }

    /// Why these collections do not make a file of `version`, if they do not. Run
    /// records come first, after them the ledger, deliveries, queue and run
    /// inputs; the version that brought the queue looks at it before deliveries.
    pub open spec fn fault(self, version: u32) -> Option<Seq<char>> {
        if version < 1 || RUNTIME_STATE_FILE_VERSION < version {
            Some(
                "unsupported runtime state version "@ + crate::text::decimal(version as nat)
                    + "; expected "@ + crate::text::decimal(RUNTIME_STATE_FILE_VERSION as nat),
            )
        } else {
            crate::fault::first_of(
                field_fault(version, RUNS_SINCE, self.runs, "run records"@),
                crate::fault::first_of(
                    run_rules_fault(version, self.runs.records()),
                    crate::fault::first_of(
                        field_fault(
                            version,
                            INBOUND_EVENTS_SINCE,
                            self.inbound_events,
                            "inbound event records"@,
                        ),
                        crate::fault::first_of(
                            if version == QUEUED_MESSAGES_SINCE {
                                crate::fault::first_of(
                                    self.queue_fault(version),
                                    self.deliveries_fault(version),
                                )
                            } else {
                                crate::fault::first_of(
                                    self.deliveries_fault(version),
                                    self.queue_fault(version),
                                )
                            },
                            field_fault(
                                version,
                                RUN_INPUTS_SINCE,
                                self.run_inputs,
                                "run inputs"@,
                            ),
                        ),
                    ),
                ),
            )
        }
    }

    /// The collections of a file of `version`. Files from before the ledger did
    /// not keep the time of the last update in step with their records.
    pub open spec fn collections(self, version: u32) -> CollectionsView {
        CollectionsView {
            runs: self.runs.records(),
            run_inputs: self.run_inputs.records(),
            inbound_events: self.inbound_events.records(),
            queued_messages: self.queued_messages.records(),
            outbound_deliveries: self.outbound_deliveries.records(),
            normalize_aggregate_updated_at: version < INBOUND_EVENTS_SINCE,
        }
    }
}

/// The collections that were read from a state file.
#[derive(Debug, PartialEq, Eq)]
pub struct PersistedCollections {
    pub runs: Vec<RunRecord>,
    pub run_inputs: Vec<RunInputRecord>,
    pub inbound_events: Vec<InboundEventRecord>,
    pub queued_messages: Vec<QueuedMessage>,
    pub outbound_deliveries: Vec<OutboundDeliveryRecord>,
    pub normalize_aggregate_updated_at: bool,
}

impl View for PersistedCollections {
    type V = CollectionsView;

    open spec fn view(&self) -> CollectionsView {
        CollectionsView {
            runs: crate::keyed::views(self.runs@),
            run_inputs: crate::keyed::views(self.run_inputs@),
            inbound_events: crate::keyed::views(self.inbound_events@),
            queued_messages: crate::keyed::views(self.queued_messages@),
            outbound_deliveries: crate::keyed::views(self.outbound_deliveries@),
            normalize_aggregate_updated_at: self.normalize_aggregate_updated_at,
        }
    }
}

/// The records of a field, which must be there exactly in the versions that have
/// it.
fn take_field<T: View>(
    version: u32,
    since: u32,
    field: WireField<Vec<T>>,
    noun: &str,
) -> (r: Result<Vec<T>, String>)
    ensures
        ({
            let model = super::wire::field_view(field);
            match r {
                Ok(records) => field_fault(version, since, model, noun@) is None
                    && crate::keyed::views(records@) == model.records(),
                Err(e) => field_fault(version, since, model, noun@) == Some(e@),
            }
        }),
{
    let number = decimal_text(version as u64);
    if version < since {
        if field.is_present() {
            return Err(
                join4("runtime state version ", number.as_str(), " must not contain ", noun),
            );
        }
        let none: Vec<T> = Vec::new();
        assert(crate::keyed::views(none@) =~= Seq::empty());
        return Ok(none);
    }
    let message = join4("runtime state version ", number.as_str(), " must contain ", noun);
    field.into_required(message.as_str())
}

/// Refuses interrupted runs.
fn reject_interrupted_runs(version: u32, runs: &Vec<RunRecord>) -> (r: Result<(), String>)
    ensures
        crate::fault::reports(
            r,
            if any_interrupted(crate::keyed::views(runs@)) {
                Some(must_not_contain(version, "interrupted runs"@))
            } else {
                None
            },
        ),
{
    let ghost all = crate::keyed::views(runs@);
    let mut i: usize = 0;
    while i < runs.len()
        invariant
            i <= runs@.len(),
            all == crate::keyed::views(runs@),
            forall|j: int| 0 <= j < i ==> !((#[trigger] all[j]).status is Interrupted),
        decreases runs@.len() - i,
    {
        if runs[i].status == RunStatus::Interrupted {
            assert(all[i as int].status is Interrupted);
            let number = decimal_text(version as u64);
            return Err(
                join4(
                    "runtime state version ",
                    number.as_str(),
                    " must not contain ",
                    "interrupted runs",
                ),
            );
        }
        i = i + 1;
    }
    Ok(())
}

/// Refuses runs with output deliveries.
fn reject_output_linked_runs(version: u32, runs: &Vec<RunRecord>) -> (r: Result<(), String>)
    ensures
        crate::fault::reports(
            r,
            if any_output(crate::keyed::views(runs@)) {
                Some(must_not_contain(version, "run output delivery ids"@))
            } else {
                None
            },
        ),
{
    let ghost all = crate::keyed::views(runs@);
    let mut i: usize = 0;
    while i < runs.len()
        invariant
            i <= runs@.len(),
            all == crate::keyed::views(runs@),
            forall|j: int| 0 <= j < i ==> (#[trigger] all[j]).output_delivery_ids.len() == 0,
        decreases runs@.len() - i,
    {
        if runs[i].output_delivery_ids.len() > 0 {
            assert(all[i as int].output_delivery_ids.len() > 0);
            let number = decimal_text(version as u64);
            return Err(
                join4(
                    "runtime state version ",
                    number.as_str(),
                    " must not contain ",
                    "run output delivery ids",
                ),
            );
        }
        i = i + 1;
    }
    Ok(())
}

/// The deliveries and the queue, looked at in the order of the version.
fn take_deliveries_and_queue(
    version: u32,
    queued_messages: WireField<Vec<QueuedMessage>>,
    outbound_deliveries: WireField<Vec<OutboundDeliveryRecord>>,
) -> (r: Result<(Vec<OutboundDeliveryRecord>, Vec<QueuedMessage>), String>)
    ensures
        ({
            let queue = super::wire::field_view(queued_messages);
            let deliveries = super::wire::field_view(outbound_deliveries);
            let queue_fault = field_fault(
                version,
                QUEUED_MESSAGES_SINCE,
                queue,
                "queued messages"@,
            );
            let deliveries_fault = field_fault(
                version,
                OUTBOUND_DELIVERIES_SINCE,
                deliveries,
                "outbound deliveries"@,
            );
            let fault = if version == QUEUED_MESSAGES_SINCE {
                crate::fault::first_of(queue_fault, deliveries_fault)
            } else {
                crate::fault::first_of(deliveries_fault, queue_fault)
            };
            match r {
                Ok((taken_deliveries, taken_queue)) => {
                    &&& fault is None
                    &&& crate::keyed::views(taken_deliveries@) == deliveries.records()
                    &&& crate::keyed::views(taken_queue@) == queue.records()
                },
                Err(e) => fault == Some(e@),
            }
        }),
{
    if version == QUEUED_MESSAGES_SINCE {
        let queue = match take_field(
            version,
            QUEUED_MESSAGES_SINCE,
            queued_messages,
            "queued messages",
        ) {
            Ok(queue) => queue,
            Err(e) => return Err(e),
        };
        match take_field(
            version,
            OUTBOUND_DELIVERIES_SINCE,
            outbound_deliveries,
            "outbound deliveries",
        ) {
            Ok(deliveries) => Ok((deliveries, queue)),
            Err(e) => Err(e),
        }
    } else {
        let deliveries = match take_field(
            version,
            OUTBOUND_DELIVERIES_SINCE,
            outbound_deliveries,
            "outbound deliveries",
        ) {
            Ok(deliveries) => deliveries,
            Err(e) => return Err(e),
        };
        match take_field(version, QUEUED_MESSAGES_SINCE, queued_messages, "queued messages") {
            Ok(queue) => Ok((deliveries, queue)),
            Err(e) => Err(e),
        }
    }
}

/// The collections of a state file of `version`, which must have what the version
/// is known for and nothing that came later.
pub fn decode_persisted_collections(
    version: u32,
    runs: WireField<Vec<RunRecord>>,
    run_inputs: WireField<Vec<RunInputRecord>>,
    inbound_events: WireField<Vec<InboundEventRecord>>,
    queued_messages: WireField<Vec<QueuedMessage>>,
    outbound_deliveries: WireField<Vec<OutboundDeliveryRecord>>,
) -> (r: Result<PersistedCollections, String>)
    ensures
        ({
            let fields = FieldsView {
                runs: super::wire::field_view(runs),
                run_inputs: super::wire::field_view(run_inputs),
                inbound_events: super::wire::field_view(inbound_events),
                queued_messages: super::wire::field_view(queued_messages),
                outbound_deliveries: super::wire::field_view(outbound_deliveries),
            };
            match r {
                Ok(collections) => fields.fault(version) is None && collections@
                    == fields.collections(version),
                Err(e) => fields.fault(version) == Some(e@),
            }
        }),
{
    if version < 1 || RUNTIME_STATE_FILE_VERSION < version {
        let number = decimal_text(version as u64);
        let expected = decimal_text(RUNTIME_STATE_FILE_VERSION as u64);
        return Err(
            join4(
                "unsupported runtime state version ",
                number.as_str(),
                "; expected ",
                expected.as_str(),
            ),
        );
    }
    let runs = match take_field(version, RUNS_SINCE, runs, "run records") {
        Ok(runs) => runs,
        Err(e) => return Err(e),
    };
    if version < INTERRUPTED_RUNS_SINCE {
        match reject_interrupted_runs(version, &runs) {
            Ok(()) => {},
            Err(e) => return Err(e),
        }
    }
    if version < RUN_OUTPUTS_SINCE {
        match reject_output_linked_runs(version, &runs) {
            Ok(()) => {},
            Err(e) => return Err(e),
        }
    }
    let inbound_events = match take_field(
        version,
        INBOUND_EVENTS_SINCE,
        inbound_events,
        "inbound event records",
    ) {
        Ok(inbound_events) => inbound_events,
        Err(e) => return Err(e),
    };
    let (outbound_deliveries, queued_messages) = match take_deliveries_and_queue(
        version,
        queued_messages,
        outbound_deliveries,
    ) {
        Ok(taken) => taken,
        Err(e) => return Err(e),
    };
    let run_inputs = match take_field(version, RUN_INPUTS_SINCE, run_inputs, "run inputs") {
        Ok(run_inputs) => run_inputs,
        Err(e) => return Err(e),
    };
    Ok(
        PersistedCollections {
            runs,
            run_inputs,
            inbound_events,
            queued_messages,
            outbound_deliveries,
            normalize_aggregate_updated_at: version < INBOUND_EVENTS_SINCE,
        },
    )
}

} // verus!
