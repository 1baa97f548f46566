//! What each step of a run changes, which runs are sound, and which record of a
//! run is the later one, field by field.
use vstd::prelude::*;

use crate::run::{run_created, RunStatus, RunView};

verus! {

/// A new run is pending in its session, was created and updated at the given time,
/// has neither started nor finished, and has no output.
pub proof fn law_new_runs_are_pending(id: Seq<char>, session_id: Seq<char>, at: u64)
    ensures
        ({
            let run = run_created(id, session_id, at);
            &&& run.id == id
            &&& run.session_id == session_id
            &&& run.status is Pending
            &&& run.created_at_unix == at
            &&& run.updated_at_unix == at
            &&& run.started_at_unix is None
            &&& run.finished_at_unix is None
            &&& run.output_delivery_ids.len() == 0
            &&& run.flaw() is None
        }),
{
}

/// A run can start exactly while it is pending, at any time from its last update
/// on. It is then running since that time.
pub proof fn law_starting(run: RunView, at: u64)
    ensures
        run.started(at) is Ok <==> run.status is Pending && run.updated_at_unix <= at,
        run.started(at) matches Ok(next) ==> {
            &&& next.status is Running
            &&& next.started_at_unix == Some(at)
            &&& next.updated_at_unix == at
            &&& next.id == run.id
            &&& next.session_id == run.session_id
            &&& next.created_at_unix == run.created_at_unix
            &&& next.finished_at_unix == run.finished_at_unix
            &&& next.output_delivery_ids == run.output_delivery_ids
        },
{
}

/// A run can be interrupted exactly while it is pending or running, at any time
/// from its last update on. When it started stays known.
pub proof fn law_interrupting(run: RunView, at: u64)
    ensures
        run.interrupted(at) is Ok <==> (run.status is Pending || run.status is Running)
            && run.updated_at_unix <= at,
        run.interrupted(at) matches Ok(next) ==> {
            &&& next.status is Interrupted
            &&& next.updated_at_unix == at
            &&& next.id == run.id
            &&& next.session_id == run.session_id
            &&& next.created_at_unix == run.created_at_unix
            &&& next.started_at_unix == run.started_at_unix
            &&& next.finished_at_unix == run.finished_at_unix
            &&& next.output_delivery_ids == run.output_delivery_ids
        },
{
}

/// A run can be completed exactly while it is running, at any time from its last
/// update on. It then has finished at that time, with exactly the output that is
/// given.
pub proof fn law_completing(run: RunView, at: u64, outputs: Seq<Seq<char>>)
    ensures
        run.completed(at, outputs) is Ok <==> run.status is Running && run.updated_at_unix <= at,
        run.completed(at, outputs) matches Ok(next) ==> {
            &&& next.status is Completed
            &&& next.updated_at_unix == at
            &&& next.finished_at_unix == Some(at)
            &&& next.output_delivery_ids == outputs
            &&& next.id == run.id
            &&& next.session_id == run.session_id
            &&& next.created_at_unix == run.created_at_unix
            &&& next.started_at_unix == run.started_at_unix
        },
{
}

/// A run can fail and can be cancelled exactly until it is completed, failed or
/// cancelled, at any time from its last update on. It then has finished at that
/// time, and keeps the rest.
pub proof fn law_failing_and_cancelling(run: RunView, at: u64)
    ensures
        run.failed(at) is Ok <==> (run.status is Pending || run.status is Running || run.status
            is Interrupted) && run.updated_at_unix <= at,
        run.cancelled(at) is Ok <==> (run.status is Pending || run.status is Running || run.status
            is Interrupted) && run.updated_at_unix <= at,
        run.failed(at) matches Ok(next) ==> {
            &&& next.status is Failed
            &&& next.updated_at_unix == at
            &&& next.finished_at_unix == Some(at)
            &&& next.id == run.id
            &&& next.session_id == run.session_id
            &&& next.created_at_unix == run.created_at_unix
            &&& next.started_at_unix == run.started_at_unix
            &&& next.output_delivery_ids == run.output_delivery_ids
        },
        run.cancelled(at) matches Ok(next) ==> {
            &&& next.status is Cancelled
            &&& next.updated_at_unix == at
            &&& next.finished_at_unix == Some(at)
            &&& next.id == run.id
            &&& next.session_id == run.session_id
            &&& next.created_at_unix == run.created_at_unix
            &&& next.started_at_unix == run.started_at_unix
            &&& next.output_delivery_ids == run.output_delivery_ids
        },
{
}

/// A step is refused with a text that names the run, the step, and either the
/// status that does not allow it or the time before which it cannot be.
pub proof fn law_refused_steps_say_why(run: RunView, at: u64, outputs: Seq<Seq<char>>)
    ensures
        run.started(at) matches Err(e) ==> e == "run "@ + run.id + " cannot "@
            + "start"@ + if run.status is Pending {
            " before updated_at_unix"@
        } else {
            " from "@ + run.status.name_text()
        },
        run.interrupted(at) matches Err(e) ==> e == "run "@ + run.id + " cannot "@
            + "interrupt"@ + if run.status is Pending || run.status is Running {
            " before updated_at_unix"@
        } else {
            " from "@ + run.status.name_text()
        },
        run.completed(at, outputs) matches Err(e) ==> e == "run "@ + run.id + " cannot "@
            + "complete"@ + if run.status is Running {
            " before updated_at_unix"@
        } else {
            " from "@ + run.status.name_text()
        },
        run.failed(at) matches Err(e) ==> e == "run "@ + run.id + " cannot "@
            + "fail"@ + if run.status is Completed || run.status is Failed || run.status
            is Cancelled {
            " from "@ + run.status.name_text()
        } else {
            " before updated_at_unix"@
        },
        run.cancelled(at) matches Err(e) ==> e == "run "@ + run.id + " cannot "@
            + "cancel"@ + if run.status is Completed || run.status is Failed || run.status
            is Cancelled {
            " from "@ + run.status.name_text()
        } else {
            " before updated_at_unix"@
        },
{
}

/// A run is sound exactly where its times are in order (created, started, finished,
/// last updated), a pending one has not started while a running or completed one
/// has, exactly the completed, failed and cancelled ones have finished, and output
/// is listed of completed runs alone, and never twice.
pub proof fn law_sound_runs(run: RunView)
    ensures
        run.flaw() is None <==> {
            &&& run.created_at_unix <= run.updated_at_unix
            &&& run.started_at_unix matches Some(t) ==> run.created_at_unix <= t
                <= run.updated_at_unix
            &&& run.finished_at_unix matches Some(t) ==> run.created_at_unix <= t
                <= run.updated_at_unix && (run.started_at_unix matches Some(start) ==> start <= t)
            &&& run.status is Pending ==> run.started_at_unix is None
            &&& run.status is Running || run.status is Completed ==> run.started_at_unix is Some
            &&& run.finished_at_unix is Some <==> run.status is Completed || run.status is Failed
                || run.status is Cancelled
            &&& run.status is Completed || run.output_delivery_ids.len() == 0
            &&& forall|i: int, j: int|
                0 <= i < j < run.output_delivery_ids.len() ==> #[trigger] run.output_delivery_ids[i]
                    != #[trigger] run.output_delivery_ids[j]
        },
{
}

/// One record is a later stage of another exactly where both are of the same run,
/// with the same id, session and time of creation, the later one was not updated
/// earlier and keeps the time of the start, and its status can follow: anything
/// follows pending but pending, what is neither pending nor running follows
/// running, only failed and cancelled follow interrupted, and nothing follows what
/// has finished.
pub proof fn law_later_stages(later: RunView, earlier: RunView)
    ensures
        later.descends_from(earlier) <==> {
            &&& later.id == earlier.id
            &&& later.session_id == earlier.session_id
            &&& later.created_at_unix == earlier.created_at_unix
            &&& earlier.updated_at_unix <= later.updated_at_unix
            &&& earlier.started_at_unix is None || later.started_at_unix == earlier.started_at_unix
            &&& match later.status {
                RunStatus::Pending => false,
                RunStatus::Running => earlier.status is Pending,
                RunStatus::Interrupted => earlier.status is Pending || earlier.status is Running,
                RunStatus::Completed => earlier.status is Pending || earlier.status is Running,
                RunStatus::Failed | RunStatus::Cancelled => earlier.status is Pending
                    || earlier.status is Running || earlier.status is Interrupted,
            }
        },
{
}

/// A run still holds its session exactly until it is completed, failed or
/// cancelled.
pub proof fn law_active_runs(run: RunView)
    ensures
        run.active() <==> run.status is Pending || run.status is Running || run.status
            is Interrupted,
{
}

} // verus!
