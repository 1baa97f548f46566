//! Agent runs: their life from pending to a terminal status, and what startup
//! recovery reports of them.
use vstd::prelude::*;

use crate::keyed::{Keyed, Record};
use crate::outbox::OutboundDeliveryId;
use crate::session::SessionId;
use crate::text::{blank, join3, join5, same_text};

verus! {

/// How far a run has come.
#[derive(Debug, Clone, Copy, PartialEq, Eq, Structural)]
pub enum RunStatus {
    Pending,
    Running,
    Interrupted,
    Completed,
    Failed,
    Cancelled,
}

impl RunStatus {
    /// The status as it is written in reports.
    pub open spec fn name_text(self) -> Seq<char> {
        match self {
            RunStatus::Pending => "Pending"@,
            RunStatus::Running => "Running"@,
            RunStatus::Interrupted => "Interrupted"@,
            RunStatus::Completed => "Completed"@,
            RunStatus::Failed => "Failed"@,
            RunStatus::Cancelled => "Cancelled"@,
        }
    }

    /// A terminal status is never left again.
    pub open spec fn terminal(self) -> bool {
        self is Completed || self is Failed || self is Cancelled
    }

    /// Whether a run in this status can later be in `later`.
    pub open spec fn leads_to(self, later: RunStatus) -> bool {
        match self {
            RunStatus::Pending => later !is Pending,
            RunStatus::Running => later !is Pending && later !is Running,
            RunStatus::Interrupted => later is Failed || later is Cancelled,
            _ => false,
        }
    }

    pub fn name(self) -> (r: &'static str)
        ensures
            r@ == self.name_text(),
    {
        match self {
            RunStatus::Pending => "Pending",
            RunStatus::Running => "Running",
            RunStatus::Interrupted => "Interrupted",
            RunStatus::Completed => "Completed",
            RunStatus::Failed => "Failed",
            RunStatus::Cancelled => "Cancelled",
        }
    }

    pub fn is_terminal(self) -> (r: bool)
        ensures
            r == self.terminal(),
    {
        matches!(self, RunStatus::Completed | RunStatus::Failed | RunStatus::Cancelled)
    }

    fn can_become(self, later: RunStatus) -> (r: bool)
        ensures
            r == self.leads_to(later),
    {
        match self {
            RunStatus::Pending => later != RunStatus::Pending,
            RunStatus::Running => later != RunStatus::Pending && later != RunStatus::Running,
            RunStatus::Interrupted => later == RunStatus::Failed || later == RunStatus::Cancelled,
            _ => false,
        }
    }
}

/// The model of a [`RunRecord`].
#[verifier::ext_equal]
pub struct RunView {
    pub id: Seq<char>,
    pub session_id: Seq<char>,
    pub status: RunStatus,
    pub created_at_unix: u64,
    pub updated_at_unix: u64,
    pub started_at_unix: Option<u64>,
    pub finished_at_unix: Option<u64>,
    pub output_delivery_ids: Seq<Seq<char>>,
}

impl Keyed for RunView {
    open spec fn key(self) -> Seq<char> {
        self.id
    }
}

/// The run that is created at `created_at_unix`: pending, with nothing done.
pub open spec fn run_created(
    id: Seq<char>,
    session_id: Seq<char>,
    created_at_unix: u64,
) -> RunView {
    RunView {
        id,
        session_id,
        status: RunStatus::Pending,
        created_at_unix,
        updated_at_unix: created_at_unix,
        started_at_unix: None,
        finished_at_unix: None,
        output_delivery_ids: Seq::empty(),
    }
}

impl RunView {
    /// A run that still holds its session.
    pub open spec fn active(self) -> bool {
        !self.status.terminal()
    }

    /// The start time lies between creation and last update.
    pub open spec fn start_in_range(self) -> bool {
        match self.started_at_unix {
            Some(t) => self.created_at_unix <= t <= self.updated_at_unix,
            None => true,
        }
    }

    /// The finish time lies between creation, or start, and last update.
    pub open spec fn finish_in_range(self) -> bool {
        match self.finished_at_unix {
            Some(t) => {
                &&& self.created_at_unix <= t <= self.updated_at_unix
                &&& match self.started_at_unix {
                    Some(s) => s <= t,
                    None => true,
                }
            },
            None => true,
        }
    }

    /// A pending run has not started; a running or completed one has.
    pub open spec fn start_fits_status(self) -> bool {
        match self.status {
            RunStatus::Pending => self.started_at_unix is None,
            RunStatus::Running | RunStatus::Completed => self.started_at_unix is Some,
            _ => true,
        }
    }

    /// No output delivery is listed twice.
    pub open spec fn outputs_distinct(self) -> bool {
        forall|i: int, j: int|
            0 <= i < j < self.output_delivery_ids.len() ==> #[trigger] self.output_delivery_ids[i]
                != #[trigger] self.output_delivery_ids[j]
    }

    /// Why this run record is unsound, if it is.
    pub open spec fn flaw(self) -> Option<Seq<char>> {
        if self.updated_at_unix < self.created_at_unix {
            Some("run "@ + self.id + " has updated_at_unix before created_at_unix"@)
        } else if !self.start_in_range() {
            Some("run "@ + self.id + " has started_at_unix out of range"@)
        } else if !self.finish_in_range() {
            Some("run "@ + self.id + " has finished_at_unix out of range"@)
        } else if !self.start_fits_status() {
            Some("run "@ + self.id + " has started_at_unix that does not fit its status"@)
        } else if self.status.terminal() != (self.finished_at_unix is Some) {
            Some("run "@ + self.id + " has finished_at_unix that does not fit its status"@)
        } else if self.output_delivery_ids.len() > 0 && self.status !is Completed {
            Some("run "@ + self.id + " has output deliveries without being completed"@)
        } else if !self.outputs_distinct() {
            Some("run "@ + self.id + " has duplicate output delivery ids"@)
        } else {
            None
        }
    }

    /// A step of this run under the name `verb`: it is refused from a status that
    /// does not allow it, and at a time before the last update.
    pub open spec fn stepped(
        self,
        verb: Seq<char>,
        allowed: bool,
        at: u64,
        next: RunView,
    ) -> Result<RunView, Seq<char>> {
        if !allowed {
            Err("run "@ + self.id + " cannot "@ + verb + (" from "@ + self.status.name_text()))
        } else if at < self.updated_at_unix {
            Err("run "@ + self.id + " cannot "@ + verb + (" before updated_at_unix"@))
        } else {
            Ok(next)
        }
    }

    /// Starting the run.
    pub open spec fn started(self, at: u64) -> Result<RunView, Seq<char>> {
        self.stepped(
            "start"@,
            self.status is Pending,
            at,
            RunView {
                status: RunStatus::Running,
                updated_at_unix: at,
                started_at_unix: Some(at),
                ..self
            },
        )
    }

    /// Interrupting the run, which keeps its session.
    pub open spec fn interrupted(self, at: u64) -> Result<RunView, Seq<char>> {
        self.stepped(
            "interrupt"@,
            self.status is Pending || self.status is Running,
            at,
            RunView { status: RunStatus::Interrupted, updated_at_unix: at, ..self },
        )
    }

    /// Completing the run with the deliveries of its output.
    pub open spec fn completed(self, at: u64, outputs: Seq<Seq<char>>) -> Result<
        RunView,
        Seq<char>,
    > {
        self.stepped(
            "complete"@,
            self.status is Running,
            at,
            RunView {
                status: RunStatus::Completed,
                updated_at_unix: at,
                finished_at_unix: Some(at),
                output_delivery_ids: outputs,
                ..self
            },
        )
    }

    /// Failing the run.
    pub open spec fn failed(self, at: u64) -> Result<RunView, Seq<char>> {
        self.stepped(
            "fail"@,
            self.active(),
            at,
            RunView {
                status: RunStatus::Failed,
                updated_at_unix: at,
                finished_at_unix: Some(at),
                ..self
            },
        )
    }

    /// Cancelling the run.
    pub open spec fn cancelled(self, at: u64) -> Result<RunView, Seq<char>> {
        self.stepped(
            "cancel"@,
            self.active(),
            at,
            RunView {
                status: RunStatus::Cancelled,
                updated_at_unix: at,
                finished_at_unix: Some(at),
                ..self
            },
        )
    }

    /// This record is a later stage of the run that `earlier` records.
    pub open spec fn descends_from(self, earlier: RunView) -> bool {
        &&& self.id == earlier.id
        &&& self.session_id == earlier.session_id
        &&& self.created_at_unix == earlier.created_at_unix
        &&& earlier.updated_at_unix <= self.updated_at_unix
        &&& earlier.status.leads_to(self.status)
        &&& earlier.started_at_unix is Some ==> self.started_at_unix == earlier.started_at_unix
    }
}

/// The id of a run.
#[derive(Debug, PartialEq, Eq)]
pub struct RunId {
    pub text: String,
}

impl View for RunId {
    type V = Seq<char>;

    open spec fn view(&self) -> Seq<char> {
        self.text@
    }
}

impl Clone for RunId {
    fn clone(&self) -> (r: Self)
        ensures
            r@ == self@,
    {
        RunId { text: self.text.clone() }
    }
}

impl RunId {
    /// A run id; it may not be blank.
    pub fn new(text: &str) -> (r: Result<RunId, String>)
        ensures
            match r {
                Ok(id) => !crate::text::is_blank(text@) && id@ == text@,
                Err(e) => crate::text::is_blank(text@) && e@ == "run id is empty"@,
            },
    {
        if blank(text) {
            return Err("run id is empty".to_owned());
        }
        Ok(RunId { text: text.to_owned() })
    }

    pub fn as_str(&self) -> (r: &str)
        ensures
            r@ == self@,
    {
        self.text.as_str()
    }
}

/// A run of the agent for one session.
#[derive(Debug, PartialEq, Eq)]
pub struct RunRecord {
    pub id: RunId,
    pub session_id: SessionId,
    pub status: RunStatus,
    pub created_at_unix: u64,
    pub updated_at_unix: u64,
    pub started_at_unix: Option<u64>,
    pub finished_at_unix: Option<u64>,
    pub output_delivery_ids: Vec<OutboundDeliveryId>,
}

impl View for RunRecord {
    type V = RunView;

    open spec fn view(&self) -> RunView {
        RunView {
            id: self.id@,
            session_id: self.session_id@,
            status: self.status,
            created_at_unix: self.created_at_unix,
            updated_at_unix: self.updated_at_unix,
            started_at_unix: self.started_at_unix,
            finished_at_unix: self.finished_at_unix,
            output_delivery_ids: crate::keyed::views(self.output_delivery_ids@),
        }
    }
}

impl Clone for RunRecord {
    fn clone(&self) -> (r: Self)
        ensures
            r@ == self@,
    {
        let output_delivery_ids = self.output_delivery_ids.clone();
        assert(crate::keyed::views(output_delivery_ids@) =~= crate::keyed::views(
            self.output_delivery_ids@,
        ));
        RunRecord {
            id: self.id.clone(),
            session_id: self.session_id.clone(),
            status: self.status,
            created_at_unix: self.created_at_unix,
            updated_at_unix: self.updated_at_unix,
            started_at_unix: self.started_at_unix,
            finished_at_unix: self.finished_at_unix,
            output_delivery_ids,
        }
    }
}

impl Record for RunRecord {
    fn key_text(&self) -> (r: &String) {
        &self.id.text
    }
}

/// Whether two optional times are the same.
fn same_time(a: Option<u64>, b: Option<u64>) -> (r: bool)
    ensures
        r == (a == b),
{
    match (a, b) {
        (Some(a), Some(b)) => a == b,
        (None, None) => true,
        _ => false,
    }
}

/// Whether two lists hold the same delivery ids in the same order.
pub(crate) fn same_delivery_ids(
    a: &Vec<OutboundDeliveryId>,
    b: &Vec<OutboundDeliveryId>,
) -> (r: bool)
    ensures
        r == (crate::keyed::views(a@) == crate::keyed::views(b@)),
{
    let ghost left = crate::keyed::views(a@);
    let ghost right = crate::keyed::views(b@);
    if a.len() != b.len() {
        assert(left.len() != right.len());
        return false;
    }
    let mut i: usize = 0;
    while i < a.len()
        invariant
            i <= a@.len() == b@.len(),
            left == crate::keyed::views(a@),
            right == crate::keyed::views(b@),
            forall|j: int| 0 <= j < i ==> left[j] == right[j],
        decreases a@.len() - i,
    {
        if !a[i].same(&b[i]) {
            assert(left[i as int] != right[i as int]);
            return false;
        }
        i = i + 1;
    }
    assert(left =~= right);
    true
}

impl RunRecord {
    /// A pending run for a session.
    pub fn new(id: RunId, session_id: SessionId, created_at_unix: u64) -> (r: RunRecord)
        ensures
            r@ == run_created(id@, session_id@, created_at_unix),
    {
        let r = RunRecord {
            id,
            session_id,
            status: RunStatus::Pending,
            created_at_unix,
            updated_at_unix: created_at_unix,
            started_at_unix: None,
            finished_at_unix: None,
            output_delivery_ids: Vec::new(),
        };
        assert(r@.output_delivery_ids =~= Seq::empty());
        r
    }

    pub fn id(&self) -> (r: &RunId)
        ensures
            r@ == self@.id,
    {
        &self.id
    }

    pub fn session_id(&self) -> (r: &SessionId)
        ensures
            r@ == self@.session_id,
    {
        &self.session_id
    }

    pub fn status(&self) -> (r: RunStatus)
        ensures
            r == self@.status,
    {
        self.status
    }

    pub fn created_at_unix(&self) -> (r: u64)
        ensures
            r == self@.created_at_unix,
    {
        self.created_at_unix
    }

    pub fn updated_at_unix(&self) -> (r: u64)
        ensures
            r == self@.updated_at_unix,
    {
        self.updated_at_unix
    }

    pub fn started_at_unix(&self) -> (r: Option<u64>)
        ensures
            r == self@.started_at_unix,
    {
        self.started_at_unix
    }

    pub fn finished_at_unix(&self) -> (r: Option<u64>)
        ensures
            r == self@.finished_at_unix,
    {
        self.finished_at_unix
    }

    pub fn output_delivery_ids(&self) -> (r: &[OutboundDeliveryId])
        ensures
            crate::keyed::views(r@) == self@.output_delivery_ids,
    {
        self.output_delivery_ids.as_slice()
    }

    /// Whether the run has ended for good.
    pub fn is_terminal(&self) -> (r: bool)
        ensures
            r == !self@.active(),
    {
        self.status.is_terminal()
    }

    /// Whether two run records are the same in every field.
    pub fn same(&self, other: &RunRecord) -> (r: bool)
        ensures
            r == (self@ == other@),
    {
        same_text(&self.id.text, &other.id.text) && self.session_id.same(&other.session_id)
            && self.status == other.status && self.created_at_unix == other.created_at_unix
            && self.updated_at_unix == other.updated_at_unix && same_time(
            self.started_at_unix,
            other.started_at_unix,
        ) && same_time(self.finished_at_unix, other.finished_at_unix) && same_delivery_ids(
            &self.output_delivery_ids,
            &other.output_delivery_ids,
        )
    }

    /// Whether this record is a later stage of the run that `earlier` records.
    pub fn is_descendant_of(&self, earlier: &RunRecord) -> (r: bool)
        ensures
            r == self@.descends_from(earlier@),
    {
        same_text(&self.id.text, &earlier.id.text) && self.session_id.same(&earlier.session_id)
            && self.created_at_unix == earlier.created_at_unix && earlier.updated_at_unix
            <= self.updated_at_unix && earlier.status.can_become(self.status) && (
        earlier.started_at_unix.is_none() || same_time(
            self.started_at_unix,
            earlier.started_at_unix,
        ))
    }

    fn has_distinct_outputs(&self) -> (r: bool)
        ensures
            r == self@.outputs_distinct(),
    {
        let ghost ids = self@.output_delivery_ids;
        let mut j: usize = 0;
        while j < self.output_delivery_ids.len()
            invariant
                j <= self.output_delivery_ids@.len(),
                ids == self@.output_delivery_ids,
                forall|a: int, b: int|
                    0 <= a < b < j ==> #[trigger] ids[a] != #[trigger] ids[b],
            decreases self.output_delivery_ids@.len() - j,
        {
            let mut i: usize = 0;
            while i < j
                invariant
                    i <= j < self.output_delivery_ids@.len(),
                    ids == self@.output_delivery_ids,
                    forall|a: int| 0 <= a < i ==> #[trigger] ids[a] != ids[j as int],
                decreases j - i,
            {
                if self.output_delivery_ids[i].same(&self.output_delivery_ids[j]) {
                    assert(ids[i as int] == ids[j as int]);
                    return false;
                }
                i = i + 1;
            }
            j = j + 1;
        }
        true
    }

    /// Checks that the times are in order, that times and status fit each other,
    /// and that only a completed run owns output deliveries, each once.
    pub fn validate(&self) -> (r: Result<(), String>)
        ensures
            crate::fault::reports(r, self@.flaw()),
    {
        if self.updated_at_unix < self.created_at_unix {
            return Err(
                join3("run ", self.id.as_str(), " has updated_at_unix before created_at_unix"),
            );
        }
        let start_in_range = match self.started_at_unix {
            Some(t) => self.created_at_unix <= t && t <= self.updated_at_unix,
            None => true,
        };
        if !start_in_range {
            return Err(join3("run ", self.id.as_str(), " has started_at_unix out of range"));
        }
        let finish_in_range = match self.finished_at_unix {
            Some(t) => self.created_at_unix <= t && t <= self.updated_at_unix
                && match self.started_at_unix {
                Some(s) => s <= t,
                None => true,
            },
            None => true,
        };
        if !finish_in_range {
            return Err(join3("run ", self.id.as_str(), " has finished_at_unix out of range"));
        }
        let start_fits_status = match self.status {
            RunStatus::Pending => self.started_at_unix.is_none(),
            RunStatus::Running | RunStatus::Completed => self.started_at_unix.is_some(),
            _ => true,
        };
        if !start_fits_status {
            return Err(
                join3(
                    "run ",
                    self.id.as_str(),
                    " has started_at_unix that does not fit its status",
                ),
            );
        }
        if self.status.is_terminal() != self.finished_at_unix.is_some() {
            return Err(
                join3(
                    "run ",
                    self.id.as_str(),
                    " has finished_at_unix that does not fit its status",
                ),
            );
        }
        if self.output_delivery_ids.len() > 0 && self.status != RunStatus::Completed {
            return Err(
                join3(
                    "run ",
                    self.id.as_str(),
                    " has output deliveries without being completed",
                ),
            );
        }
        if !self.has_distinct_outputs() {
            return Err(join3("run ", self.id.as_str(), " has duplicate output delivery ids"));
        }
        Ok(())
    }

    /// Whether a step under the name `verb` may be taken at `at`.
    fn check_step(&self, verb: &str, allowed: bool, at: u64) -> (r: Result<(), String>)
        ensures
            match r {
                Ok(_) => forall|next: RunView|
                    #[trigger] self@.stepped(verb@, allowed, at, next) == Ok::<RunView, Seq<char>>(
                        next,
                    ),
                Err(e) => forall|next: RunView|
                    #[trigger] self@.stepped(verb@, allowed, at, next) == Err::<
                        RunView,
                        Seq<char>,
                    >(e@),
            },
    {
        if !allowed {
            let tail = crate::text::join2(" from ", self.status.name());
            return Err(join5("run ", self.id.as_str(), " cannot ", verb, tail.as_str()));
        }
        if at < self.updated_at_unix {
            return Err(
                join5("run ", self.id.as_str(), " cannot ", verb, " before updated_at_unix"),
            );
        }
        Ok(())
    }

    /// Starts a pending run.
    pub fn start(&mut self, at: u64) -> (r: Result<(), String>)
        ensures
            crate::fault::applies(r, old(self)@, final(self)@, old(self)@.started(at)),
    {
        let allowed = self.status == RunStatus::Pending;
        match self.check_step("start", allowed, at) {
            Ok(()) => {},
            Err(e) => return Err(e),
        }
        self.status = RunStatus::Running;
        self.updated_at_unix = at;
        self.started_at_unix = Some(at);
        Ok(())
    }

    /// Interrupts a pending or running run.
    pub fn interrupt(&mut self, at: u64) -> (r: Result<(), String>)
        ensures
            crate::fault::applies(r, old(self)@, final(self)@, old(self)@.interrupted(at)),
    {
        let allowed = self.status == RunStatus::Pending || self.status == RunStatus::Running;
        match self.check_step("interrupt", allowed, at) {
            Ok(()) => {},
            Err(e) => return Err(e),
        }
        self.status = RunStatus::Interrupted;
        self.updated_at_unix = at;
        Ok(())
    }

    /// Completes a running run without output.
    pub fn complete(&mut self, at: u64) -> (r: Result<(), String>)
        ensures
            crate::fault::applies(
                r,
                old(self)@,
                final(self)@,
                old(self)@.completed(at, Seq::empty()),
            ),
    {
        let outputs: Vec<OutboundDeliveryId> = Vec::new();
        assert(crate::keyed::views(outputs@) =~= Seq::empty());
        self.complete_with_output_deliveries(at, outputs)
    }

    /// Completes a running run with the deliveries of its output.
    pub fn complete_with_output_deliveries(
        &mut self,
        at: u64,
        outputs: Vec<OutboundDeliveryId>,
    ) -> (r: Result<(), String>)
        ensures
            crate::fault::applies(
                r,
                old(self)@,
                final(self)@,
                old(self)@.completed(at, crate::keyed::views(outputs@)),
            ),
    {
        let allowed = self.status == RunStatus::Running;
        match self.check_step("complete", allowed, at) {
            Ok(()) => {},
            Err(e) => return Err(e),
        }
        self.status = RunStatus::Completed;
        self.updated_at_unix = at;
        self.finished_at_unix = Some(at);
        self.output_delivery_ids = outputs;
        Ok(())
    }

    /// Fails a run that has not ended.
    pub fn fail(&mut self, at: u64) -> (r: Result<(), String>)
        ensures
            crate::fault::applies(r, old(self)@, final(self)@, old(self)@.failed(at)),
    {
        let allowed = !self.status.is_terminal();
        match self.check_step("fail", allowed, at) {
            Ok(()) => {},
            Err(e) => return Err(e),
        }
        self.status = RunStatus::Failed;
        self.updated_at_unix = at;
        self.finished_at_unix = Some(at);
        Ok(())
    }

    /// Cancels a run that has not ended.
    pub fn cancel(&mut self, at: u64) -> (r: Result<(), String>)
        ensures
            crate::fault::applies(r, old(self)@, final(self)@, old(self)@.cancelled(at)),
    {
        let allowed = !self.status.is_terminal();
        match self.check_step("cancel", allowed, at) {
            Ok(()) => {},
            Err(e) => return Err(e),
        }
        self.status = RunStatus::Cancelled;
        self.updated_at_unix = at;
        self.finished_at_unix = Some(at);
        Ok(())
    }
}

/// The model of a [`RunStartupRecoveryReport`].
#[verifier::ext_equal]
pub struct RunRecoveryView {
    pub resumable_pending: Seq<Seq<char>>,
    pub interrupted: Seq<Seq<char>>,
    pub failed: Seq<Seq<char>>,
}

/// The runs that startup recovery found: pending ones that can resume, ones that
/// are interrupted, and ones that failed.
#[derive(Debug, PartialEq, Eq)]
pub struct RunStartupRecoveryReport {
    pub resumable_pending_run_ids: Vec<RunId>,
    pub interrupted_run_ids: Vec<RunId>,
    pub failed_run_ids: Vec<RunId>,
}

impl View for RunStartupRecoveryReport {
    type V = RunRecoveryView;

    open spec fn view(&self) -> RunRecoveryView {
        RunRecoveryView {
            resumable_pending: crate::keyed::views(self.resumable_pending_run_ids@),
            interrupted: crate::keyed::views(self.interrupted_run_ids@),
            failed: crate::keyed::views(self.failed_run_ids@),
        }
    }
}

impl RunStartupRecoveryReport {
    pub fn new(
        resumable_pending_run_ids: Vec<RunId>,
        interrupted_run_ids: Vec<RunId>,
        failed_run_ids: Vec<RunId>,
    ) -> (r: RunStartupRecoveryReport)
        ensures
            r@ == (RunRecoveryView {
                resumable_pending: crate::keyed::views(resumable_pending_run_ids@),
                interrupted: crate::keyed::views(interrupted_run_ids@),
                failed: crate::keyed::views(failed_run_ids@),
            }),
    {
        RunStartupRecoveryReport { resumable_pending_run_ids, interrupted_run_ids, failed_run_ids }
    }

    pub fn resumable_pending_run_ids(&self) -> (r: &[RunId])
        ensures
            crate::keyed::views(r@) == self@.resumable_pending,
    {
        self.resumable_pending_run_ids.as_slice()
    }

    pub fn interrupted_run_ids(&self) -> (r: &[RunId])
        ensures
            crate::keyed::views(r@) == self@.interrupted,
    {
        self.interrupted_run_ids.as_slice()
    }

    pub fn failed_run_ids(&self) -> (r: &[RunId])
        ensures
            crate::keyed::views(r@) == self@.failed,
    {
        self.failed_run_ids.as_slice()
    }

    /// Whether there is nothing to report.
    pub fn is_empty(&self) -> (r: bool)
        ensures
            r == (self@.resumable_pending.len() == 0 && self@.interrupted.len() == 0
                && self@.failed.len() == 0),
    {
        self.resumable_pending_run_ids.len() == 0 && self.interrupted_run_ids.len() == 0
            && self.failed_run_ids.len() == 0
    }
}

/// A later stage of a later stage is a later stage.
pub proof fn law_descent_is_transitive(a: RunView, b: RunView, c: RunView)
    requires
        c.descends_from(b),
        b.descends_from(a),
    ensures
        c.descends_from(a),
{
}

/// No record is a later stage of itself, nor are two records of each other.
pub proof fn law_descent_is_strict(a: RunView, b: RunView)
    ensures
        !a.descends_from(a),
        !(a.descends_from(b) && b.descends_from(a)),
{
}

/// Every step that a sound run takes leads to a sound record that is a later stage
/// of it, so the run was not at an end.
pub proof fn law_steps_descend(run: RunView, at: u64, outputs: Seq<Seq<char>>)
    requires
        run.flaw() is None,
        forall|i: int, j: int|
            0 <= i < j < outputs.len() ==> #[trigger] outputs[i] != #[trigger] outputs[j],
    ensures
        run.started(at) matches Ok(next) ==> next.flaw() is None && next.descends_from(run),
        run.interrupted(at) matches Ok(next) ==> next.flaw() is None && next.descends_from(run),
        run.completed(at, outputs) matches Ok(next) ==> next.flaw() is None
            && next.descends_from(run),
        run.failed(at) matches Ok(next) ==> next.flaw() is None && next.descends_from(run),
        run.cancelled(at) matches Ok(next) ==> next.flaw() is None && next.descends_from(run),
{
}

} // verus!
