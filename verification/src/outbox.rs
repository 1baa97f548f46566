//! Outbound deliveries: messages on their way to a platform.
use vstd::prelude::*;

use crate::keyed::{Keyed, Record};
use crate::message::{Message, MessageView};
use crate::session::SessionId;
use crate::text::{blank, join3, join5, same_text};

verus! {

/// What startup recovery notes on a delivery whose outcome nobody saw.
pub const STARTUP_RECOVERY_DIAGNOSTIC: &'static str =
    "runtime stopped before the delivery outcome was recorded";

/// The id of an outbound delivery.
#[derive(Debug, PartialEq, Eq)]
pub struct OutboundDeliveryId {
    pub text: String,
}

impl View for OutboundDeliveryId {
    type V = Seq<char>;

    open spec fn view(&self) -> Seq<char> {
        self.text@
    }
}

impl Clone for OutboundDeliveryId {
    fn clone(&self) -> (r: Self)
        ensures
            r@ == self@,
    {
        OutboundDeliveryId { text: self.text.clone() }
    }
}

impl OutboundDeliveryId {
    /// A delivery id; it may not be blank.
    pub fn new(text: &str) -> (r: Result<OutboundDeliveryId, String>)
        ensures
            match r {
                Ok(id) => !crate::text::is_blank(text@) && id@ == text@,
                Err(e) => crate::text::is_blank(text@) && e@ == "outbound delivery id is empty"@,
            },
    {
        if blank(text) {
            return Err("outbound delivery id is empty".to_owned());
        }
        Ok(OutboundDeliveryId { text: text.to_owned() })
    }

    pub fn as_str(&self) -> (r: &str)
        ensures
            r@ == self@,
    {
        self.text.as_str()
    }

    /// Whether two ids are the same.
    pub fn same(&self, other: &OutboundDeliveryId) -> (r: bool)
        ensures
            r == (self@ == other@),
    {
        same_text(&self.text, &other.text)
    }
}

/// How far a delivery has come.
#[derive(Debug, Clone, Copy, PartialEq, Eq, Structural)]
pub enum OutboundDeliveryStatus {
    Pending,
    Delivering,
    Delivered,
    Failed,
    Uncertain,
}

impl OutboundDeliveryStatus {
    /// The status as it is written in reports.
    pub open spec fn name_text(self) -> Seq<char> {
        match self {
            OutboundDeliveryStatus::Pending => "Pending"@,
            OutboundDeliveryStatus::Delivering => "Delivering"@,
            OutboundDeliveryStatus::Delivered => "Delivered"@,
            OutboundDeliveryStatus::Failed => "Failed"@,
            OutboundDeliveryStatus::Uncertain => "Uncertain"@,
        }
    }

    pub fn name(self) -> (r: &'static str)
        ensures
            r@ == self.name_text(),
    {
        match self {
            OutboundDeliveryStatus::Pending => "Pending",
            OutboundDeliveryStatus::Delivering => "Delivering",
            OutboundDeliveryStatus::Delivered => "Delivered",
            OutboundDeliveryStatus::Failed => "Failed",
            OutboundDeliveryStatus::Uncertain => "Uncertain",
        }
    }
}

/// Whether a delivery was new to the outbox.
#[derive(Debug, Clone, Copy, PartialEq, Eq, Structural)]
pub enum OutboundDeliveryEnqueueStatus {
    Queued,
    Duplicate,
}

impl View for OutboundDeliveryEnqueueStatus {
    type V = OutboundDeliveryEnqueueStatus;

    open spec fn view(&self) -> OutboundDeliveryEnqueueStatus {
        *self
    }
}

/// The model of an [`OutboundDeliveryRecord`].
#[verifier::ext_equal]
pub struct DeliveryView {
    pub id: Seq<char>,
    pub session_id: Seq<char>,
    pub message: MessageView,
    pub status: OutboundDeliveryStatus,
    pub delivery_attempts: u32,
    pub created_at_unix: u64,
    pub updated_at_unix: u64,
    pub delivered_at_unix: Option<u64>,
    pub last_error: Option<Seq<char>>,
}

impl Keyed for DeliveryView {
    open spec fn key(self) -> Seq<char> {
        self.id
    }
}

/// The delivery of `message` that is created at `created_at_unix`.
pub open spec fn delivery_created(
    id: Seq<char>,
    session_id: Seq<char>,
    message: MessageView,
    created_at_unix: u64,
) -> DeliveryView {
    DeliveryView {
        id,
        session_id,
        message,
        status: OutboundDeliveryStatus::Pending,
        delivery_attempts: 0,
        created_at_unix,
        updated_at_unix: created_at_unix,
        delivered_at_unix: None,
        last_error: None,
    }
}

impl DeliveryView {
    /// The attempts, the delivery time and the error are those of the status.
    pub open spec fn fits_status(self) -> bool {
        match self.status {
            OutboundDeliveryStatus::Pending => self.delivery_attempts == 0
                && self.delivered_at_unix is None && self.last_error is None,
            OutboundDeliveryStatus::Delivering => self.delivery_attempts > 0
                && self.delivered_at_unix is None && self.last_error is None,
            OutboundDeliveryStatus::Delivered => self.delivery_attempts > 0
                && self.last_error is None && match self.delivered_at_unix {
                Some(t) => self.created_at_unix <= t <= self.updated_at_unix,
                None => false,
            },
            OutboundDeliveryStatus::Failed
            | OutboundDeliveryStatus::Uncertain => self.delivery_attempts > 0
                && self.delivered_at_unix is None && match self.last_error {
                Some(error) => !crate::text::is_blank(error),
                None => false,
            },
        }
    }

    /// Why this delivery record is unsound, if it is.
    pub open spec fn flaw(self) -> Option<Seq<char>> {
        if self.message.session_id != Some(self.session_id) {
            Some("outbound delivery "@ + self.id + " message does not match its session"@)
        } else if self.created_at_unix < self.message.created_at_unix {
            Some(
                "outbound delivery "@ + self.id
                    + " has created_at_unix before message created_at_unix"@,
            )
        } else if self.updated_at_unix < self.created_at_unix {
            Some("outbound delivery "@ + self.id + " has updated_at_unix before created_at_unix"@)
        } else if !self.fits_status() {
            Some("outbound delivery "@ + self.id + " has fields that do not fit its status"@)
        } else {
            None
        }
    }

    /// Both records stand for the same enqueued delivery, however far each came.
    pub open spec fn same_enqueue(self, other: DeliveryView) -> bool {
        &&& self.id == other.id
        &&& self.session_id == other.session_id
        &&& self.message == other.message
        &&& self.created_at_unix == other.created_at_unix
    }

    /// A step of this delivery under the name `verb`: it is refused from a status
    /// that does not allow it, and at a time before the last update.
    pub open spec fn stepped(
        self,
        verb: Seq<char>,
        allowed: bool,
        at: u64,
        next: DeliveryView,
    ) -> Result<DeliveryView, Seq<char>> {
        if !allowed {
            Err(
                "outbound delivery "@ + self.id + " cannot "@ + verb + (" from "@
                    + self.status.name_text()),
            )
        } else if at < self.updated_at_unix {
            Err("outbound delivery "@ + self.id + " cannot "@ + verb + " before updated_at_unix"@)
        } else {
            Ok(next)
        }
    }

    /// A pending or failed delivery can be tried.
    pub open spec fn claimable(self) -> bool {
        self.status is Pending || self.status is Failed
    }

    /// Trying the delivery once more.
    pub open spec fn begun(self, at: u64) -> Result<DeliveryView, Seq<char>> {
        if self.claimable() && self.delivery_attempts == u32::MAX {
            Err("outbound delivery "@ + self.id + " has no delivery attempts left"@)
        } else {
            self.stepped(
                "begin delivery"@,
                self.claimable(),
                at,
                DeliveryView {
                    status: OutboundDeliveryStatus::Delivering,
                    delivery_attempts: (self.delivery_attempts + 1) as u32,
                    updated_at_unix: at,
                    last_error: None,
                    ..self
                },
            )
        }
    }

    /// The delivery was accepted.
    pub open spec fn delivered(self, at: u64) -> Result<DeliveryView, Seq<char>> {
        self.stepped(
            "complete"@,
            self.status is Delivering,
            at,
            DeliveryView {
                status: OutboundDeliveryStatus::Delivered,
                updated_at_unix: at,
                delivered_at_unix: Some(at),
                ..self
            },
        )
    }

    /// The delivery ended in an error, which leaves it in `status`.
    pub open spec fn ended(
        self,
        verb: Seq<char>,
        status: OutboundDeliveryStatus,
        at: u64,
        error: Seq<char>,
    ) -> Result<DeliveryView, Seq<char>> {
        if self.status is Delivering && crate::text::is_blank(error) {
            Err("outbound delivery "@ + self.id + " delivery error is empty"@)
        } else {
            self.stepped(
                verb,
                self.status is Delivering,
                at,
                DeliveryView { status, updated_at_unix: at, last_error: Some(error), ..self },
            )
        }
    }

    /// The delivery is known to have failed.
    pub open spec fn failed(self, at: u64, error: Seq<char>) -> Result<DeliveryView, Seq<char>> {
        self.ended("fail"@, OutboundDeliveryStatus::Failed, at, error)
    }

    /// Nobody knows whether the delivery was accepted.
    pub open spec fn uncertain(self, at: u64, error: Seq<char>) -> Result<
        DeliveryView,
        Seq<char>,
    > {
        self.ended("become uncertain"@, OutboundDeliveryStatus::Uncertain, at, error)
    }

    /// An uncertain delivery turns out to have been accepted.
    pub open spec fn resolved_delivered(self, at: u64) -> Result<DeliveryView, Seq<char>> {
        self.stepped(
            "resolve as delivered"@,
            self.status is Uncertain,
            at,
            DeliveryView {
                status: OutboundDeliveryStatus::Delivered,
                updated_at_unix: at,
                delivered_at_unix: Some(at),
                last_error: None,
                ..self
            },
        )
    }

    /// An uncertain delivery turns out to have failed.
    pub open spec fn resolved_failed(self, at: u64, reason: Seq<char>) -> Result<
        DeliveryView,
        Seq<char>,
    > {
        if self.status is Uncertain && crate::text::is_blank(reason) {
            Err("outbound delivery "@ + self.id + " resolution failure is empty"@)
        } else {
            self.stepped(
                "resolve as failed"@,
                self.status is Uncertain,
                at,
                DeliveryView {
                    status: OutboundDeliveryStatus::Failed,
                    updated_at_unix: at,
                    last_error: Some(reason),
                    ..self
                },
            )
        }
    }
}

/// The model of an optional text.
pub open spec fn text_ref(text: Option<String>) -> Option<Seq<char>> {
    match text {
        Some(text) => Some(text@),
        None => None,
    }
}

/// A message to a session's platform, and how far its delivery has come.
#[derive(Debug, PartialEq, Eq)]
pub struct OutboundDeliveryRecord {
    pub id: OutboundDeliveryId,
    pub session_id: SessionId,
    pub message: Message,
    pub status: OutboundDeliveryStatus,
    pub delivery_attempts: u32,
    pub created_at_unix: u64,
    pub updated_at_unix: u64,
    pub delivered_at_unix: Option<u64>,
    pub last_error: Option<String>,
}

impl View for OutboundDeliveryRecord {
    type V = DeliveryView;

    open spec fn view(&self) -> DeliveryView {
        DeliveryView {
            id: self.id@,
            session_id: self.session_id@,
            message: self.message@,
            status: self.status,
            delivery_attempts: self.delivery_attempts,
            created_at_unix: self.created_at_unix,
            updated_at_unix: self.updated_at_unix,
            delivered_at_unix: self.delivered_at_unix,
            last_error: text_ref(self.last_error),
        }
    }
}

impl Clone for OutboundDeliveryRecord {
    fn clone(&self) -> (r: Self)
        ensures
            r@ == self@,
    {
        OutboundDeliveryRecord {
            id: self.id.clone(),
            session_id: self.session_id.clone(),
            message: self.message.clone(),
            status: self.status,
            delivery_attempts: self.delivery_attempts,
            created_at_unix: self.created_at_unix,
            updated_at_unix: self.updated_at_unix,
            delivered_at_unix: self.delivered_at_unix,
            last_error: match &self.last_error {
                Some(error) => Some(error.clone()),
                None => None,
            },
        }
    }
}

impl Record for OutboundDeliveryRecord {
    fn key_text(&self) -> (r: &String) {
        &self.id.text
    }
}

impl OutboundDeliveryRecord {
    /// A pending delivery of a message that belongs to the session and is not
    /// newer than the delivery.
    pub fn new(
        id: OutboundDeliveryId,
        session_id: SessionId,
        message: Message,
        created_at_unix: u64,
    ) -> (r: Result<OutboundDeliveryRecord, String>)
        ensures
            ({
                let made = delivery_created(id@, session_id@, message@, created_at_unix);
                match r {
                    Ok(delivery) => made.flaw() is None && delivery@ == made,
                    Err(e) => made.flaw() == Some(e@),
                }
            }),
    {
        let delivery = OutboundDeliveryRecord {
            id,
            session_id,
            message,
            status: OutboundDeliveryStatus::Pending,
            delivery_attempts: 0,
            created_at_unix,
            updated_at_unix: created_at_unix,
            delivered_at_unix: None,
            last_error: None,
        };
        match delivery.validate() {
            Ok(()) => Ok(delivery),
            Err(e) => Err(e),
        }
    }

    pub fn id(&self) -> (r: &OutboundDeliveryId)
        ensures
            r@ == self@.id,
    {
        &self.id
    }

    pub fn session_id(&self) -> (r: &SessionId)
        ensures
            r@ == self@.session_id,
    {
        &self.session_id
    }

    pub fn message(&self) -> (r: &Message)
        ensures
            r@ == self@.message,
    {
        &self.message
    }

    pub fn status(&self) -> (r: OutboundDeliveryStatus)
        ensures
            r == self@.status,
    {
        self.status
    }

    pub fn delivery_attempts(&self) -> (r: u32)
        ensures
            r == self@.delivery_attempts,
    {
        self.delivery_attempts
    }

    pub fn created_at_unix(&self) -> (r: u64)
        ensures
            r == self@.created_at_unix,
    {
        self.created_at_unix
    }

    pub fn updated_at_unix(&self) -> (r: u64)
        ensures
            r == self@.updated_at_unix,
    {
        self.updated_at_unix
    }

    pub fn delivered_at_unix(&self) -> (r: Option<u64>)
        ensures
            r == self@.delivered_at_unix,
    {
        self.delivered_at_unix
    }

    pub fn last_error(&self) -> (r: Option<&str>)
        ensures
            match r {
                Some(error) => self@.last_error == Some(error@),
                None => self@.last_error is None,
            },
    {
        match &self.last_error {
            Some(error) => Some(error.as_str()),
            None => None,
        }
    }

    /// Checks that the message belongs to the session, that the times are in
    /// order, and that the other fields fit the status.
    pub fn validate(&self) -> (r: Result<(), String>)
        ensures
            crate::fault::reports(r, self@.flaw()),
    {
        let message_in_session = match &self.message.session_id {
            Some(id) => id.same(&self.session_id),
            None => false,
        };
        if !message_in_session {
            return Err(
                join3(
                    "outbound delivery ",
                    self.id.as_str(),
                    " message does not match its session",
                ),
            );
        }
        if self.created_at_unix < self.message.created_at_unix {
            return Err(
                join3(
                    "outbound delivery ",
                    self.id.as_str(),
                    " has created_at_unix before message created_at_unix",
                ),
            );
        }
        if self.updated_at_unix < self.created_at_unix {
            return Err(
                join3(
                    "outbound delivery ",
                    self.id.as_str(),
                    " has updated_at_unix before created_at_unix",
                ),
            );
        }
        if !self.check_status_fields() {
            return Err(
                join3(
                    "outbound delivery ",
                    self.id.as_str(),
                    " has fields that do not fit its status",
                ),
            );
        }
        Ok(())
    }

    fn check_status_fields(&self) -> (r: bool)
        ensures
            r == self@.fits_status(),
    {
        let tried = self.delivery_attempts > 0;
        let settled_error = match &self.last_error {
            Some(error) => !blank(error.as_str()),
            None => false,
        };
        match self.status {
            OutboundDeliveryStatus::Pending => !tried && self.delivered_at_unix.is_none()
                && self.last_error.is_none(),
            OutboundDeliveryStatus::Delivering => tried && self.delivered_at_unix.is_none()
                && self.last_error.is_none(),
            OutboundDeliveryStatus::Delivered => tried && self.last_error.is_none()
                && match self.delivered_at_unix {
                Some(t) => self.created_at_unix <= t && t <= self.updated_at_unix,
                None => false,
            },
            OutboundDeliveryStatus::Failed | OutboundDeliveryStatus::Uncertain => tried
                && self.delivered_at_unix.is_none() && settled_error,
        }
    }

    /// Whether two delivery records are the same in every field.
    pub fn same(&self, other: &OutboundDeliveryRecord) -> (r: bool)
        ensures
            r == (self@ == other@),
    {
        let same_error = match (&self.last_error, &other.last_error) {
            (Some(a), Some(b)) => same_text(a, b),
            (None, None) => true,
            _ => false,
        };
        let same_delivery_time = match (self.delivered_at_unix, other.delivered_at_unix) {
            (Some(a), Some(b)) => a == b,
            (None, None) => true,
            _ => false,
        };
        self.has_same_enqueue_identity(other) && self.status == other.status
            && self.delivery_attempts == other.delivery_attempts && self.updated_at_unix
            == other.updated_at_unix && same_delivery_time && same_error
    }

    /// Whether both records stand for the same enqueued delivery, however far
    /// each of them came.
    pub fn has_same_enqueue_identity(&self, other: &OutboundDeliveryRecord) -> (r: bool)
        ensures
            r == self@.same_enqueue(other@),
    {
        self.id.same(&other.id) && self.session_id.same(&other.session_id) && self.message.same(
            &other.message,
        ) && self.created_at_unix == other.created_at_unix
    }

    /// Whether a step under the name `verb` may be taken at `at`.
    fn check_step(&self, verb: &str, allowed: bool, at: u64) -> (r: Result<(), String>)
        ensures
            match r {
                Ok(_) => forall|next: DeliveryView|
                    #[trigger] self@.stepped(verb@, allowed, at, next) == Ok::<
                        DeliveryView,
                        Seq<char>,
                    >(next),
                Err(e) => forall|next: DeliveryView|
                    #[trigger] self@.stepped(verb@, allowed, at, next) == Err::<
                        DeliveryView,
                        Seq<char>,
                    >(e@),
            },
    {
        if !allowed {
            let tail = crate::text::join2(" from ", self.status.name());
            return Err(
                join5("outbound delivery ", self.id.as_str(), " cannot ", verb, tail.as_str()),
            );
        }
        if at < self.updated_at_unix {
            return Err(
                join5(
                    "outbound delivery ",
                    self.id.as_str(),
                    " cannot ",
                    verb,
                    " before updated_at_unix",
                ),
            );
        }
        Ok(())
    }

    /// Begins a further attempt at a pending or failed delivery.
    pub fn begin_delivery(&mut self, at: u64) -> (r: Result<(), String>)
        ensures
            crate::fault::applies(r, old(self)@, final(self)@, old(self)@.begun(at)),
    {
        let allowed = self.status == OutboundDeliveryStatus::Pending || self.status
            == OutboundDeliveryStatus::Failed;
        if allowed && self.delivery_attempts == u32::MAX {
            return Err(
                join3("outbound delivery ", self.id.as_str(), " has no delivery attempts left"),
            );
        }
        match self.check_step("begin delivery", allowed, at) {
            Ok(()) => {},
            Err(e) => return Err(e),
        }
        self.status = OutboundDeliveryStatus::Delivering;
        self.delivery_attempts = self.delivery_attempts + 1;
        self.updated_at_unix = at;
        self.last_error = None;
        Ok(())
    }

    /// Notes that the platform accepted the delivery.
    pub fn mark_delivered(&mut self, at: u64) -> (r: Result<(), String>)
        ensures
            crate::fault::applies(r, old(self)@, final(self)@, old(self)@.delivered(at)),
    {
        let allowed = self.status == OutboundDeliveryStatus::Delivering;
        match self.check_step("complete", allowed, at) {
            Ok(()) => {},
            Err(e) => return Err(e),
        }
        self.status = OutboundDeliveryStatus::Delivered;
        self.updated_at_unix = at;
        self.delivered_at_unix = Some(at);
        Ok(())
    }

    fn mark_ended(
        &mut self,
        verb: &str,
        status: OutboundDeliveryStatus,
        at: u64,
        error: &str,
    ) -> (r: Result<(), String>)
        ensures
            crate::fault::applies(
                r,
                old(self)@,
                final(self)@,
                old(self)@.ended(verb@, status, at, error@),
            ),
    {
        let allowed = self.status == OutboundDeliveryStatus::Delivering;
        if allowed && blank(error) {
            return Err(join3("outbound delivery ", self.id.as_str(), " delivery error is empty"));
        }
        match self.check_step(verb, allowed, at) {
            Ok(()) => {},
            Err(e) => return Err(e),
        }
        self.status = status;
        self.updated_at_unix = at;
        self.last_error = Some(error.to_owned());
        Ok(())
    }

    /// Notes that the delivery failed.
    pub fn mark_failed(&mut self, at: u64, error: &str) -> (r: Result<(), String>)
        ensures
            crate::fault::applies(r, old(self)@, final(self)@, old(self)@.failed(at, error@)),
    {
        self.mark_ended("fail", OutboundDeliveryStatus::Failed, at, error)
    }

    /// Notes that nobody knows whether the delivery was accepted.
    pub fn mark_uncertain(&mut self, at: u64, error: &str) -> (r: Result<(), String>)
        ensures
            crate::fault::applies(r, old(self)@, final(self)@, old(self)@.uncertain(at, error@)),
    {
        self.mark_ended("become uncertain", OutboundDeliveryStatus::Uncertain, at, error)
    }

    /// Settles an uncertain delivery as accepted.
    pub fn resolve_as_delivered(&mut self, at: u64) -> (r: Result<(), String>)
        ensures
            crate::fault::applies(r, old(self)@, final(self)@, old(self)@.resolved_delivered(at)),
    {
        let allowed = self.status == OutboundDeliveryStatus::Uncertain;
        match self.check_step("resolve as delivered", allowed, at) {
            Ok(()) => {},
            Err(e) => return Err(e),
        }
        self.status = OutboundDeliveryStatus::Delivered;
        self.updated_at_unix = at;
        self.delivered_at_unix = Some(at);
        self.last_error = None;
        Ok(())
    }

    /// Settles an uncertain delivery as failed.
    pub fn resolve_as_failed(&mut self, at: u64, reason: &str) -> (r: Result<(), String>)
        ensures
            crate::fault::applies(
                r,
                old(self)@,
                final(self)@,
                old(self)@.resolved_failed(at, reason@),
            ),
    {
        let allowed = self.status == OutboundDeliveryStatus::Uncertain;
        if allowed && blank(reason) {
            return Err(
                join3("outbound delivery ", self.id.as_str(), " resolution failure is empty"),
            );
        }
        match self.check_step("resolve as failed", allowed, at) {
            Ok(()) => {},
            Err(e) => return Err(e),
        }
        self.status = OutboundDeliveryStatus::Failed;
        self.updated_at_unix = at;
        self.last_error = Some(reason.to_owned());
        Ok(())
    }
}

/// The pause before the next attempt once `attempts` were made: `base` after the
/// first, twice as long after each further one, and never longer than `longest`.
pub open spec fn backoff(base: nat, longest: nat, attempts: nat) -> nat
    decreases attempts,
{
    let pause = if attempts <= 1 {
        base
    } else {
        2 * backoff(base, longest, (attempts - 1) as nat)
    };
    if pause < longest {
        pause
    } else {
        longest
    }
}

/// How often a failed delivery is tried, and how long to pause in between.
#[derive(Debug, Clone, Copy, PartialEq, Eq, Structural)]
pub struct OutboundRetryPolicy {
    pub max_attempts: u32,
    pub base_delay_seconds: u64,
    pub max_delay_seconds: u64,
}

impl OutboundRetryPolicy {
    /// When a delivery is tried next, if it is.
    pub open spec fn next_attempt(self, delivery: DeliveryView) -> Option<u64> {
        if delivery.status is Failed && delivery.delivery_attempts < self.max_attempts {
            let at = delivery.updated_at_unix + backoff(
                self.base_delay_seconds as nat,
                self.max_delay_seconds as nat,
                delivery.delivery_attempts as nat,
            );
            Some(
                if at > u64::MAX {
                    u64::MAX
                } else {
                    at as u64
                },
            )
        } else {
            None
        }
    }

    /// A policy with at least one attempt, and a longest pause not below the
    /// first.
    pub fn new(max_attempts: u32, base_delay_seconds: u64, max_delay_seconds: u64) -> (r: Result<
        OutboundRetryPolicy,
        String,
    >)
        ensures
            match r {
                Ok(policy) => max_attempts > 0 && base_delay_seconds <= max_delay_seconds && policy
                    == (OutboundRetryPolicy {
                    max_attempts,
                    base_delay_seconds,
                    max_delay_seconds,
                }),
                Err(e) => if max_attempts == 0 {
                    e@ == "outbound retry policy must allow at least one attempt"@
                } else {
                    max_delay_seconds < base_delay_seconds && e@
                        == "outbound retry policy has a longest delay below its first"@
                },
            },
    {
        if max_attempts == 0 {
            return Err("outbound retry policy must allow at least one attempt".to_owned());
        }
        if max_delay_seconds < base_delay_seconds {
            return Err("outbound retry policy has a longest delay below its first".to_owned());
        }
        Ok(OutboundRetryPolicy { max_attempts, base_delay_seconds, max_delay_seconds })
    }

    fn pause_after(&self, attempts: u32) -> (r: u64)
        ensures
            r == backoff(
                self.base_delay_seconds as nat,
                self.max_delay_seconds as nat,
                attempts as nat,
            ),
        decreases attempts,
    {
        if attempts <= 1 {
            return if self.base_delay_seconds < self.max_delay_seconds {
                self.base_delay_seconds
            } else {
                self.max_delay_seconds
            };
        }
        let before: u64 = self.pause_after(attempts - 1);
        proof {
            lemma_backoff_bounded(
                self.base_delay_seconds as nat,
                self.max_delay_seconds as nat,
                (attempts - 1) as nat,
            );
        }
        if before < self.max_delay_seconds - before {
            before + before
        } else {
            self.max_delay_seconds
        }
    }

    /// When a delivery is tried next, if it is.
    pub fn next_attempt_at_unix(&self, delivery: &OutboundDeliveryRecord) -> (r: Option<u64>)
        ensures
            r == self.next_attempt(delivery@),
    {
        if delivery.status != OutboundDeliveryStatus::Failed || delivery.delivery_attempts
            >= self.max_attempts {
            return None;
        }
        let pause: u64 = self.pause_after(delivery.delivery_attempts);
        if delivery.updated_at_unix > u64::MAX - pause {
            Some(u64::MAX)
        } else {
            Some(delivery.updated_at_unix + pause)
        }
    }
}

/// A pause never outgrows the longest one.
proof fn lemma_backoff_bounded(base: nat, longest: nat, attempts: nat)
    ensures
        backoff(base, longest, attempts) <= longest,
{
}

/// The deliveries whose outcome somebody has to look into after startup.
#[derive(Debug, PartialEq, Eq)]
pub struct OutboundDeliveryStartupRecoveryReport {
    pub reconciliation_required_delivery_ids: Vec<OutboundDeliveryId>,
}

impl View for OutboundDeliveryStartupRecoveryReport {
    type V = Seq<Seq<char>>;

    open spec fn view(&self) -> Seq<Seq<char>> {
        crate::keyed::views(self.reconciliation_required_delivery_ids@)
    }
}

impl OutboundDeliveryStartupRecoveryReport {
    pub fn new(
        reconciliation_required_delivery_ids: Vec<OutboundDeliveryId>,
    ) -> (r: OutboundDeliveryStartupRecoveryReport)
        ensures
            r@ == crate::keyed::views(reconciliation_required_delivery_ids@),
    {
        OutboundDeliveryStartupRecoveryReport { reconciliation_required_delivery_ids }
    }

    pub fn reconciliation_required_delivery_ids(&self) -> (r: &[OutboundDeliveryId])
        ensures
            crate::keyed::views(r@) == self@,
    {
        self.reconciliation_required_delivery_ids.as_slice()
    }

    /// Whether there is nothing to look into.
    pub fn is_empty(&self) -> (r: bool)
        ensures
            r == (self@.len() == 0),
    {
        self.reconciliation_required_delivery_ids.len() == 0
    }
}

/// Startup recovery notes something on the deliveries that it touches.
pub proof fn lemma_diagnostic_is_not_blank()
    ensures
        !crate::text::is_blank(STARTUP_RECOVERY_DIAGNOSTIC@),
{
    reveal_strlit("runtime stopped before the delivery outcome was recorded");
    assert(!crate::text::is_white_space(STARTUP_RECOVERY_DIAGNOSTIC@[0]));
}

/// Every step of a sound delivery ends in a sound record of the same enqueued
/// delivery, not updated earlier than before.
pub proof fn law_delivery_steps(delivery: DeliveryView, at: u64, error: Seq<char>)
    requires
        delivery.flaw() is None,
    ensures
        forall|next: DeliveryView|
            {
                ||| delivery.begun(at) == Ok::<DeliveryView, Seq<char>>(next)
                ||| delivery.delivered(at) == Ok::<DeliveryView, Seq<char>>(next)
                ||| delivery.failed(at, error) == Ok::<DeliveryView, Seq<char>>(next)
                ||| delivery.uncertain(at, error) == Ok::<DeliveryView, Seq<char>>(next)
                ||| delivery.resolved_delivered(at) == Ok::<DeliveryView, Seq<char>>(next)
                ||| delivery.resolved_failed(at, error) == Ok::<DeliveryView, Seq<char>>(next)
            } ==> {
                &&& (#[trigger] next.flaw()) is None
                &&& next.same_enqueue(delivery)
                &&& delivery.updated_at_unix <= next.updated_at_unix
            },
{
}

} // verus!
