//! What each step of a delivery changes, which deliveries are sound, and how long
//! a failed one pauses, field by field.
use vstd::arithmetic::power2::{lemma_pow2_unfold, pow2};
use vstd::prelude::*;

use crate::message::MessageView;
use crate::outbox::{backoff, delivery_created, DeliveryView, OutboundRetryPolicy};

verus! {

/// A new delivery is pending with its message and session, was created and updated
/// at the given time, and was not tried yet.
pub proof fn law_new_deliveries_are_pending(
    id: Seq<char>,
    session_id: Seq<char>,
    message: MessageView,
    at: u64,
)
    ensures
        ({
            let delivery = delivery_created(id, session_id, message, at);
            &&& delivery.id == id
            &&& delivery.session_id == session_id
            &&& delivery.message == message
            &&& delivery.status is Pending
            &&& delivery.delivery_attempts == 0
            &&& delivery.created_at_unix == at
            &&& delivery.updated_at_unix == at
            &&& delivery.delivered_at_unix is None
            &&& delivery.last_error is None
            &&& delivery.flaw() is None <==> message.session_id == Some(session_id)
                && message.created_at_unix <= at
        }),
{
}

/// A delivery can be tried exactly while it is pending or failed, at any time from
/// its last update on, as long as the attempts can be counted. It is then under
/// way, with one attempt more and no error.
pub proof fn law_trying(delivery: DeliveryView, at: u64)
    ensures
        delivery.begun(at) is Ok <==> (delivery.status is Pending || delivery.status is Failed)
            && delivery.updated_at_unix <= at && delivery.delivery_attempts < u32::MAX,
        delivery.begun(at) matches Ok(next) ==> {
            &&& next.status is Delivering
            &&& next.delivery_attempts == delivery.delivery_attempts + 1
            &&& next.updated_at_unix == at
            &&& next.last_error is None
            &&& next.id == delivery.id
            &&& next.session_id == delivery.session_id
            &&& next.message == delivery.message
            &&& next.created_at_unix == delivery.created_at_unix
            &&& next.delivered_at_unix == delivery.delivered_at_unix
        },
{
}

/// A delivery can be noted as accepted exactly while it is under way, at any time
/// from its last update on. It then was delivered at that time.
pub proof fn law_delivering(delivery: DeliveryView, at: u64)
    ensures
        delivery.delivered(at) is Ok <==> delivery.status is Delivering && delivery.updated_at_unix
            <= at,
        delivery.delivered(at) matches Ok(next) ==> {
            &&& next.status is Delivered
            &&& next.delivered_at_unix == Some(at)
            &&& next.updated_at_unix == at
            &&& next.last_error == delivery.last_error
            &&& next.delivery_attempts == delivery.delivery_attempts
            &&& next.id == delivery.id
            &&& next.session_id == delivery.session_id
            &&& next.message == delivery.message
            &&& next.created_at_unix == delivery.created_at_unix
        },
{
}

/// A delivery can be noted as failed, or as uncertain, exactly while it is under
/// way, at any time from its last update on, with an error that is not blank. It
/// keeps that error and everything else.
pub proof fn law_failing_deliveries(delivery: DeliveryView, at: u64, error: Seq<char>)
    ensures
        delivery.failed(at, error) is Ok <==> delivery.status is Delivering
            && delivery.updated_at_unix <= at && !crate::text::is_blank(error),
        delivery.uncertain(at, error) is Ok <==> delivery.status is Delivering
            && delivery.updated_at_unix <= at && !crate::text::is_blank(error),
        delivery.failed(at, error) matches Ok(next) ==> next.status is Failed && next == (
        DeliveryView {
            status: next.status,
            updated_at_unix: at,
            last_error: Some(error),
            ..delivery
        }),
        delivery.uncertain(at, error) matches Ok(next) ==> next.status is Uncertain && next == (
        DeliveryView {
            status: next.status,
            updated_at_unix: at,
            last_error: Some(error),
            ..delivery
        }),
{
}

/// An uncertain delivery, and no other, can be settled at any time from its last
/// update on: as accepted, without an error and delivered at that time, or as
/// failed, for a reason that is not blank.
pub proof fn law_settling(delivery: DeliveryView, at: u64, reason: Seq<char>)
    ensures
        delivery.resolved_delivered(at) is Ok <==> delivery.status is Uncertain
            && delivery.updated_at_unix <= at,
        delivery.resolved_failed(at, reason) is Ok <==> delivery.status is Uncertain
            && delivery.updated_at_unix <= at && !crate::text::is_blank(reason),
        delivery.resolved_delivered(at) matches Ok(next) ==> next.status is Delivered && next == (
        DeliveryView {
            status: next.status,
            updated_at_unix: at,
            delivered_at_unix: Some(at),
            last_error: None,
            ..delivery
        }),
        delivery.resolved_failed(at, reason) matches Ok(next) ==> next.status is Failed && next == (
        DeliveryView {
            status: next.status,
            updated_at_unix: at,
            last_error: Some(reason),
            ..delivery
        }),
{
}

/// A delivery is sound exactly where its message is of its session, its times are
/// in order (message, creation, delivery, last update), a pending one was not tried
/// while any other was, exactly a delivered one has a time of delivery, and exactly
/// a failed or uncertain one has an error, which is not blank.
pub proof fn law_sound_deliveries(delivery: DeliveryView)
    ensures
        delivery.flaw() is None <==> {
            &&& delivery.message.session_id == Some(delivery.session_id)
            &&& delivery.message.created_at_unix <= delivery.created_at_unix
            &&& delivery.created_at_unix <= delivery.updated_at_unix
            &&& delivery.delivery_attempts == 0 <==> delivery.status is Pending
            &&& delivery.delivered_at_unix is Some <==> delivery.status is Delivered
            &&& delivery.delivered_at_unix matches Some(t) ==> delivery.created_at_unix <= t
                <= delivery.updated_at_unix
            &&& delivery.last_error is Some <==> delivery.status is Failed || delivery.status
                is Uncertain
            &&& delivery.last_error matches Some(error) ==> !crate::text::is_blank(error)
        },
{
}

/// Two records stand for the same enqueued delivery exactly where they agree in id,
/// session, message and time of creation.
pub proof fn law_same_enqueue(a: DeliveryView, b: DeliveryView)
    ensures
        a.same_enqueue(b) <==> a.id == b.id && a.session_id == b.session_id && a.message
            == b.message && a.created_at_unix == b.created_at_unix,
{
}

/// How often the first pause is doubled before the next attempt.
spec fn doublings(attempts: nat) -> nat {
    if attempts <= 1 {
        0
    } else {
        (attempts - 1) as nat
    }
}

/// The pause after so many attempts is the first pause, doubled for each attempt
/// after the first, and cut at the longest.
proof fn lemma_backoff_doubles(base: nat, longest: nat, attempts: nat)
    ensures
        backoff(base, longest, attempts) == if base * pow2(doublings(attempts)) <= longest {
            base * pow2(doublings(attempts))
        } else {
            longest
        },
    decreases attempts,
{
    if attempts <= 1 {
        vstd::arithmetic::power2::lemma2_to64();
        assert(base * pow2(0) == base) by (nonlinear_arith)
            requires
                pow2(0) == 1,
        ;
    } else {
        let before = (attempts - 1) as nat;
        lemma_backoff_doubles(base, longest, before);
        lemma_pow2_unfold(before);
        let half = base * pow2((before - 1) as nat);
        assert(base * pow2(before) == 2 * half) by (nonlinear_arith)
            requires
                pow2(before) == 2 * pow2((before - 1) as nat),
                half == base * pow2((before - 1) as nat),
        ;
        assert(doublings(attempts) == before);
        assert(doublings(before) == before - 1);
    }
}

impl OutboundRetryPolicy {
    /// A delivery is tried again exactly while it is failed and attempts are left:
    /// after its last update and a pause. The pause is the first delay, doubled for
    /// each attempt after the first, and never longer than the longest; a time past
    /// the end of time is the end of time.
    pub proof fn law_retries_pause_longer_each_time(self, delivery: DeliveryView)
        ensures
            self.next_attempt(delivery) is Some <==> delivery.status is Failed
                && delivery.delivery_attempts < self.max_attempts,
            self.next_attempt(delivery) matches Some(t) ==> {
                let doubled = self.base_delay_seconds * pow2(
                    if delivery.delivery_attempts <= 1 {
                        0
                    } else {
                        (delivery.delivery_attempts - 1) as nat
                    },
                );
                let pause = if doubled <= self.max_delay_seconds {
                    doubled
                } else {
                    self.max_delay_seconds as int
                };
                t == if delivery.updated_at_unix + pause <= u64::MAX {
                    delivery.updated_at_unix + pause
                } else {
                    u64::MAX as int
                }
            },
    {
        lemma_backoff_doubles(
            self.base_delay_seconds as nat,
            self.max_delay_seconds as nat,
            delivery.delivery_attempts as nat,
        );
    }
}

} // verus!
