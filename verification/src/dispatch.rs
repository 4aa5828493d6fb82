//! The dispatcher's verified core: mint a correlation id, register a
//! waiter, render the outbound envelope, and wait for the reply under a
//! deadline whose remaining budget is recomputed on every wake-up.
//!
//! Publishing to the bus is asynchronous transport work and stays with
//! the surrounding runtime, between `prepare_dispatch` and `await_reply`.

use vstd::prelude::*;
use std::sync::mpsc::Receiver;
use crate::channel::{response_channel, recv_response_timeout, RecvOutcome};
use crate::corrid::{format_correlation_id, id_chars};
use crate::models::{Command, ServiceRequest, ResponseMessageDto, ReqV};
use crate::codec::{encode_request, spec_req_chars};
use crate::store::{CorrelationStore, RegisterOutcome};

verus! {

#[verifier::external_type_specification]
#[verifier::external_body]
pub struct ExInstant(std::time::Instant);

/// Relies on `uuid::Uuid::new_v4` and `Uuid::as_u128`: a freshly drawn
/// random 128-bit identifier. Randomness gives it no provable property.
#[verifier::external_body]
fn fresh_correlation_id() -> (id: u128)
{
    uuid::Uuid::new_v4().as_u128()
}

/// Relies on `std::time::Instant::now`: the clock's current reading.
/// Nothing is assumed of its value.
#[verifier::external_body]
fn instant_now() -> (t: std::time::Instant)
{
    std::time::Instant::now()
}

/// Relies on `Instant::saturating_duration_since`: the span from
/// `earlier` to `later`, zero when the clock went backwards. Nothing is
/// assumed of its value.
#[verifier::external_body]
fn span_between(earlier: &std::time::Instant, later: &std::time::Instant) -> (d:
    std::time::Duration)
{
    later.saturating_duration_since(*earlier)
}

/// Relies on `Duration::as_millis`: the span in whole milliseconds,
/// saturated into 64 bits. Nothing is assumed of its value.
#[verifier::external_body]
fn span_millis(d: &std::time::Duration) -> (ms: u64)
{
    u64::try_from(d.as_millis()).unwrap_or(u64::MAX)
}

/// The wait budget that remains of `timeout_ms` once `elapsed_ms` have
/// passed: never more than what is left, and exhausted exactly when the
/// deadline has been reached.
pub fn remaining_budget(timeout_ms: u64, elapsed_ms: u64) -> (r: Option<u64>)
    ensures
        elapsed_ms < timeout_ms ==> r == Some((timeout_ms - elapsed_ms) as u64),
        elapsed_ms >= timeout_ms ==> r is None,
{
    if elapsed_ms < timeout_ms {
        Some(timeout_ms - elapsed_ms)
    } else {
        None
    }
}

/// Everything a dispatch needs after registration: the minted id, the
/// bus key and payload to publish, and the receiving side of the
/// waiter's one-shot channel.
pub struct PreparedDispatch {
    pub id: u128,
    pub key: String,
    pub payload: String,
    pub rx: Receiver<ResponseMessageDto>,
}

/// Mints a fresh correlation id, registers a waiter for it, and renders
/// the outbound envelope: the payload is the canonical rendering of the
/// request whose id is the key's text. In the vanishingly unlikely case
/// that the drawn id already has a pending waiter, nothing is registered
/// and no envelope is produced.
pub fn prepare_dispatch(store: &mut CorrelationStore, command: Command) -> (r: Option<
    PreparedDispatch,
>)
    requires
        old(store).wf(),
    ensures
        final(store).wf(),
        final(store).capacity() == old(store).capacity(),
        match r {
            Some(p) => {
                &&& !old(store).keys().contains(p.id)
                &&& p.key@ == id_chars(p.id)
                &&& p.payload@ == spec_req_chars(
                    ReqV { request_id: id_chars(p.id), command },
                )
                &&& final(store).keys().contains(p.id)
                &&& old(store).keys().len() < old(store).capacity() ==> final(store).keys()
                    == seq![p.id] + old(store).keys()
                &&& old(store).keys().len() == old(store).capacity() ==> final(store).keys()
                    == seq![p.id] + old(store).keys().drop_last()
            },
            None => final(store).keys() == old(store).keys() && old(store).keys().len()
                > 0,
        },
{
    let id = fresh_correlation_id();
    let key = format_correlation_id(id);
    let (tx, rx) = response_channel();
    match store.register(id, tx) {
        RegisterOutcome::Duplicate => None,
        _ => {
            let envelope = ServiceRequest::get_person(key.clone());
            let envelope = match command {
                Command::GetPerson => envelope,
                Command::GetPersons => ServiceRequest { command: Command::GetPersons, ..envelope },
            };
            let payload = encode_request(&envelope);
            proof {
                assert(envelope@ == ReqV { request_id: id_chars(id), command });
                assert(final(store).keys()[0] == id);
                assert(final(store).keys().contains(id));
            }
            Some(PreparedDispatch { id, key, payload, rx })
        },
    }
}

/// Waits for the reply under the deadline: the remaining budget is
/// recomputed from the clock on every wake-up, so a wait never extends
/// past `timeout_ms` of measured time. Returns the delivered value, or
/// nothing on deadline or when the waiter's sending side is gone. What
/// arrives comes from the delivery channel, about which nothing more can
/// be said here.
pub fn await_reply(rx: &Receiver<ResponseMessageDto>, timeout_ms: u64) -> (r: Option<
    ResponseMessageDto,
>)
{
    let start = instant_now();
    // guards against a clock that never advances
    let mut rounds_left: u64 = 1000000;
    loop
        invariant
            true,
        decreases rounds_left,
    {
        if rounds_left == 0 {
            return None;
        }
        rounds_left = rounds_left - 1;
        let now = instant_now();
        let elapsed = span_millis(&span_between(&start, &now));
        match remaining_budget(timeout_ms, elapsed) {
            None => {
                return None;
            },
            Some(budget) => {
                match recv_response_timeout(rx, budget) {
                    RecvOutcome::Received(v) => {
                        return Some(v);
                    },
                    RecvOutcome::TimedOut => {
                        // loop: the next budget computation will see the
                        // elapsed time and normally end the wait
                    },
                    RecvOutcome::Disconnected => {
                        return None;
                    },
                }
            },
        }
    }
}

} // verus!
