//! The response listener's verified core: decode one inbound message —
//! the key as a correlation id, the body as a response envelope — and
//! resolve the matching waiter in the store. Pulling messages from the
//! bus and committing their position stays with the surrounding runtime.

use vstd::prelude::*;
use crate::corrid::{parse_correlation_id, id_chars};
use crate::codec::{
    parse_response, spec_parse_response, spec_resp_chars, dtov_ok,
};
use crate::models::{ResponseMessageDto, WrapperV};
use crate::store::CorrelationStore;

verus! {

/// One inbound message, decoded.
pub enum DecodedMessage {
    /// The key named the correlation id `id` and the body carried the
    /// typed result `value` under a recognized, matching response kind.
    Decoded { id: u128, value: ResponseMessageDto },
    /// The key is no correlation id's rendering.
    BadKey,
    /// The body is no response envelope's canonical rendering.
    BadPayload,
    /// The body decoded, but its response kind tag does not name the
    /// variant it holds: an unrecognized kind, to be skipped.
    UnknownKind,
}

/// Decodes one inbound message. On success the id is exactly what the
/// key renders, the value is exactly the typed result carried by the
/// body — the correlation between the two is never crossed — and the
/// body's response kind tag names that result's variant.
pub fn decode_message(key: &str, payload: &str) -> (r: DecodedMessage)
    ensures
        match r {
            DecodedMessage::Decoded { id, value } => {
                &&& key@ == id_chars(id)
                &&& spec_parse_response(payload@) matches Some(w) && w.wf() && value@
                    == w.response_message_dto && payload@ == spec_resp_chars(w)
            },
            DecodedMessage::BadKey => forall|v: u128| key@ != id_chars(v),
            DecodedMessage::BadPayload => spec_parse_response(payload@) is None && forall|
                w: WrapperV,
            | dtov_ok(w.response_message_dto) ==> payload@ != spec_resp_chars(w),
            DecodedMessage::UnknownKind => spec_parse_response(payload@) matches Some(w)
                && !w.wf(),
        },
{
    let id = match parse_correlation_id(key) {
        Some(id) => id,
        None => {
            return DecodedMessage::BadKey;
        },
    };
    match parse_response(payload) {
        Some(w) => {
            if w.has_matching_tag() {
                DecodedMessage::Decoded { id, value: w.response_message_dto }
            } else {
                DecodedMessage::UnknownKind
            }
        },
        None => DecodedMessage::BadPayload,
    }
}

/// What handling one inbound message came to.
#[derive(Clone, Copy, PartialEq, Eq, Structural, Debug)]
pub enum ListenerOutcome {
    /// A waiter for the message's id existed; the decoded value was
    /// handed to it and the waiter left the store.
    Delivered { id: u128 },
    /// The message decoded, but no waiter for its id was pending (late,
    /// already completed, or evicted): the value was dropped and the
    /// store is untouched.
    NoWaiter { id: u128 },
    /// The key did not decode; the message is skipped.
    BadKey,
    /// The body did not decode; the message is skipped.
    BadPayload,
    /// The body's response kind is unrecognized (the tag does not name
    /// the variant held); the message is skipped and nothing delivered.
    UnknownKind,
}

/// Handles one inbound message: decode, then complete the waiter. A
/// value reaches at most the waiter registered under the id that the
/// message's own key names, and carries exactly the payload's typed
/// result under a recognized response kind; malformed messages,
/// unrecognized kinds and missing waiters never disturb the store.
pub fn handle_message(store: &mut CorrelationStore, key: &str, payload: &str) -> (r:
    ListenerOutcome)
    requires
        old(store).wf(),
    ensures
        final(store).wf(),
        final(store).capacity() == old(store).capacity(),
        match r {
            ListenerOutcome::Delivered { id } => {
                &&& key@ == id_chars(id)
                &&& spec_parse_response(payload@) matches Some(w) && w.wf()
                &&& old(store).keys().contains(id)
                &&& final(store).keys() == old(store).keys().remove_value(id)
                &&& !final(store).keys().contains(id)
            },
            ListenerOutcome::NoWaiter { id } => {
                &&& key@ == id_chars(id)
                &&& spec_parse_response(payload@) matches Some(w) && w.wf()
                &&& !old(store).keys().contains(id)
                &&& final(store).keys() == old(store).keys()
            },
            ListenerOutcome::BadKey => (forall|v: u128| key@ != id_chars(v))
                && final(store).keys() == old(store).keys(),
            ListenerOutcome::BadPayload => spec_parse_response(payload@) is None
                && (forall|w: WrapperV|
                    dtov_ok(w.response_message_dto) ==> payload@ != spec_resp_chars(w))
                && final(store).keys() == old(store).keys(),
            ListenerOutcome::UnknownKind => (spec_parse_response(payload@) matches Some(w)
                && !w.wf()) && final(store).keys() == old(store).keys(),
        },
{
    match decode_message(key, payload) {
        DecodedMessage::BadKey => ListenerOutcome::BadKey,
        DecodedMessage::BadPayload => ListenerOutcome::BadPayload,
        DecodedMessage::UnknownKind => ListenerOutcome::UnknownKind,
        DecodedMessage::Decoded { id, value } => {
            proof {
                crate::store::lemma_at_most_once(old(store).keys(), id);
            }
            if store.complete(id, value) {
                ListenerOutcome::Delivered { id }
            } else {
                ListenerOutcome::NoWaiter { id }
            }
        },
    }
}

} // verus!
