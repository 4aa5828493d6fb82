//! One-shot delivery channels: each registered waiter owns the receiving
//! side of a channel, the store holds the sending side. The channel
//! primitives come from the standard library and are trusted.

use vstd::prelude::*;
use crate::models::ResponseMessageDto;

verus! {

#[verifier::external_type_specification]
#[verifier::external_body]
#[verifier::reject_recursive_types(T)]
pub struct ExSender<T>(std::sync::mpsc::Sender<T>);

#[verifier::external_type_specification]
#[verifier::external_body]
#[verifier::reject_recursive_types(T)]
pub struct ExReceiver<T>(std::sync::mpsc::Receiver<T>);

/// What one wait for a reply can observe.
pub enum RecvOutcome {
    /// A value arrived in time.
    Received(ResponseMessageDto),
    /// The wait elapsed with nothing delivered.
    TimedOut,
    /// The sending side is gone; nothing can arrive any more.
    Disconnected,
}

/// Relies on `std::sync::mpsc::channel`: a connected sender/receiver
/// pair. What is sent on the one side is what the other receives; no
/// further property is assumed.
#[verifier::external_body]
pub(crate) fn response_channel() -> (r: (
    std::sync::mpsc::Sender<ResponseMessageDto>,
    std::sync::mpsc::Receiver<ResponseMessageDto>,
))
{
    std::sync::mpsc::channel()
}

/// Relies on `std::sync::mpsc::Sender::send`: hands the value to the
/// receiving side; returns whether a receiver still existed. The result
/// depends on the other side, so nothing is assumed of it.
#[verifier::external_body]
pub(crate) fn send_response(tx: std::sync::mpsc::Sender<ResponseMessageDto>, value: ResponseMessageDto) -> (ok: bool)
{
    tx.send(value).is_ok()
}

/// Relies on `std::sync::mpsc::Receiver::recv_timeout`: waits at most
/// the given number of milliseconds. Which outcome occurs depends on the
/// other side and on real time, so nothing is assumed of it.
#[verifier::external_body]
pub(crate) fn recv_response_timeout(
    rx: &std::sync::mpsc::Receiver<ResponseMessageDto>,
    timeout_ms: u64,
) -> (r: RecvOutcome)
{
    match rx.recv_timeout(std::time::Duration::from_millis(timeout_ms)) {
        Ok(v) => RecvOutcome::Received(v),
        Err(std::sync::mpsc::RecvTimeoutError::Timeout) => RecvOutcome::TimedOut,
        Err(std::sync::mpsc::RecvTimeoutError::Disconnected) => RecvOutcome::Disconnected,
    }
}

} // verus!
