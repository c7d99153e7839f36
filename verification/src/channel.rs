//! Trusted declarations of the standard library's mpsc channel types and the
//! five calls the library makes on them. A channel's behaviour depends on
//! what the other endpoint has done, so nothing is promised of any outcome:
//! every caller handles whatever comes back.

use vstd::prelude::*;

verus! {

#[verifier::external_type_specification]
#[verifier::external_body]
#[verifier::reject_recursive_types(T)]
pub struct ExSender<T>(std::sync::mpsc::Sender<T>);

#[verifier::external_type_specification]
#[verifier::external_body]
#[verifier::reject_recursive_types(T)]
pub struct ExSyncSender<T>(std::sync::mpsc::SyncSender<T>);

#[verifier::external_type_specification]
#[verifier::external_body]
#[verifier::reject_recursive_types(T)]
pub struct ExReceiver<T>(std::sync::mpsc::Receiver<T>);

/// What a non-blocking receive found.
pub enum RecvAttempt<T> {
    Received(T),
    Empty,
    Disconnected,
}

/// What became of a non-blocking send.
#[derive(Copy, Clone, Debug, PartialEq, Eq, Structural)]
pub enum SendAttempt {
    Accepted,
    Full,
    Disconnected,
}

/// Relies on std::sync::mpsc::channel: creates a connected, unbounded
/// sender/receiver pair.
#[verifier::external_body]
pub(crate) fn new_channel<T>() -> (std::sync::mpsc::Sender<T>, std::sync::mpsc::Receiver<T>) {
    std::sync::mpsc::channel()
}

/// Relies on std::sync::mpsc::sync_channel: creates a connected
/// sender/receiver pair with a bounded buffer.
#[verifier::external_body]
pub(crate) fn new_sync_channel<T>(bound: usize) -> (
    std::sync::mpsc::SyncSender<T>,
    std::sync::mpsc::Receiver<T>,
) {
    std::sync::mpsc::sync_channel(bound)
}

/// Relies on std::sync::mpsc::Sender::send, which fails exactly when the
/// receiving end is gone; the value is dropped in that case.
#[verifier::external_body]
pub(crate) fn channel_send<T>(tx: &std::sync::mpsc::Sender<T>, value: T) -> (r: bool) {
    tx.send(value).is_ok()
}

/// Relies on std::sync::mpsc::Receiver::try_recv: a non-blocking poll that
/// reports a value, an empty buffer, or a hung-up sender.
#[verifier::external_body]
pub(crate) fn channel_try_recv<T>(rx: &std::sync::mpsc::Receiver<T>) -> (r: RecvAttempt<T>) {
    match rx.try_recv() {
        Ok(value) => RecvAttempt::Received(value),
        Err(std::sync::mpsc::TryRecvError::Empty) => RecvAttempt::Empty,
        Err(std::sync::mpsc::TryRecvError::Disconnected) => RecvAttempt::Disconnected,
    }
}

/// Relies on std::sync::mpsc::SyncSender::try_send: a non-blocking send that
/// reports a full buffer or a hung-up receiver; the value is dropped in
/// either failure case.
#[verifier::external_body]
pub(crate) fn sync_try_send<T>(tx: &std::sync::mpsc::SyncSender<T>, value: T) -> (r: SendAttempt) {
    match tx.try_send(value) {
        Ok(()) => SendAttempt::Accepted,
        Err(std::sync::mpsc::TrySendError::Full(_)) => SendAttempt::Full,
        Err(std::sync::mpsc::TrySendError::Disconnected(_)) => SendAttempt::Disconnected,
    }
}

} // verus!
