use std::sync::mpsc;
use vstd::prelude::*;

verus! {

#[verifier::external_type_specification]
#[verifier::external_body]
#[verifier::reject_recursive_types(T)]
pub struct ExMpscSender<T>(std::sync::mpsc::Sender<T>);

#[verifier::external_type_specification]
#[verifier::external_body]
#[verifier::reject_recursive_types(T)]
pub struct ExMpscReceiver<T>(std::sync::mpsc::Receiver<T>);

/// `std::sync::mpsc::channel`: a fresh channel. Nothing is promised of the pair
/// beyond its type.
#[verifier::external_body]
pub(crate) fn channel<T>() -> (mpsc::Sender<T>, mpsc::Receiver<T>) {
    mpsc::channel()
}

/// `mpsc::Sender::send`: hands `msg` to the channel. Whether a receiver is
/// still there to take it is not stated.
#[verifier::external_body]
pub(crate) fn send<T>(tx: &mpsc::Sender<T>, msg: T) {
    let _ = tx.send(msg);
}

/// `mpsc::Sender::clone`: another sender into the same channel. The contract
/// states nothing of it beyond its type.
#[verifier::external_body]
pub(crate) fn clone_sender<T>(tx: &mpsc::Sender<T>) -> mpsc::Sender<T> {
    tx.clone()
}

/// `mpsc::Receiver::try_iter`, collected: the messages waiting in the channel
/// right now, in arrival order. What arrives depends on other threads, so the
/// contract states nothing of the result.
#[verifier::external_body]
pub(crate) fn drain<T>(rx: &mpsc::Receiver<T>) -> Vec<T> {
    rx.try_iter().collect()
}

/// `mpsc::Receiver::recv`: waits for the next message; `None` once every
/// sender is gone. Nothing is stated of which message comes.
#[verifier::external_body]
pub(crate) fn recv<T>(rx: &mpsc::Receiver<T>) -> Option<T> {
    rx.recv().ok()
}

/// `mpsc::Receiver::recv_timeout`: waits at most `ms` milliseconds for the
/// next message; `None` when none came in that time or every sender is gone.
/// Nothing is stated of which message comes, nor of the time waited.
#[verifier::external_body]
pub(crate) fn recv_timeout<T>(rx: &mpsc::Receiver<T>, ms: u64) -> Option<T> {
    rx.recv_timeout(std::time::Duration::from_millis(ms)).ok()
}

} // verus!
