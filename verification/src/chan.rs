//! The trusted boundary to the `flume` channel crate.
//!
//! Every connection queue and every byte-chunk pipe in this library is an
//! unbounded `flume` channel. This module declares the channel types and
//! gives the handful of calls the library makes their contracts; everything
//! here is believed, not proved, so it is kept as small and as literal as
//! possible. The channel's contents are never modelled: what a receive call
//! hands back is nondeterministic to the verifier, and the verified callers
//! state what holds of every possible outcome.

use vstd::prelude::*;

verus! {

/// The sending half of a `flume` channel.
#[verifier::external_type_specification]
#[verifier::external_body]
#[verifier::reject_recursive_types(T)]
pub struct ExSender<T>(flume::Sender<T>);

/// The receiving half of a `flume` channel.
#[verifier::external_type_specification]
#[verifier::external_body]
#[verifier::reject_recursive_types(T)]
pub struct ExReceiver<T>(flume::Receiver<T>);

/// The error a send reports once every receiver is gone; it carries the
/// value that could not be delivered.
#[verifier::external_type_specification]
#[verifier::external_body]
#[verifier::reject_recursive_types(T)]
pub struct ExSendError<T>(flume::SendError<T>);

/// The error a blocking receive reports once every sender is gone and the
/// channel is drained.
#[verifier::external_type_specification]
#[verifier::external_body]
pub struct ExRecvError(flume::RecvError);

/// Relies on flume::unbounded: creates a connected sender/receiver pair of
/// an unbounded first-in-first-out channel. Values sent on the sender come
/// out of the receiver in the order they were sent; a send never waits for
/// capacity. Nothing about the pairing is stated here, so verified callers
/// learn what came out of a channel only from the receive calls themselves.
pub assume_specification<T>[ flume::unbounded::<T> ]() -> (r: (
    flume::Sender<T>,
    flume::Receiver<T>,
));

/// Relies on flume::Sender::send: on an unbounded channel it never blocks,
/// returns `Ok(())` once the value is queued, and returns the value back in
/// `Err` exactly when every receiver has been dropped. Which of the two
/// happens depends on the peer, so nothing more can be promised.
pub assume_specification<T>[ flume::Sender::<T>::send ](
    tx: &flume::Sender<T>,
    msg: T,
) -> (r: Result<(), flume::SendError<T>>);

/// Relies on flume::Receiver::recv: blocks the calling thread until a value
/// is available and returns it, or reports `Err` once every sender has been
/// dropped and the channel is drained. What value arrives depends on the
/// peer, so nothing more can be promised.
pub assume_specification<T>[ flume::Receiver::<T>::recv ](
    rx: &flume::Receiver<T>,
) -> (r: Result<T, flume::RecvError>);

/// One poll of a receiving half: either a value was ready, or none is ready
/// yet, or the channel is closed (every sender gone, nothing left queued).
pub(crate) enum RecvStep<T> {
    /// The next queued value.
    Item(T),
    /// Nothing queued right now; polling again later may succeed.
    Empty,
    /// Every sender is gone and the channel is drained.
    Closed,
}

/// Relies on flume::Receiver::recv: blocks the calling thread until the next
/// queued endpoint arrives and hands endpoints out in the order they were
/// sent. The queue can only report closure once every sender is gone, and
/// the switchboard holds a sender for as long as the listener's address is
/// bound, so a closure here is a logic fault inside this library; the
/// connection queue is promised to never end, so on that impossible outcome
/// the call aborts (through `expect`) rather than dress the fault up as an
/// end-of-stream result.
#[verifier::external_body]
pub(crate) fn recv_connection(rx: &flume::Receiver<crate::socket::MemorySocket>) -> (s:
    crate::socket::MemorySocket) {
    rx.recv().expect("a live listener keeps its connection queue open")
}

/// Relies on flume::Receiver::try_recv: returns the next queued value
/// without waiting, `Err(Empty)` when nothing is queued yet, and
/// `Err(Disconnected)` once every sender is gone and the channel is
/// drained. Each case is passed through one for one.
#[verifier::external_body]
pub(crate) fn try_recv_step<T>(rx: &flume::Receiver<T>) -> (r: RecvStep<T>) {
    match rx.try_recv() {
        Ok(v) => RecvStep::Item(v),
        Err(flume::TryRecvError::Empty) => RecvStep::Empty,
        Err(flume::TryRecvError::Disconnected) => RecvStep::Closed,
    }
}

} // verus!
