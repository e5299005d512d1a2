//! The outbound side of a connection: tokio's bounded event queue and its
//! close signal, as the hub uses them.

use tokio::sync::mpsc;
use tokio::sync::watch;
use vstd::prelude::*;

use crate::protocol::{EventView, ServerEvent};

verus! {

/// tokio's bounded multi-producer queue sender, carried through the hub.
#[verifier::external_type_specification]
#[verifier::external_body]
#[verifier::reject_recursive_types(T)]
pub struct ExQueueSender<T>(mpsc::Sender<T>);

/// tokio's single-value broadcast sender, used as a close signal.
#[verifier::external_type_specification]
#[verifier::external_body]
#[verifier::reject_recursive_types(T)]
pub struct ExSignalSender<T>(watch::Sender<T>);

/// What became of one attempt to queue an event for a connection.
#[derive(Debug, Clone, Copy, PartialEq, Eq, Structural)]
pub enum DeliveryOutcome {
    /// The event was queued.
    Delivered,
    /// The queue had no room; the event was not queued.
    QueueFull,
    /// The receiving side is gone; the event was not queued.
    Closed,
}

/// The events offered to `try_send` through `sender`, oldest first, each
/// with what that call returned: one entry per call. The entries marked
/// `Delivered` are the events that were placed on the channel; the others
/// were handed back. It is not what the queue still holds, since the
/// receiver takes events off the queue.
pub uninterp spec fn offers(sender: mpsc::Sender<ServerEvent>) -> Seq<(EventView, DeliveryOutcome)>;

/// The flags handed to `watch::Sender::send` through `close_tx`, oldest
/// first: one entry per call, whether or not a receiver was left to see it.
pub uninterp spec fn close_signals(close_tx: watch::Sender<bool>) -> Seq<bool>;

/// Calls tokio's `mpsc::Sender::try_send`, which queues `event` without
/// waiting: `Delivered` when a slot was free and the event was placed on
/// the channel, `QueueFull` when the queue was at capacity, `Closed` when
/// the receiver was dropped or closed; in the last two cases nothing is
/// placed. The contract claims that the call was made with `event` and
/// returned `outcome`: the sender's history of offers gains that pair.
/// Which of the three comes back depends on the queue at the time of the
/// call and is not stated.
#[verifier::external_body]
pub(crate) fn try_deliver(sender: &mut mpsc::Sender<ServerEvent>, event: ServerEvent) -> (outcome:
    DeliveryOutcome)
    ensures
        offers(*final(sender)) == offers(*old(sender)).push((event@, outcome)),
{
    match sender.try_send(event) {
        Ok(()) => DeliveryOutcome::Delivered,
        Err(mpsc::error::TrySendError::Full(_)) => DeliveryOutcome::QueueFull,
        Err(mpsc::error::TrySendError::Closed(_)) => DeliveryOutcome::Closed,
    }
}

/// Calls tokio's `watch::Sender::send` with `flag`, which stores the value
/// and wakes the receivers when at least one receiver is alive, and does
/// nothing otherwise. The contract claims only that the call was made with
/// `flag`; whether a receiver was left to see it is not stated, and the
/// result of `send` is not used.
#[verifier::external_body]
pub(crate) fn signal_close(close_tx: &mut watch::Sender<bool>, flag: bool)
    ensures
        close_signals(*final(close_tx)) == close_signals(*old(close_tx)).push(flag),
{
    let _ = close_tx.send(flag);
}

} // verus!
