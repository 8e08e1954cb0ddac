//! The bounded queue between two stages, as this library sees it: the two
//! non-blocking operations of a `crossbeam_channel` channel, with their
//! outcomes in the library's own terms.

use crossbeam_channel::{Receiver, Sender, TryRecvError, TrySendError};
use vstd::prelude::*;

verus! {

/// The sending half of a `crossbeam_channel` channel. Opaque here: nothing
/// is known of what the channel holds.
#[verifier::external_type_specification]
#[verifier::external_body]
#[verifier::reject_recursive_types(T)]
pub struct ExSender<T>(Sender<T>);

/// The receiving half of a `crossbeam_channel` channel. Opaque here.
#[verifier::external_type_specification]
#[verifier::external_body]
#[verifier::reject_recursive_types(T)]
pub struct ExReceiver<T>(Receiver<T>);

/// How one attempt to push an item went.
pub enum TrySend<T> {
    /// The item is in the queue.
    Sent,
    /// The queue was at capacity; the item comes back.
    Full(T),
    /// Every receiver is gone; the item comes back.
    Disconnected(T),
}

/// How one attempt to take an item went.
pub enum TryRecv<T> {
    /// An item was taken from the queue.
    Item(T),
    /// The queue held nothing, but a sender is still alive.
    Empty,
    /// The queue holds nothing and every sender is gone: nothing will come.
    Disconnected,
}

impl<T> TrySend<T> {
    /// The item that an unsuccessful attempt hands back.
    pub open spec fn returned(self) -> Option<T> {
        match self {
            TrySend::Sent => None,
            TrySend::Full(item) => Some(item),
            TrySend::Disconnected(item) => Some(item),
        }
    }
}

/// Calls `crossbeam_channel::Sender::try_send`, which never blocks.
///
/// Whether the item goes in depends on what the other threads are doing, so
/// nothing is claimed of which outcome comes. What is claimed is what the
/// crate documents of both errors: they carry the very message that was
/// offered.
#[verifier::external_body]
pub(crate) fn try_send<T>(sender: &Sender<T>, msg: T) -> (outcome: TrySend<T>)
    ensures
        outcome.returned() is Some ==> outcome.returned() == Some(msg),
{
    match sender.try_send(msg) {
        Ok(()) => TrySend::Sent,
        Err(TrySendError::Full(back)) => TrySend::Full(back),
        Err(TrySendError::Disconnected(back)) => TrySend::Disconnected(back),
    }
}

/// Calls `crossbeam_channel::Receiver::try_recv`, which never blocks.
///
/// Which outcome comes, and which item, depends on the other threads:
/// nothing is claimed of the result.
#[verifier::external_body]
pub(crate) fn try_recv<T>(receiver: &Receiver<T>) -> (outcome: TryRecv<T>) {
    match receiver.try_recv() {
        Ok(item) => TryRecv::Item(item),
        Err(TryRecvError::Empty) => TryRecv::Empty,
        Err(TryRecvError::Disconnected) => TryRecv::Disconnected,
    }
}

} // verus!
