//! The bounded channels between the callers and the tasks that serve the socket.
use crate::packet::Datagram;
use std::io;
use tokio::sync::mpsc;
use vstd::prelude::*;

verus! {

/// What the receive task passes to the reader: a packet, or the error that ended the task.
pub type Received = Result<Datagram, io::Error>;

/// A call that offers an item to the channel, with what came back.
pub type Offer = (Received, Result<(), mpsc::error::TrySendError<Received>>);

/// If the channel does not take the item of this call, the same item comes back.
pub open spec fn hands_back(offer: Offer) -> bool {
    match offer.1 {
        Ok(()) => true,
        Err(mpsc::error::TrySendError::Full(back)) => back == offer.0,
        Err(mpsc::error::TrySendError::Closed(back)) => back == offer.0,
    }
}

/// Declares `tokio::sync::mpsc::Sender`.
#[verifier::external_type_specification]
#[verifier::external_body]
#[verifier::reject_recursive_types(T)]
pub struct ExSender<T>(tokio::sync::mpsc::Sender<T>);

/// Declares `tokio::sync::mpsc::Receiver`.
#[verifier::external_type_specification]
#[verifier::external_body]
#[verifier::reject_recursive_types(T)]
pub struct ExReceiver<T>(tokio::sync::mpsc::Receiver<T>);

/// Declares `tokio::sync::mpsc::error::TrySendError`, with the variants that tokio defines.
#[verifier::external_type_specification]
#[verifier::reject_recursive_types(T)]
pub struct ExTrySendError<T>(tokio::sync::mpsc::error::TrySendError<T>);

/// Declares `tokio::sync::mpsc::error::SendError`, with the field that tokio defines.
#[verifier::external_type_specification]
#[verifier::reject_recursive_types(T)]
pub struct ExSendError<T>(tokio::sync::mpsc::error::SendError<T>);

/// A channel can be made with this many slots: at least one, and no more than
/// `tokio::sync::Semaphore::MAX_PERMITS`.
pub open spec fn valid_capacity(capacity: usize) -> bool {
    0 < capacity <= usize::MAX / 8
}

/// The number of slots that the channel of `tx` was made with.
pub uninterp spec fn send_limit(tx: mpsc::Sender<Datagram>) -> nat;

/// `tx` and `rx` are the two ends of one channel.
pub uninterp spec fn send_linked(
    tx: mpsc::Sender<Datagram>,
    rx: mpsc::Receiver<Datagram>,
) -> bool;

/// The number of slots that the channel of `tx` was made with.
pub uninterp spec fn receive_limit(tx: mpsc::Sender<Received>) -> nat;

/// `tx` and `rx` are the two ends of one channel.
pub uninterp spec fn receive_linked(
    tx: mpsc::Sender<Received>,
    rx: mpsc::Receiver<Received>,
) -> bool;

/// The calls of `try_send` that were made on `tx`, oldest first.
pub uninterp spec fn offers(tx: mpsc::Sender<Received>) -> Seq<Offer>;

/// Calls `tokio::sync::mpsc::channel` for outgoing packets: the two ends of one channel, made with
/// `capacity` slots. It would panic on a capacity that is not valid.
#[verifier::external_body]
pub(crate) fn send_channel(capacity: usize) -> (ends: (
    mpsc::Sender<Datagram>,
    mpsc::Receiver<Datagram>,
))
    requires
        valid_capacity(capacity),
    ensures
        send_limit(ends.0) == capacity,
        send_linked(ends.0, ends.1),
{
    mpsc::channel(capacity)
}

/// Calls `tokio::sync::mpsc::channel` for incoming packets: the two ends of one channel, made with
/// `capacity` slots, with nothing offered yet. It would panic on a capacity that is not valid.
#[verifier::external_body]
pub(crate) fn receive_channel(capacity: usize) -> (ends: (
    mpsc::Sender<Received>,
    mpsc::Receiver<Received>,
))
    requires
        valid_capacity(capacity),
    ensures
        receive_limit(ends.0) == capacity,
        receive_linked(ends.0, ends.1),
        offers(ends.0).len() == 0,
{
    mpsc::channel(capacity)
}

/// Calls `tokio::sync::mpsc::Sender::max_capacity`: the number of slots that the channel was made
/// with.
#[verifier::external_body]
pub(crate) fn max_capacity(tx: &mpsc::Sender<Datagram>) -> (slots: usize)
    ensures
        slots == send_limit(*tx),
{
    tx.max_capacity()
}

/// Calls `tokio::sync::mpsc::Sender::clone`: a second handle on the same channel.
#[verifier::external_body]
pub(crate) fn clone_sender(tx: &mpsc::Sender<Datagram>) -> (copy: mpsc::Sender<Datagram>)
    ensures
        send_limit(copy) == send_limit(*tx),
        forall|rx: mpsc::Receiver<Datagram>| send_linked(copy, rx) == send_linked(*tx, rx),
{
    tx.clone()
}

/// Calls `tokio::sync::mpsc::Sender::try_send`: the call joins those made on `tx`, and an item that
/// the channel does not take comes back with the reason. Whether there is a free slot and whether
/// the other end is still there is up to the other end, so it is left unsaid.
#[verifier::external_body]
pub(crate) fn try_send(tx: &mut mpsc::Sender<Received>, item: Received) -> (outcome: Result<
    (),
    mpsc::error::TrySendError<Received>,
>)
    ensures
        offers(*final(tx)) == offers(*old(tx)).push((item, outcome)),
        hands_back((item, outcome)),
        receive_limit(*final(tx)) == receive_limit(*old(tx)),
        forall|rx: mpsc::Receiver<Received>|
            receive_linked(*final(tx), rx) == receive_linked(*old(tx), rx),
{
    tx.try_send(item)
}

} // verus!
