//! Buffered receiving: a task reads packets from the transport and keeps them in a channel until
//! the reader asks for them.
use crate::backoff;
use crate::channel;
use crate::channel::{Offer, Received};
use crate::io_error;
use crate::io_error::FailureClass;
use crate::packet::Datagram;
use std::collections::VecDeque;
use std::io;
use tokio::sync::mpsc;
use vstd::prelude::*;

verus! {

/// The side of the buffer that packets are read from.
///
/// A reader does not wait unless the buffer is empty. Recoverable receive errors are retried by the
/// task; a terminal error is returned after the packets that were buffered before it.
pub struct BufferedUdpReceive {
    /// Where packets come from.
    pub recv_rx: mpsc::Receiver<Received>,
}

/// The state of the task that reads packets from the transport.
pub struct ReceiveTask {
    /// Where packets are sent to the reader.
    pub recv_tx: mpsc::Sender<Received>,
    /// Where the transport adds the packets of an attempt to receive.
    pub packet_bufs: Vec<Datagram>,
    /// Received packets that are still to be passed to the reader, oldest first.
    pub pending: VecDeque<Datagram>,
    /// The delay after the next recoverable error, in milliseconds.
    pub retry_delay: u64,
}

/// What the receive task does next.
pub enum ReceiveStep {
    /// Receive from the transport into `packet_bufs`, and report the outcome with
    /// [`ReceiveTask::received`].
    Receive,
    /// Wait for so many milliseconds, then receive again.
    Sleep(u64),
    /// Pass on what is pending, with [`ReceiveTask::deliver`].
    Deliver,
    /// Wait for a free slot and send this item to the reader, and report the outcome with
    /// [`ReceiveTask::sent`].
    Send(Received),
    /// Send this item to the reader, then end, whatever became of it.
    Finish(Received),
    /// End: there is no more reader.
    Stop,
}

/// The state of a receive task.
#[verifier::ext_equal]
pub struct ReceiveState {
    pub packet_bufs: Seq<Datagram>,
    pub pending: Seq<Datagram>,
    pub retry_delay: u64,
}

/// What is sent to the reader for each of these packets.
pub open spec fn items(datagrams: Seq<Datagram>) -> Seq<Received> {
    datagrams.map_values(|datagram: Datagram| -> Received { Ok(datagram) })
}

/// A successful attempt: the packets join the pending ones, and the delay is the first one again.
pub open spec fn on_success(state: ReceiveState) -> (ReceiveState, ReceiveStep) {
    (
        ReceiveState {
            packet_bufs: Seq::empty(),
            pending: state.pending + state.packet_bufs,
            retry_delay: backoff::UDP_RECV_INITIAL_BACKOFF,
        },
        ReceiveStep::Deliver,
    )
}

/// A failed attempt: what it had received is thrown away. An interrupted attempt is made again at
/// once, another recoverable error is slept over with a growing delay, and any other error is the
/// last thing that the reader gets.
pub open spec fn on_failure(state: ReceiveState, kind: io::ErrorKind, error: io::Error) -> (
    ReceiveState,
    ReceiveStep,
) {
    let cleared = ReceiveState { packet_bufs: Seq::empty(), ..state };
    match io_error::class_of(kind) {
        FailureClass::Interrupted => (cleared, ReceiveStep::Receive),
        FailureClass::Recoverable => (
            ReceiveState { retry_delay: backoff::following(state.retry_delay), ..cleared },
            ReceiveStep::Sleep(state.retry_delay),
        ),
        FailureClass::Terminal => (cleared, ReceiveStep::Finish(Err(error))),
    }
}

/// What an attempt to receive leads to.
pub open spec fn on_outcome(state: ReceiveState, outcome: Result<(), io::Error>) -> (
    ReceiveState,
    ReceiveStep,
) {
    match outcome {
        Ok(()) => on_success(state),
        Err(error) => on_failure(state, io_error::kind_of(error), error),
    }
}

/// What follows an attempt to put an item into the channel: the next item if there was a free slot,
/// to wait for one if there was none, and the end if there is no more reader.
pub open spec fn after_try_send(
    outcome: Result<(), mpsc::error::TrySendError<Received>>,
) -> ReceiveStep {
    match outcome {
        Ok(()) => ReceiveStep::Deliver,
        Err(mpsc::error::TrySendError::Full(item)) => ReceiveStep::Send(item),
        Err(mpsc::error::TrySendError::Closed(_)) => ReceiveStep::Stop,
    }
}

/// What follows once an item that had to wait was sent, or could not be: the next item, or the end if
/// there is no more reader.
pub open spec fn after_send(ok: bool) -> ReceiveStep {
    if ok {
        ReceiveStep::Deliver
    } else {
        ReceiveStep::Stop
    }
}

/// What the reader gets for what came out of the channel. A channel that gives nothing has no more
/// sender: the task has ended.
pub open spec fn read_result(received: Option<Received>) -> Received {
    match received {
        Some(item) => item,
        None => Err(
            io_error::error_from(
                io::ErrorKind::UnexpectedEof,
                "buffered UDP receive task stopped"@,
            ),
        ),
    }
}

/// What the reader gets for what came out of the channel, with the kind of the error that a channel
/// without a sender is answered with.
pub open spec fn reads_as(received: Option<Received>, result: Received) -> bool {
    &&& result == read_result(received)
    &&& received is None ==> io_error::kind_of(result->Err_0) == io::ErrorKind::UnexpectedEof
}

/// How the packets in `before` are passed on: `calls` offers them to the channel one by one, in
/// order, until one is refused or all are taken. Then `step` follows, with `after` still to be
/// passed on. A packet for which there is no free slot is the one that `step` sends.
pub open spec fn delivery(
    before: Seq<Datagram>,
    calls: Seq<Offer>,
    step: ReceiveStep,
    after: Seq<Datagram>,
) -> bool {
    &&& calls.len() <= before.len()
    &&& forall|i: int| 0 <= i < calls.len() ==> (#[trigger] calls[i]).0 == Received::Ok(before[i])
    &&& forall|i: int| 0 <= i < calls.len() - 1 ==> (#[trigger] calls[i]).1 is Ok
    &&& calls.len() > 0 ==> channel::hands_back(calls.last())
    &&& step matches ReceiveStep::Send(item) ==> calls.len() > 0 && item == calls.last().0
    &&& after == before.skip(calls.len() as int)
    &&& if calls.len() > 0 && calls.last().1 is Err {
        step == after_try_send(calls.last().1)
    } else {
        calls.len() == before.len() && step is Receive
    }
}

impl BufferedUdpReceive {
    /// Makes the two ends of a buffer with `capacity` slots.
    pub fn new(capacity: usize) -> (ends: (Self, ReceiveTask))
        requires
            channel::valid_capacity(capacity),
        ensures
            channel::receive_limit(ends.1.recv_tx) == capacity,
            channel::receive_linked(ends.1.recv_tx, ends.0.recv_rx),
            channel::offers(ends.1.recv_tx).len() == 0,
            ends.1.packet_bufs@.len() == 0,
            ends.1.pending@.len() == 0,
            ends.1.retry_delay == 10,
            ends.1@ == (ReceiveState {
                packet_bufs: Seq::empty(),
                pending: Seq::empty(),
                retry_delay: backoff::UDP_RECV_INITIAL_BACKOFF,
            }),
    {
        let (recv_tx, recv_rx) = channel::receive_channel(capacity);
        let task = ReceiveTask {
            recv_tx,
            packet_bufs: Vec::new(),
            pending: VecDeque::new(),
            retry_delay: backoff::UDP_RECV_INITIAL_BACKOFF,
        };
        (BufferedUdpReceive { recv_rx }, task)
    }

    /// What the reader gets for what came out of the channel: a packet, the error that ended the
    /// task, or, once there is nothing more to come, an error that says so.
    pub fn recv_from(received: Option<Received>) -> (result: Received)
        ensures
            reads_as(received, result),
            received matches Some(item) ==> result == item,
            received is None ==> {
                &&& result is Err
                &&& io_error::kind_of(result->Err_0) is UnexpectedEof
                &&& result->Err_0 == io_error::error_from(
                    io::ErrorKind::UnexpectedEof,
                    "buffered UDP receive task stopped"@,
                )
            },
    {
        match received {
            Some(item) => item,
            None => Err(
                io_error::new_error(
                    io::ErrorKind::UnexpectedEof,
                    "buffered UDP receive task stopped",
                ),
            ),
        }
    }
}

impl View for ReceiveTask {
    type V = ReceiveState;

    /// What the task decides by. The channel `recv_tx` is spoken of by its own names.
    open spec fn view(&self) -> ReceiveState {
        ReceiveState {
            packet_bufs: self.packet_bufs@,
            pending: self.pending@,
            retry_delay: self.retry_delay,
        }
    }
}

impl ReceiveTask {
    /// What the task starts with: it receives at once, without a delay and without being asked to.
    pub fn first_step(&self) -> (step: ReceiveStep)
        ensures
            step == ReceiveStep::Receive,
    {
        ReceiveStep::Receive
    }

    /// Decides what to do after an attempt to receive, whose packets, if any, are in `packet_bufs`.
    pub fn received(&mut self, outcome: Result<(), io::Error>) -> (step: ReceiveStep)
        ensures
            (final(self)@, step) == on_outcome(old(self)@, outcome),
            final(self).packet_bufs@.len() == 0,
            outcome is Ok ==> {
                &&& step is Deliver
                &&& final(self).retry_delay == 10
                &&& final(self).pending@ == old(self).pending@ + old(self).packet_bufs@
            },
            outcome is Err ==> final(self).pending@ == old(self).pending@,
            outcome matches Err(error) ==> match io_error::kind_of(error) {
                io::ErrorKind::Interrupted => {
                    &&& step is Receive
                    &&& final(self).retry_delay == old(self).retry_delay
                },
                io::ErrorKind::ConnectionAborted
                | io::ErrorKind::ConnectionRefused
                | io::ErrorKind::ConnectionReset
                | io::ErrorKind::HostUnreachable
                | io::ErrorKind::NetworkDown
                | io::ErrorKind::NetworkUnreachable
                | io::ErrorKind::TimedOut
                | io::ErrorKind::WouldBlock => {
                    &&& step == ReceiveStep::Sleep(old(self).retry_delay)
                    &&& old(self).retry_delay <= 500 ==> final(self).retry_delay == 2
                        * old(self).retry_delay
                    &&& old(self).retry_delay > 500 ==> final(self).retry_delay == 1000
                },
                _ => {
                    &&& step == ReceiveStep::Finish(Err(error))
                    &&& final(self).retry_delay == old(self).retry_delay
                },
            },
            final(self).recv_tx == old(self).recv_tx,
    {
        match outcome {
            Ok(()) => self.succeeded(),
            Err(error) => {
                let kind = io_error::error_kind(&error);
                self.failed(kind, error)
            },
        }
    }

    /// Decides what to do after a successful attempt to receive.
    pub fn succeeded(&mut self) -> (step: ReceiveStep)
        ensures
            (final(self)@, step) == on_success(old(self)@),
            step is Deliver,
            final(self).packet_bufs@.len() == 0,
            final(self).retry_delay == 10,
            final(self).pending@.len() == old(self).pending@.len() + old(self).packet_bufs@.len(),
            forall|i: int|
                0 <= i < old(self).pending@.len() ==> #[trigger] final(self).pending@[i]
                    == old(self).pending@[i],
            forall|i: int|
                0 <= i < old(self).packet_bufs@.len()
                    ==> final(self).pending@[old(self).pending@.len() + i]
                    == #[trigger] old(self).packet_bufs@[i],
            final(self).recv_tx == old(self).recv_tx,
    {
        self.retry_delay = backoff::UDP_RECV_INITIAL_BACKOFF;
        let mut batch: VecDeque<Datagram> = VecDeque::new();
        while self.packet_bufs.len() > 0
            invariant
                self.packet_bufs@ + batch@ == old(self)@.packet_bufs,
                self.pending@ == old(self)@.pending,
                self.retry_delay == backoff::UDP_RECV_INITIAL_BACKOFF,
                self.recv_tx == old(self).recv_tx,
            decreases self.packet_bufs.len(),
        {
            let last = self.packet_bufs.pop();
            if let Some(datagram) = last {
                batch.push_front(datagram);
            }
        }
        self.pending.append(&mut batch);
        ReceiveStep::Deliver
    }

    /// Decides what to do after an attempt to receive that failed with `error`, whose kind is `kind`.
    pub fn failed(&mut self, kind: io::ErrorKind, error: io::Error) -> (step: ReceiveStep)
        ensures
            (final(self)@, step) == on_failure(old(self)@, kind, error),
            final(self).packet_bufs@.len() == 0,
            final(self).pending@ == old(self).pending@,
            match kind {
                io::ErrorKind::Interrupted => {
                    &&& step is Receive
                    &&& final(self).retry_delay == old(self).retry_delay
                },
                io::ErrorKind::ConnectionAborted
                | io::ErrorKind::ConnectionRefused
                | io::ErrorKind::ConnectionReset
                | io::ErrorKind::HostUnreachable
                | io::ErrorKind::NetworkDown
                | io::ErrorKind::NetworkUnreachable
                | io::ErrorKind::TimedOut
                | io::ErrorKind::WouldBlock => {
                    &&& step == ReceiveStep::Sleep(old(self).retry_delay)
                    &&& old(self).retry_delay <= 500 ==> final(self).retry_delay == 2
                        * old(self).retry_delay
                    &&& old(self).retry_delay > 500 ==> final(self).retry_delay == 1000
                },
                _ => {
                    &&& step == ReceiveStep::Finish(Err(error))
                    &&& final(self).retry_delay == old(self).retry_delay
                },
            },
            final(self).recv_tx == old(self).recv_tx,
    {
        self.packet_bufs.clear();
        match io_error::classify(kind) {
            FailureClass::Interrupted => ReceiveStep::Receive,
            FailureClass::Recoverable => {
                let delay = self.retry_delay;
                self.retry_delay = backoff::next_backoff(delay);
                ReceiveStep::Sleep(delay)
            },
            FailureClass::Terminal => ReceiveStep::Finish(Err(error)),
        }
    }

    /// Passes on the pending packets, until the channel is full or has no more reader.
    pub fn deliver(&mut self) -> (step: ReceiveStep)
        ensures
            channel::offers(old(self).recv_tx).is_prefix_of(channel::offers(final(self).recv_tx)),
            delivery(
                old(self)@.pending,
                channel::offers(final(self).recv_tx).skip(
                    channel::offers(old(self).recv_tx).len() as int,
                ),
                step,
                final(self)@.pending,
            ),
            ({
                let before = old(self).pending@;
                let calls = channel::offers(final(self).recv_tx).skip(
                    channel::offers(old(self).recv_tx).len() as int,
                );
                &&& calls.len() <= before.len()
                &&& final(self).pending@ == before.skip(calls.len() as int)
                &&& forall|i: int|
                    0 <= i < calls.len() ==> (#[trigger] calls[i]).0 == Received::Ok(before[i])
                &&& forall|i: int| 0 <= i < calls.len() - 1 ==> (#[trigger] calls[i]).1 is Ok
                &&& calls.len() == 0 ==> before.len() == 0 && step is Receive
                &&& calls.len() > 0 ==> match calls.last().1 {
                    Ok(()) => calls.len() == before.len() && step is Receive,
                    Err(mpsc::error::TrySendError::Full(_)) => step == ReceiveStep::Send(
                        calls.last().0,
                    ),
                    Err(mpsc::error::TrySendError::Closed(_)) => step is Stop,
                }
            }),
            final(self)@.packet_bufs == old(self)@.packet_bufs,
            final(self)@.retry_delay == old(self)@.retry_delay,
            final(self).packet_bufs@ == old(self).packet_bufs@,
            final(self).retry_delay == old(self).retry_delay,
            channel::receive_limit(final(self).recv_tx) == channel::receive_limit(
                old(self).recv_tx,
            ),
            forall|rx: mpsc::Receiver<Received>|
                channel::receive_linked(final(self).recv_tx, rx) == channel::receive_linked(
                    old(self).recv_tx,
                    rx,
                ),
    {
        let ghost before = self.pending@;
        let ghost earlier = channel::offers(self.recv_tx);
        let ghost mut calls: Seq<Offer> = Seq::empty();
        loop
            invariant
                before == old(self)@.pending,
                earlier == channel::offers(old(self).recv_tx),
                channel::offers(self.recv_tx) == earlier + calls,
                calls.len() <= before.len(),
                forall|i: int|
                    0 <= i < calls.len() ==> (#[trigger] calls[i]).0 == Received::Ok(before[i])
                        && calls[i].1 is Ok,
                self.pending@ == before.skip(calls.len() as int),
                self.packet_bufs@ == old(self)@.packet_bufs,
                self.retry_delay == old(self)@.retry_delay,
                channel::receive_limit(self.recv_tx) == channel::receive_limit(old(self).recv_tx),
                forall|rx: mpsc::Receiver<Received>|
                    channel::receive_linked(self.recv_tx, rx) == channel::receive_linked(
                        old(self).recv_tx,
                        rx,
                    ),
            decreases before.len() - calls.len(),
        {
            let datagram = match self.pending.pop_front() {
                Some(datagram) => datagram,
                None => {
                    assert((earlier + calls).skip(earlier.len() as int) =~= calls);
                    return ReceiveStep::Receive;
                },
            };
            let outcome = channel::try_send(&mut self.recv_tx, Ok(datagram));
            proof {
                calls = calls.push((Ok(datagram), outcome));
                assert(channel::offers(self.recv_tx) =~= earlier + calls);
                assert((earlier + calls).skip(earlier.len() as int) =~= calls);
                assert(self.pending@ =~= before.skip(calls.len() as int));
            }
            let step = Self::offered(outcome);
            match step {
                ReceiveStep::Deliver => {},
                _ => {
                    return step;
                },
            }
        }
    }

    /// Decides what to do after an attempt to put an item into the channel.
    pub fn offered(outcome: Result<(), mpsc::error::TrySendError<Received>>) -> (step: ReceiveStep)
        ensures
            step == after_try_send(outcome),
            outcome is Ok ==> step is Deliver,
            outcome matches Err(mpsc::error::TrySendError::Full(item)) ==> step
                == ReceiveStep::Send(item),
            outcome matches Err(mpsc::error::TrySendError::Closed(_)) ==> step is Stop,
    {
        match outcome {
            Ok(()) => ReceiveStep::Deliver,
            Err(mpsc::error::TrySendError::Full(item)) => ReceiveStep::Send(item),
            Err(mpsc::error::TrySendError::Closed(_)) => ReceiveStep::Stop,
        }
    }

    /// Decides what to do after an item had to wait for a free slot in the channel.
    pub fn sent(outcome: Result<(), mpsc::error::SendError<Received>>) -> (step: ReceiveStep)
        ensures
            step == after_send(outcome is Ok),
            outcome is Ok ==> step is Deliver,
            outcome is Err ==> step is Stop,
    {
        match outcome {
            Ok(()) => ReceiveStep::Deliver,
            Err(_) => ReceiveStep::Stop,
        }
    }
}

} // verus!
