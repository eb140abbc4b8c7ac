//! Buffered sending: packets wait in a channel of their address family until the send task hands
//! them to the transport, one by one or many at once.
use crate::channel;
use crate::packet::{Datagram, Family, Packet, SocketAddr};
use std::io;
use tokio::sync::mpsc;
use vstd::prelude::*;

verus! {

/// The side of the buffer that callers send on.
///
/// A packet goes to the channel of its address family, and the task that holds the other ends of
/// the two channels passes it on. A caller does not wait unless that channel is full.
pub struct BufferedUdpSend {
    /// Where IPv4 packets are sent to the task.
    send_tx_v4: mpsc::Sender<Datagram>,
    /// Where IPv6 packets are sent to the task.
    send_tx_v6: mpsc::Sender<Datagram>,
}

/// The state of the task that hands packets to the transport.
///
/// The two address families have a channel and a buffer each, since one call of the transport must
/// not mix them.
pub struct SendTask {
    /// Where IPv4 packets come from.
    pub rx_v4: mpsc::Receiver<Datagram>,
    /// Where IPv6 packets come from.
    pub rx_v6: mpsc::Receiver<Datagram>,
    /// IPv4 packets that were taken from their channel.
    pub buf_v4: Vec<Datagram>,
    /// IPv6 packets that were taken from their channel.
    pub buf_v6: Vec<Datagram>,
    /// How many packets are taken from a channel at once, at most.
    pub max_packet_count: usize,
}

/// What the send task does next.
pub enum SendStep {
    /// A channel gave no packet: there is no more sender, or no packet may be taken. The task ends.
    Stop,
    /// Hand this packet to the transport. Whether that succeeds makes no difference.
    Send(Packet, SocketAddr),
    /// Hand the whole buffer of the family to the transport, and report what became of it with
    /// [`SendTask::sent_many`].
    SendMany,
}

/// What follows once `count` packets were added to the end of `buf`, and what then stays in it: the
/// end if there was none, the packet alone if there was one, and all of the buffer otherwise.
pub open spec fn on_received(buf: Seq<Datagram>, count: nat) -> (Seq<Datagram>, SendStep) {
    if count == 0 {
        (buf, SendStep::Stop)
    } else if count == 1 {
        (buf.drop_last(), SendStep::Send(buf.last().0, buf.last().1))
    } else {
        (buf, SendStep::SendMany)
    }
}

/// What stays in `buf` once the transport was handed all of it and left it so: nothing, after an
/// error.
pub open spec fn after_sent_many(buf: Seq<Datagram>, ok: bool) -> Seq<Datagram> {
    if ok {
        buf
    } else {
        Seq::empty()
    }
}

/// What a handle sends for a caller, and the sender that it is sent on.
pub open spec fn sending_of(handle: BufferedUdpSend, packet: Packet, destination: SocketAddr) -> (
    mpsc::Sender<Datagram>,
    Datagram,
) {
    (handle.tx_for(destination.family()), (packet, destination))
}

impl BufferedUdpSend {
    /// Where IPv4 packets are sent to the task.
    pub closed spec fn tx_v4(self) -> mpsc::Sender<Datagram> {
        self.send_tx_v4
    }

    /// Where IPv6 packets are sent to the task.
    pub closed spec fn tx_v6(self) -> mpsc::Sender<Datagram> {
        self.send_tx_v6
    }

    /// Where packets with an address of `family` are sent to the task.
    pub open spec fn tx_for(self, family: Family) -> mpsc::Sender<Datagram> {
        match family {
            Family::V4 => self.tx_v4(),
            Family::V6 => self.tx_v6(),
        }
    }

    /// This handle sends to `task`: its channels end there.
    pub open spec fn sends_to(self, task: SendTask) -> bool {
        &&& channel::send_linked(self.tx_v4(), task.rx_v4)
        &&& channel::send_linked(self.tx_v6(), task.rx_v6)
    }

    /// This handle and `other` have the same two channels.
    pub open spec fn shares_channels_with(self, other: Self) -> bool {
        &&& channel::send_limit(self.tx_v4()) == channel::send_limit(other.tx_v4())
        &&& channel::send_limit(self.tx_v6()) == channel::send_limit(other.tx_v6())
        &&& forall|rx: mpsc::Receiver<Datagram>|
            channel::send_linked(self.tx_v4(), rx) == channel::send_linked(other.tx_v4(), rx)
        &&& forall|rx: mpsc::Receiver<Datagram>|
            channel::send_linked(self.tx_v6(), rx) == channel::send_linked(other.tx_v6(), rx)
    }

    /// The two channels have the same number of slots.
    #[verifier::type_invariant]
    pub closed spec fn same_limits(self) -> bool {
        channel::send_limit(self.send_tx_v4) == channel::send_limit(self.send_tx_v6)
    }

    /// Makes the two ends of a buffer with `capacity` slots for each family, for a transport that
    /// takes up to `max_packet_count` packets at once.
    pub fn new(capacity: usize, max_packet_count: usize) -> (ends: (Self, SendTask))
        requires
            channel::valid_capacity(capacity),
        ensures
            channel::send_limit(ends.0.tx_v4()) == capacity,
            channel::send_limit(ends.0.tx_v6()) == capacity,
            ends.0.sends_to(ends.1),
            channel::send_linked(ends.0.tx_v4(), ends.1.rx_v4),
            channel::send_linked(ends.0.tx_v6(), ends.1.rx_v6),
            ends.1.buf_v4@ == Seq::<Datagram>::empty(),
            ends.1.buf_v6@ == Seq::<Datagram>::empty(),
            ends.1.max_packet_count == max_packet_count,
    {
        let (send_tx_v4, rx_v4) = channel::send_channel(capacity);
        let (send_tx_v6, rx_v6) = channel::send_channel(capacity);
        let task = SendTask { rx_v4, rx_v6, buf_v4: Vec::new(), buf_v6: Vec::new(), max_packet_count };
        (BufferedUdpSend { send_tx_v4, send_tx_v6 }, task)
    }

    /// The channel that a packet for `destination` is sent on, and what is sent on it.
    pub fn send_to(&self, packet: Packet, destination: SocketAddr) -> (sending: (
        &mpsc::Sender<Datagram>,
        Datagram,
    ))
        ensures
            *sending.0 == self.tx_for(destination.family()),
            (*sending.0, sending.1) == sending_of(*self, packet, destination),
            destination is V4 ==> *sending.0 == self.tx_v4(),
            destination is V6 ==> *sending.0 == self.tx_v6(),
            sending.1 == (packet, destination),
    {
        let tx = match destination {
            SocketAddr::V4(..) => &self.send_tx_v4,
            SocketAddr::V6(..) => &self.send_tx_v6,
        };
        (tx, (packet, destination))
    }

    /// How many packets can be sent before a caller has to wait, if the task takes none: the number
    /// of slots of either channel.
    pub fn max_number_of_packets_to_send(&self) -> (count: usize)
        ensures
            count == channel::send_limit(self.tx_v4()),
            count == channel::send_limit(self.tx_v6()),
    {
        proof {
            use_type_invariant(self);
        }
        channel::max_capacity(&self.send_tx_v4)
    }
}

impl Clone for BufferedUdpSend {
    /// A second handle on the same two channels.
    fn clone(&self) -> (copy: Self)
        ensures
            copy.shares_channels_with(*self),
            channel::send_limit(copy.tx_v4()) == channel::send_limit(self.tx_v4()),
            channel::send_limit(copy.tx_v6()) == channel::send_limit(self.tx_v6()),
            forall|rx: mpsc::Receiver<Datagram>|
                channel::send_linked(copy.tx_v4(), rx) == channel::send_linked(self.tx_v4(), rx),
            forall|rx: mpsc::Receiver<Datagram>|
                channel::send_linked(copy.tx_v6(), rx) == channel::send_linked(self.tx_v6(), rx),
    {
        proof {
            use_type_invariant(self);
        }
        let send_tx_v4 = channel::clone_sender(&self.send_tx_v4);
        let send_tx_v6 = channel::clone_sender(&self.send_tx_v6);
        BufferedUdpSend { send_tx_v4, send_tx_v6 }
    }
}

impl SendTask {
    /// Where packets with an address of `family` come from.
    pub open spec fn rx_for(self, family: Family) -> mpsc::Receiver<Datagram> {
        match family {
            Family::V4 => self.rx_v4,
            Family::V6 => self.rx_v6,
        }
    }

    /// The packets of `family` that were taken from their channel.
    pub open spec fn buf(self, family: Family) -> Seq<Datagram> {
        match family {
            Family::V4 => self.buf_v4@,
            Family::V6 => self.buf_v6@,
        }
    }

    /// Nothing but the buffer of `family` differs from `before`.
    pub open spec fn same_but_buf(self, before: Self, family: Family) -> bool {
        &&& self.rx_v4 == before.rx_v4
        &&& self.rx_v6 == before.rx_v6
        &&& self.max_packet_count == before.max_packet_count
        &&& family is V4 ==> self.buf_v6 == before.buf_v6
        &&& family is V6 ==> self.buf_v4 == before.buf_v4
    }

    /// Decides what to do once `count` packets were taken from the channel of `family` and added to
    /// the end of its buffer.
    pub fn received(&mut self, family: Family, count: usize) -> (step: SendStep)
        requires
            count == 1 ==> old(self).buf(family).len() > 0,
        ensures
            (final(self).buf(family), step) == on_received(old(self).buf(family), count as nat),
            final(self).same_but_buf(*old(self), family),
            count == 0 ==> step is Stop,
            count >= 2 ==> step is SendMany,
            count != 1 ==> final(self).buf_v4@ == old(self).buf_v4@,
            count != 1 ==> final(self).buf_v6@ == old(self).buf_v6@,
            count == 1 && family is V4 ==> {
                &&& step is Send
                &&& old(self).buf_v4@ == final(self).buf_v4@.push((step->Send_0, step->Send_1))
                &&& final(self).buf_v6@ == old(self).buf_v6@
            },
            count == 1 && family is V6 ==> {
                &&& step is Send
                &&& old(self).buf_v6@ == final(self).buf_v6@.push((step->Send_0, step->Send_1))
                &&& final(self).buf_v4@ == old(self).buf_v4@
            },
            final(self).rx_v4 == old(self).rx_v4,
            final(self).rx_v6 == old(self).rx_v6,
            final(self).max_packet_count == old(self).max_packet_count,
    {
        if count == 0 {
            return SendStep::Stop;
        }
        if count > 1 {
            return SendStep::SendMany;
        }
        let last = match family {
            Family::V4 => self.buf_v4.pop(),
            Family::V6 => self.buf_v6.pop(),
        };
        let (packet, addr) = last.expect("received 1 packet into buf");
        SendStep::Send(packet, addr)
    }

    /// Takes note of what became of a buffer that was handed to the transport whole. After an error
    /// the packets that are still in it are given up. Returns how many were.
    pub fn sent_many(&mut self, family: Family, outcome: Result<(), io::Error>) -> (dropped: usize)
        ensures
            final(self).buf(family) == after_sent_many(old(self).buf(family), outcome is Ok),
            dropped == old(self).buf(family).len() - final(self).buf(family).len(),
            final(self).same_but_buf(*old(self), family),
            outcome is Ok ==> dropped == 0,
            outcome is Ok ==> final(self).buf_v4@ == old(self).buf_v4@,
            outcome is Ok ==> final(self).buf_v6@ == old(self).buf_v6@,
            outcome is Err && family is V4 ==> {
                &&& dropped == old(self).buf_v4@.len()
                &&& final(self).buf_v4@.len() == 0
                &&& final(self).buf_v6@ == old(self).buf_v6@
            },
            outcome is Err && family is V6 ==> {
                &&& dropped == old(self).buf_v6@.len()
                &&& final(self).buf_v6@.len() == 0
                &&& final(self).buf_v4@ == old(self).buf_v4@
            },
            final(self).rx_v4 == old(self).rx_v4,
            final(self).rx_v6 == old(self).rx_v6,
            final(self).max_packet_count == old(self).max_packet_count,
    {
        if outcome.is_ok() {
            return 0;
        }
        match family {
            Family::V4 => {
                let dropped = self.buf_v4.len();
                self.buf_v4.clear();
                dropped
            },
            Family::V6 => {
                let dropped = self.buf_v6.len();
                self.buf_v6.clear();
                dropped
            },
        }
    }
}

} // verus!
