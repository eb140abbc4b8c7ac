//! What holds of whole runs of a send task, from the handles that callers send on to the calls that
//! the transport gets.
use crate::channel;
use crate::packet;
use crate::packet::{Datagram, Family, Packet, SocketAddr};
use crate::send;
use crate::send::{BufferedUdpSend, SendStep, SendTask};
use tokio::sync::mpsc;
use vstd::prelude::*;

verus! {

/// One round of a send task: the packets that were taken from the channel of a family, and, where
/// the whole buffer was handed to the transport, whether that went well and which packets the
/// transport left in the buffer.
pub struct Round {
    pub family: Family,
    pub taken: Seq<Datagram>,
    pub ok: bool,
    pub left: Seq<Datagram>,
}

/// A packet that a caller sends, with the sender that it is sent on.
pub type Sending = (mpsc::Sender<Datagram>, Datagram);

/// A call of the transport.
pub enum Call {
    /// One packet is sent alone.
    One(Packet, SocketAddr),
    /// Packets are sent at once.
    Many(Seq<Datagram>),
}

/// How far a task has come: what its buffers hold, the calls that the transport got, and whether the
/// task has ended.
#[verifier::ext_equal]
pub struct Run {
    pub buf_v4: Seq<Datagram>,
    pub buf_v6: Seq<Datagram>,
    pub calls: Seq<Call>,
    pub ended: bool,
}

impl Call {
    /// The packets that the transport is handed with this call.
    pub open spec fn packets(self) -> Seq<Datagram> {
        match self {
            Call::One(packet, addr) => seq![(packet, addr)],
            Call::Many(datagrams) => datagrams,
        }
    }
}

impl Run {
    /// What the buffer of `family` holds.
    pub open spec fn buf(self, family: Family) -> Seq<Datagram> {
        match family {
            Family::V4 => self.buf_v4,
            Family::V6 => self.buf_v6,
        }
    }

    /// The same, with `buf` in the buffer of `family`.
    pub open spec fn with_buf(self, family: Family, buf: Seq<Datagram>) -> Run {
        match family {
            Family::V4 => Run { buf_v4: buf, ..self },
            Family::V6 => Run { buf_v6: buf, ..self },
        }
    }
}

/// The run goes on with one round, and with what the task decides to do in it.
pub open spec fn advance(run: Run, round: Round) -> Run {
    if run.ended {
        run
    } else {
        let (buf, step) = send::on_received(
            run.buf(round.family) + round.taken,
            round.taken.len(),
        );
        match step {
            SendStep::Stop => Run { ended: true, ..run.with_buf(round.family, buf) },
            SendStep::Send(packet, addr) => Run {
                calls: run.calls.push(Call::One(packet, addr)),
                ..run.with_buf(round.family, buf)
            },
            SendStep::SendMany => Run {
                calls: run.calls.push(Call::Many(buf)),
                ..run.with_buf(round.family, send::after_sent_many(round.left, round.ok))
            },
        }
    }
}

/// The run of a new task over these rounds.
pub open spec fn run(rounds: Seq<Round>) -> Run
    decreases rounds.len(),
{
    if rounds.len() == 0 {
        Run { buf_v4: Seq::empty(), buf_v6: Seq::empty(), calls: Seq::empty(), ended: false }
    } else {
        advance(run(rounds.drop_last()), rounds.last())
    }
}

/// The call that hands exactly these packets to the transport.
pub open spec fn call_for(datagrams: Seq<Datagram>) -> Call {
    if datagrams.len() == 1 {
        Call::One(datagrams[0].0, datagrams[0].1)
    } else {
        Call::Many(datagrams)
    }
}

/// In every round the channel gives a packet.
pub open spec fn gives_packets(rounds: Seq<Round>) -> bool {
    forall|i: int| 0 <= i < rounds.len() ==> (#[trigger] rounds[i]).taken.len() > 0
}

/// No round takes more packets from its channel than `max_packet_count`.
pub open spec fn takes_at_most(rounds: Seq<Round>, max_packet_count: usize) -> bool {
    forall|i: int|
        0 <= i < rounds.len() ==> (#[trigger] rounds[i]).taken.len() <= max_packet_count
}

/// A transport that reports success has taken every packet out of the buffer.
pub open spec fn empties_the_buffer(rounds: Seq<Round>) -> bool {
    forall|i: int|
        0 <= i < rounds.len() && (#[trigger] rounds[i]).ok ==> rounds[i].left.len() == 0
}

/// A transport that reports success has added no packet to the buffer: what is left there is of what
/// it was handed.
pub open spec fn adds_no_packet(rounds: Seq<Round>) -> bool {
    forall|i: int, datagram: Datagram|
        0 <= i < rounds.len() && rounds[i].ok && (#[trigger] rounds[i].left.contains(datagram))
            ==> (run(rounds.take(i)).buf(rounds[i].family) + rounds[i].taken).contains(datagram)
}

/// The packets that were taken from the channel of `family` in these rounds, in order.
pub open spec fn taken_of(rounds: Seq<Round>, family: Family) -> Seq<Datagram>
    decreases rounds.len(),
{
    if rounds.len() == 0 {
        Seq::empty()
    } else if rounds.last().family == family {
        taken_of(rounds.drop_last(), family) + rounds.last().taken
    } else {
        taken_of(rounds.drop_last(), family)
    }
}

/// The packets with an address of `family`, in order.
pub open spec fn of_family(datagrams: Seq<Datagram>, family: Family) -> Seq<Datagram> {
    match family {
        Family::V4 => datagrams.filter(|datagram: Datagram| datagram.1 is V4),
        Family::V6 => datagrams.filter(|datagram: Datagram| datagram.1 is V6),
    }
}

/// The packets with an address of `family` that the transport was handed with these calls, in order.
pub open spec fn handed_of(calls: Seq<Call>, family: Family) -> Seq<Datagram>
    decreases calls.len(),
{
    if calls.len() == 0 {
        Seq::empty()
    } else {
        handed_of(calls.drop_last(), family) + of_family(calls.last().packets(), family)
    }
}

/// The packets that were sent on a channel which ends at `rx`, in order.
pub open spec fn arrivals(sends: Seq<Sending>, rx: mpsc::Receiver<Datagram>) -> Seq<Datagram> {
    sends.filter(|sending: Sending| channel::send_linked(sending.0, rx)).map_values(
        |sending: Sending| sending.1,
    )
}

/// The packets that were sent, in order.
pub open spec fn datagrams(sends: Seq<Sending>) -> Seq<Datagram> {
    sends.map_values(|sending: Sending| sending.1)
}

/// The packet is sent with one of the handles, on the channel that the handle has for its address.
pub open spec fn sent_with_one_of(sending: Sending, handles: Seq<BufferedUdpSend>) -> bool {
    exists|i: int|
        0 <= i < handles.len() && sending == send::sending_of(
            #[trigger] handles[i],
            sending.1.0,
            sending.1.1,
        )
}

/// Handle `i` was cloned from one of those before it.
pub open spec fn cloned_from_earlier(handles: Seq<BufferedUdpSend>, i: int) -> bool {
    exists|j: int| 0 <= j < i && handles[i].shares_channels_with(#[trigger] handles[j])
}

/// These are handles of `task`: the one that was made with it, and clones of it and of its clones.
pub open spec fn are_handles_of(handles: Seq<BufferedUdpSend>, task: SendTask) -> bool {
    &&& handles.len() > 0
    &&& handles[0].sends_to(task)
    &&& forall|i: int| 0 < i < handles.len() ==> cloned_from_earlier(handles, i)
}

/// Callers send these packets with handles of `task`. A sender is an end of one channel only, so none
/// is linked to both receivers of the task.
pub open spec fn sent_to(
    sends: Seq<Sending>,
    handles: Seq<BufferedUdpSend>,
    task: SendTask,
) -> bool {
    &&& are_handles_of(handles, task)
    &&& forall|k: int| 0 <= k < sends.len() ==> sent_with_one_of(#[trigger] sends[k], handles)
    &&& forall|k: int|
        0 <= k < sends.len() ==> !(channel::send_linked((#[trigger] sends[k]).0, task.rx_v4)
            && channel::send_linked(sends[k].0, task.rx_v6))
}

/// A channel gives its packets in the order in which they were sent on it: what the task takes from it
/// in these rounds is the first part of them.
pub open spec fn taken_in_order(rounds: Seq<Round>, sends: Seq<Sending>, task: SendTask) -> bool {
    forall|family: Family|
        (#[trigger] taken_of(rounds, family)).is_prefix_of(arrivals(sends, task.rx_for(family)))
}

/// What the task takes from the channel of a family is the first part of the packets of that family.
spec fn come_from(rounds: Seq<Round>, sent: Seq<Datagram>) -> bool {
    forall|family: Family|
        (#[trigger] taken_of(rounds, family)).is_prefix_of(of_family(sent, family))
}

/// All these packets have addresses of one family.
pub open spec fn unmixed(datagrams: Seq<Datagram>) -> bool {
    ||| forall|i: int| 0 <= i < datagrams.len() ==> (#[trigger] datagrams[i]).1 is V4
    ||| forall|i: int| 0 <= i < datagrams.len() ==> (#[trigger] datagrams[i]).1 is V6
}

/// The rounds take packets of the right family only.
spec fn sorted_by_family(rounds: Seq<Round>) -> bool {
    forall|i: int|
        0 <= i < rounds.len() ==> packet::all_of_family(
            (#[trigger] rounds[i]).taken,
            rounds[i].family,
        )
}

proof fn lemma_earlier_rounds(rounds: Seq<Round>)
    requires
        rounds.len() > 0,
    ensures
        gives_packets(rounds) ==> gives_packets(rounds.drop_last()),
        empties_the_buffer(rounds) ==> empties_the_buffer(rounds.drop_last()),
        adds_no_packet(rounds) ==> adds_no_packet(rounds.drop_last()),
        sorted_by_family(rounds) ==> sorted_by_family(rounds.drop_last()),
        rounds.last() == rounds[rounds.len() - 1],
{
    let earlier = rounds.drop_last();
    assert(forall|i: int| 0 <= i < earlier.len() ==> #[trigger] earlier[i] == rounds[i]);
    if adds_no_packet(rounds) {
        assert forall|i: int, datagram: Datagram|
            0 <= i < earlier.len() && earlier[i].ok && (#[trigger] earlier[i].left.contains(
                datagram,
            )) implies (run(earlier.take(i)).buf(earlier[i].family) + earlier[i].taken).contains(
            datagram,
        ) by {
            assert(rounds[i].left.contains(datagram));
            assert(earlier.take(i) =~= rounds.take(i));
        }
    }
}

proof fn lemma_family_of_filtered(datagrams: Seq<Datagram>, family: Family)
    ensures
        packet::all_of_family(of_family(datagrams, family), family),
    decreases datagrams.len(),
{
    reveal(Seq::filter);
    if datagrams.len() > 0 {
        lemma_family_of_filtered(datagrams.drop_last(), family);
    }
}

proof fn lemma_filter_unmixed(datagrams: Seq<Datagram>, family: Family, other: Family)
    requires
        packet::all_of_family(datagrams, family),
    ensures
        of_family(datagrams, other) == if other == family {
            datagrams
        } else {
            Seq::empty()
        },
    decreases datagrams.len(),
{
    reveal(Seq::filter);
    if datagrams.len() > 0 {
        let earlier = datagrams.drop_last();
        assert forall|i: int| 0 <= i < earlier.len() implies (#[trigger] earlier[i]).1.family()
            == family by {
            assert(earlier[i] == datagrams[i]);
        }
        lemma_filter_unmixed(earlier, family, other);
        assert(datagrams[datagrams.len() - 1].1.family() == family);
        if other == family {
            assert(earlier.push(datagrams.last()) =~= datagrams);
        }
    }
}

proof fn lemma_earlier_come_from(rounds: Seq<Round>, sends: Seq<Datagram>)
    requires
        rounds.len() > 0,
        come_from(rounds, sends),
    ensures
        come_from(rounds.drop_last(), sends),
{
    let earlier = rounds.drop_last();
    assert forall|family: Family| (#[trigger] taken_of(earlier, family)).is_prefix_of(
        of_family(sends, family),
    ) by {
        assert(taken_of(rounds, family).is_prefix_of(of_family(sends, family)));
        assert(taken_of(earlier, family).is_prefix_of(taken_of(rounds, family)));
    }
}

proof fn lemma_taken_is_sorted(rounds: Seq<Round>, sends: Seq<Datagram>)
    requires
        come_from(rounds, sends),
    ensures
        sorted_by_family(rounds),
    decreases rounds.len(),
{
    if rounds.len() > 0 {
        let earlier = rounds.drop_last();
        let last = rounds.last();
        lemma_earlier_come_from(rounds, sends);
        lemma_taken_is_sorted(earlier, sends);
        let all = taken_of(rounds, last.family);
        let sent = of_family(sends, last.family);
        lemma_family_of_filtered(sends, last.family);
        assert(all.is_prefix_of(sent));
        assert(packet::all_of_family(last.taken, last.family)) by {
            let n = taken_of(earlier, last.family).len() as int;
            assert forall|i: int| 0 <= i < last.taken.len() implies (#[trigger]
            last.taken[i]).1.family() == last.family by {
                assert(all[n + i] == last.taken[i]);
                assert(sent[n + i].1.family() == last.family);
            }
        }
        assert forall|i: int| 0 <= i < rounds.len() implies packet::all_of_family(
            (#[trigger] rounds[i]).taken,
            rounds[i].family,
        ) by {
            if i < earlier.len() {
                assert(rounds[i] == earlier[i]);
            }
        }
    }
}

proof fn lemma_buffers_stay_empty(rounds: Seq<Round>)
    requires
        empties_the_buffer(rounds),
    ensures
        forall|family: Family| (#[trigger] run(rounds).buf(family)) == Seq::<Datagram>::empty(),
    decreases rounds.len(),
{
    if rounds.len() > 0 {
        let earlier = rounds.drop_last();
        let last = rounds.last();
        lemma_earlier_rounds(rounds);
        lemma_buffers_stay_empty(earlier);
        let before = run(earlier).buf(last.family);
        assert(before + last.taken =~= last.taken);
        if last.taken.len() == 1 {
            assert(last.taken.drop_last() =~= Seq::empty());
        }
        assert forall|family: Family| (#[trigger] run(rounds).buf(family)) == Seq::<
            Datagram,
        >::empty() by {
            assert(run(earlier).buf(family) == Seq::<Datagram>::empty());
            assert(run(rounds).buf(family) =~= Seq::empty());
        }
    }
}

proof fn lemma_emptied_adds_no_packet(rounds: Seq<Round>)
    requires
        empties_the_buffer(rounds),
    ensures
        adds_no_packet(rounds),
{
    assert forall|i: int, datagram: Datagram|
        0 <= i < rounds.len() && rounds[i].ok && (#[trigger] rounds[i].left.contains(
            datagram,
        )) implies (run(rounds.take(i)).buf(rounds[i].family) + rounds[i].taken).contains(
        datagram,
    ) by {
        assert(rounds[i].left.len() == 0);
    }
}

proof fn lemma_families_stay_apart(rounds: Seq<Round>)
    requires
        sorted_by_family(rounds),
        adds_no_packet(rounds),
    ensures
        forall|family: Family|
            packet::all_of_family(#[trigger] run(rounds).buf(family), family),
        forall|i: int|
            0 <= i < run(rounds).calls.len() ==> unmixed(
                (#[trigger] run(rounds).calls[i]).packets(),
            ),
    decreases rounds.len(),
{
    if rounds.len() > 0 {
        let earlier = rounds.drop_last();
        let last = rounds.last();
        let n = rounds.len() - 1;
        lemma_earlier_rounds(rounds);
        lemma_families_stay_apart(earlier);
        assert(rounds.take(n) =~= earlier);
        let before = run(earlier).buf(last.family);
        let all = before + last.taken;
        assert(packet::all_of_family(before, last.family));
        assert(packet::all_of_family(last.taken, last.family));
        assert(packet::all_of_family(all, last.family)) by {
            assert forall|i: int| 0 <= i < all.len() implies (#[trigger] all[i]).1.family()
                == last.family by {
                if i < before.len() {
                    assert(all[i] == before[i]);
                } else {
                    assert(all[i] == last.taken[i - before.len()]);
                }
            }
        }
        let now = run(rounds);
        assert(packet::all_of_family(now.buf(last.family), last.family)) by {
            let buf = now.buf(last.family);
            assert forall|i: int| 0 <= i < buf.len() implies (#[trigger] buf[i]).1.family()
                == last.family by {
                if !run(earlier).ended && last.taken.len() >= 2 {
                    assert(rounds[n].left.contains(buf[i]));
                    let j = choose|j: int| 0 <= j < all.len() && all[j] == buf[i];
                    assert(all[j].1.family() == last.family);
                } else if !run(earlier).ended {
                    assert(buf[i] == all[i]);
                } else {
                    assert(buf[i] == before[i]);
                }
            }
        }
        assert forall|family: Family| packet::all_of_family(
            #[trigger] now.buf(family),
            family,
        ) by {
            if family != last.family {
                assert(now.buf(family) == run(earlier).buf(family));
            }
        }
        assert forall|i: int| 0 <= i < now.calls.len() implies unmixed(
            (#[trigger] now.calls[i]).packets(),
        ) by {
            if i < run(earlier).calls.len() {
                assert(now.calls[i] == run(earlier).calls[i]);
            } else {
                let packets = now.calls[i].packets();
                assert(packet::all_of_family(packets, last.family)) by {
                    assert forall|k: int| 0 <= k < packets.len() implies (#[trigger]
                    packets[k]).1.family() == last.family by {
                        if last.taken.len() == 1 {
                            assert(packets[k] == all[all.len() - 1]);
                        } else {
                            assert(packets[k] == all[k]);
                        }
                    }
                }
                match last.family {
                    Family::V4 => {},
                    Family::V6 => {},
                }
            }
        }
    }
}

/// With a transport that empties the buffer, the transport gets one call for each round, with exactly
/// the packets of that round: a single packet is sent alone, several are sent at once. Whether the
/// calls succeed makes no difference. The buffers are empty between two rounds, and the task goes on.
pub proof fn law_each_round_is_one_call(rounds: Seq<Round>)
    requires
        empties_the_buffer(rounds),
        gives_packets(rounds),
    ensures
        !run(rounds).ended,
        run(rounds).calls.len() == rounds.len(),
        forall|i: int|
            0 <= i < rounds.len() ==> (#[trigger] run(rounds).calls[i]) == call_for(
                rounds[i].taken,
            ),
        forall|family: Family| (#[trigger] run(rounds).buf(family)) == Seq::<Datagram>::empty(),
    decreases rounds.len(),
{
    lemma_buffers_stay_empty(rounds);
    if rounds.len() > 0 {
        let earlier = rounds.drop_last();
        let last = rounds.last();
        lemma_earlier_rounds(rounds);
        lemma_buffers_stay_empty(earlier);
        law_each_round_is_one_call(earlier);
        assert(run(earlier).buf(last.family) + last.taken =~= last.taken);
        assert forall|i: int| 0 <= i < rounds.len() implies (#[trigger] run(rounds).calls[i])
            == call_for(rounds[i].taken) by {
            if i < earlier.len() {
                assert(run(rounds).calls[i] == run(earlier).calls[i]);
                assert(rounds[i] == earlier[i]);
            }
        }
    }
}

/// With a transport that empties the buffer, every call that sends packets at once has at least two
/// of them, and no more than the task takes from a channel at once.
pub proof fn law_batches_are_bounded(rounds: Seq<Round>, max_packet_count: usize)
    requires
        empties_the_buffer(rounds),
        takes_at_most(rounds, max_packet_count),
    ensures
        forall|i: int|
            0 <= i < run(rounds).calls.len() ==> ((#[trigger] run(rounds).calls[i]) matches
                Call::Many(datagrams) ==> 2 <= datagrams.len() <= max_packet_count),
    decreases rounds.len(),
{
    if rounds.len() > 0 {
        let earlier = rounds.drop_last();
        let last = rounds.last();
        lemma_earlier_rounds(rounds);
        assert(forall|i: int| 0 <= i < earlier.len() ==> #[trigger] earlier[i] == rounds[i]);
        law_batches_are_bounded(earlier, max_packet_count);
        lemma_buffers_stay_empty(earlier);
        assert(run(earlier).buf(last.family) + last.taken =~= last.taken);
        assert forall|i: int| 0 <= i < run(rounds).calls.len() implies ((#[trigger] run(
            rounds,
        ).calls[i]) matches Call::Many(datagrams) ==> 2 <= datagrams.len()
            <= max_packet_count) by {
            if i < run(earlier).calls.len() {
                assert(run(rounds).calls[i] == run(earlier).calls[i]);
            }
        }
    }
}

/// A round without a packet causes no call.
pub proof fn law_an_empty_round_causes_no_call(rounds: Seq<Round>, last: Round)
    requires
        last.taken.len() == 0,
    ensures
        run(rounds.push(last)).calls == run(rounds).calls,
        run(rounds.push(last)).ended,
{
    assert(rounds.push(last).drop_last() =~= rounds);
}

/// The task goes on as long as its channels give packets, and only so long.
pub proof fn law_task_goes_on_while_packets_come(rounds: Seq<Round>)
    ensures
        run(rounds).ended <==> !gives_packets(rounds),
    decreases rounds.len(),
{
    if rounds.len() > 0 {
        let earlier = rounds.drop_last();
        lemma_earlier_rounds(rounds);
        law_task_goes_on_while_packets_come(earlier);
        if gives_packets(earlier) && rounds.last().taken.len() > 0 {
            assert forall|i: int| 0 <= i < rounds.len() implies (#[trigger]
            rounds[i]).taken.len() > 0 by {
                if i < earlier.len() {
                    assert(rounds[i] == earlier[i]);
                }
            }
        }
    }
}

/// Nothing happens after the task has ended.
pub proof fn law_nothing_after_the_end(rounds: Seq<Round>, more: Seq<Round>)
    requires
        run(rounds).ended,
    ensures
        run(rounds + more) == run(rounds),
    decreases more.len(),
{
    if more.len() == 0 {
        assert(rounds + more =~= rounds);
    } else {
        law_nothing_after_the_end(rounds, more.drop_last());
        assert((rounds + more).drop_last() =~= rounds + more.drop_last());
    }
}

/// If the transport takes no packet at once, none is ever handed to it: the task ends in its first
/// round.
pub proof fn law_a_limit_of_zero_sends_nothing(rounds: Seq<Round>)
    requires
        takes_at_most(rounds, 0),
    ensures
        run(rounds).calls == Seq::<Call>::empty(),
        rounds.len() > 0 ==> run(rounds).ended,
    decreases rounds.len(),
{
    if rounds.len() > 0 {
        let earlier = rounds.drop_last();
        assert(forall|i: int| 0 <= i < earlier.len() ==> #[trigger] earlier[i] == rounds[i]);
        law_a_limit_of_zero_sends_nothing(earlier);
        assert(rounds[rounds.len() - 1].taken.len() == 0);
    }
}

/// The two rounds leave the same in the buffer: both fail, or both succeed and leave the same, or one
/// succeeds and, like the one that fails, leaves nothing.
pub open spec fn leave_the_same(a: Round, b: Round) -> bool {
    &&& a.ok && b.ok ==> a.left == b.left
    &&& a.ok && !b.ok ==> a.left.len() == 0
    &&& !a.ok && b.ok ==> b.left.len() == 0
}

/// A failed call does not matter to the others: they are made with the same packets as if it had
/// succeeded and taken all it was handed, whatever it leaves. The run is the same whichever calls fail.
pub proof fn law_a_failed_call_does_not_matter_to_the_others(a: Seq<Round>, b: Seq<Round>)
    requires
        a.len() == b.len(),
        forall|i: int|
            0 <= i < a.len() ==> (#[trigger] a[i]).family == b[i].family && a[i].taken
                == b[i].taken && (a[i].taken.len() >= 2 ==> leave_the_same(a[i], b[i])),
    ensures
        run(a) == run(b),
    decreases a.len(),
{
    if a.len() > 0 {
        assert(forall|i: int|
            0 <= i < a.len() - 1 ==> #[trigger] a.drop_last()[i] == a[i] && b.drop_last()[i]
                == b[i]);
        law_a_failed_call_does_not_matter_to_the_others(a.drop_last(), b.drop_last());
        let n = a.len() - 1;
        assert(a[n].family == b[n].family);
        if a[n].taken.len() >= 2 {
            assert(send::after_sent_many(a[n].left, a[n].ok) =~= send::after_sent_many(
                b[n].left,
                b[n].ok,
            ));
        }
    }
}

/// Whatever the transport does with a batch, nothing of it stays in the buffer after an error.
pub proof fn law_a_failed_batch_is_given_up(rounds: Seq<Round>, last: Round)
    requires
        !run(rounds).ended,
        last.taken.len() >= 2,
        !last.ok,
    ensures
        run(rounds.push(last)).buf(last.family) == Seq::<Datagram>::empty(),
{
    assert(rounds.push(last).drop_last() =~= rounds);
}

/// Every handle that was cloned from a handle of a task, or from such a clone, sends to that same
/// task, on the channel of the family, with the same number of slots. No handle depends on another
/// one being kept.
pub proof fn law_all_clones_send_to_the_same_task(handles: Seq<BufferedUdpSend>, task: SendTask)
    requires
        are_handles_of(handles, task),
    ensures
        forall|i: int, family: Family|
            0 <= i < handles.len() ==> {
                &&& channel::send_linked(
                    #[trigger] handles[i].tx_for(family),
                    task.rx_for(family),
                )
                &&& channel::send_limit(handles[i].tx_for(family)) == channel::send_limit(
                    handles[0].tx_for(family),
                )
            },
    decreases handles.len(),
{
    if handles.len() > 1 {
        let earlier = handles.drop_last();
        let n = handles.len() - 1;
        assert(forall|i: int| 0 <= i < earlier.len() ==> #[trigger] earlier[i] == handles[i]);
        assert forall|i: int| 0 < i < earlier.len() implies cloned_from_earlier(earlier, i) by {
            assert(cloned_from_earlier(handles, i));
            let j = choose|j: int|
                0 <= j < i && handles[i].shares_channels_with(#[trigger] handles[j]);
            assert(earlier[i].shares_channels_with(earlier[j]));
        }
        law_all_clones_send_to_the_same_task(earlier, task);
        assert(cloned_from_earlier(handles, n));
        let j = choose|j: int| 0 <= j < n && handles[n].shares_channels_with(#[trigger] handles[j]);
        assert forall|i: int, family: Family| 0 <= i < handles.len() implies {
            &&& channel::send_linked(#[trigger] handles[i].tx_for(family), task.rx_for(family))
            &&& channel::send_limit(handles[i].tx_for(family)) == channel::send_limit(
                handles[0].tx_for(family),
            )
        } by {
            let from = if i == n {
                j
            } else {
                i
            };
            assert(channel::send_linked(earlier[from].tx_for(family), task.rx_for(family)));
            assert(earlier[from] == handles[from]);
        }
    }
}

proof fn lemma_linked_to_its_family(
    sending: Sending,
    handles: Seq<BufferedUdpSend>,
    task: SendTask,
)
    requires
        are_handles_of(handles, task),
        sent_with_one_of(sending, handles),
        !(channel::send_linked(sending.0, task.rx_v4) && channel::send_linked(
            sending.0,
            task.rx_v6,
        )),
    ensures
        forall|family: Family|
            channel::send_linked(sending.0, #[trigger] task.rx_for(family)) <==> family
                == sending.1.1.family(),
{
    let own = sending.1.1.family();
    law_all_clones_send_to_the_same_task(handles, task);
    let i = choose|i: int|
        0 <= i < handles.len() && sending == send::sending_of(
            #[trigger] handles[i],
            sending.1.0,
            sending.1.1,
        );
    assert(channel::send_linked(handles[i].tx_for(own), task.rx_for(own)));
}

/// Every packet arrives on the channel of its own address family, in the order of sending, and on no
/// other: what arrives at the receiver of a family is what was sent of that family.
pub proof fn law_a_packet_arrives_on_its_own_channel(
    sends: Seq<Sending>,
    handles: Seq<BufferedUdpSend>,
    task: SendTask,
)
    requires
        sent_to(sends, handles, task),
    ensures
        forall|family: Family|
            arrivals(sends, #[trigger] task.rx_for(family)) == of_family(datagrams(sends), family),
        packet::all_of_family(arrivals(sends, task.rx_v4), Family::V4),
        packet::all_of_family(arrivals(sends, task.rx_v6), Family::V6),
        forall|i: int|
            0 <= i < arrivals(sends, task.rx_v4).len() ==> (#[trigger] arrivals(
                sends,
                task.rx_v4,
            )[i]).1 is V4,
        forall|i: int|
            0 <= i < arrivals(sends, task.rx_v6).len() ==> (#[trigger] arrivals(
                sends,
                task.rx_v6,
            )[i]).1 is V6,
        arrivals(sends, task.rx_v4).len() + arrivals(sends, task.rx_v6).len() == sends.len(),
    decreases sends.len(),
{
    reveal(Seq::filter);
    if sends.len() > 0 {
        let earlier = sends.drop_last();
        let last = sends.last();
        assert(forall|k: int| 0 <= k < earlier.len() ==> #[trigger] earlier[k] == sends[k]);
        law_a_packet_arrives_on_its_own_channel(earlier, handles, task);
        assert(sent_with_one_of(sends[sends.len() - 1], handles));
        lemma_linked_to_its_family(last, handles, task);
        assert(datagrams(sends).drop_last() =~= datagrams(earlier));
        assert(datagrams(sends).last() == last.1);
        assert forall|family: Family| arrivals(sends, #[trigger] task.rx_for(family)) == of_family(
            datagrams(sends),
            family,
        ) by {
            let before = arrivals(earlier, task.rx_for(family));
            assert(before == of_family(datagrams(earlier), family));
            if family == last.1.1.family() {
                assert(arrivals(sends, task.rx_for(family)) =~= before.push(last.1));
            } else {
                assert(arrivals(sends, task.rx_for(family)) =~= before);
            }
        }
        assert(task.rx_for(Family::V4) == task.rx_v4);
        assert(task.rx_for(Family::V6) == task.rx_v6);
        match last.1.1.family() {
            Family::V4 => {
                assert(arrivals(sends, task.rx_v4) =~= arrivals(earlier, task.rx_v4).push(last.1));
                assert(arrivals(sends, task.rx_v6) =~= arrivals(earlier, task.rx_v6));
            },
            Family::V6 => {
                assert(arrivals(sends, task.rx_v6) =~= arrivals(earlier, task.rx_v6).push(last.1));
                assert(arrivals(sends, task.rx_v4) =~= arrivals(earlier, task.rx_v4));
            },
        }
    } else {
        assert forall|family: Family| arrivals(sends, #[trigger] task.rx_for(family)) == of_family(
            datagrams(sends),
            family,
        ) by {
            assert(arrivals(sends, task.rx_for(family)) =~= Seq::empty());
            assert(of_family(datagrams(sends), family) =~= Seq::empty());
        }
    }
}

proof fn lemma_taken_comes_from_sends(
    rounds: Seq<Round>,
    sends: Seq<Sending>,
    handles: Seq<BufferedUdpSend>,
    task: SendTask,
)
    requires
        sent_to(sends, handles, task),
        taken_in_order(rounds, sends, task),
    ensures
        come_from(rounds, datagrams(sends)),
{
    law_a_packet_arrives_on_its_own_channel(sends, handles, task);
    assert forall|family: Family| (#[trigger] taken_of(rounds, family)).is_prefix_of(
        of_family(datagrams(sends), family),
    ) by {
        assert(taken_of(rounds, family).is_prefix_of(arrivals(sends, task.rx_for(family))));
    }
}

/// No call of the transport has IPv4 and IPv6 packets together, for whatever callers send, with
/// whichever handle. The transport either empties the buffer, or at least adds no packet to it.
pub proof fn law_batches_do_not_mix_families(
    rounds: Seq<Round>,
    sends: Seq<Sending>,
    handles: Seq<BufferedUdpSend>,
    task: SendTask,
)
    requires
        sent_to(sends, handles, task),
        taken_in_order(rounds, sends, task),
        empties_the_buffer(rounds) || adds_no_packet(rounds),
    ensures
        forall|i: int|
            0 <= i < run(rounds).calls.len() ==> unmixed(
                (#[trigger] run(rounds).calls[i]).packets(),
            ),
        forall|i: int, j: int, k: int|
            0 <= i < run(rounds).calls.len() && 0 <= j < run(rounds).calls[i].packets().len() && 0
                <= k < run(rounds).calls[i].packets().len() ==> ((#[trigger] run(
                rounds,
            ).calls[i].packets()[j]).1 is V4 <==> (#[trigger] run(
                rounds,
            ).calls[i].packets()[k]).1 is V4),
{
    if empties_the_buffer(rounds) {
        lemma_emptied_adds_no_packet(rounds);
    }
    lemma_taken_comes_from_sends(rounds, sends, handles, task);
    lemma_taken_is_sorted(rounds, datagrams(sends));
    lemma_families_stay_apart(rounds);
}

proof fn lemma_handed_is_taken(rounds: Seq<Round>, sent: Seq<Datagram>, family: Family)
    requires
        come_from(rounds, sent),
        empties_the_buffer(rounds),
    ensures
        handed_of(run(rounds).calls, family).is_prefix_of(taken_of(rounds, family)),
        gives_packets(rounds) ==> handed_of(run(rounds).calls, family) == taken_of(rounds, family),
    decreases rounds.len(),
{
    if rounds.len() > 0 {
        let earlier = rounds.drop_last();
        let last = rounds.last();
        let calls = run(rounds).calls;
        lemma_earlier_rounds(rounds);
        lemma_earlier_come_from(rounds, sent);
        lemma_handed_is_taken(earlier, sent, family);
        law_task_goes_on_while_packets_come(rounds);
        law_task_goes_on_while_packets_come(earlier);
        assert(taken_of(earlier, family).is_prefix_of(taken_of(rounds, family)));
        if run(rounds).ended {
            assert(calls == run(earlier).calls);
        } else {
            law_each_round_is_one_call(rounds);
            law_each_round_is_one_call(earlier);
            assert(calls.drop_last() =~= run(earlier).calls);
            assert(calls[rounds.len() - 1] == call_for(last.taken));
            assert(calls.last().packets() =~= last.taken);
            lemma_taken_is_sorted(rounds, sent);
            lemma_filter_unmixed(last.taken, last.family, family);
            assert(handed_of(calls, family) =~= taken_of(rounds, family));
        }
    }
}

/// With a transport that empties the buffer, the packets of a family that it is handed are the first
/// that callers sent of that family, each once, in the order in which they were sent, also after the
/// task has ended. While the task goes on, they are all that was taken from the channel of the family.
pub proof fn law_packets_arrive_in_sending_order(
    rounds: Seq<Round>,
    sends: Seq<Sending>,
    handles: Seq<BufferedUdpSend>,
    task: SendTask,
    family: Family,
)
    requires
        sent_to(sends, handles, task),
        taken_in_order(rounds, sends, task),
        empties_the_buffer(rounds),
    ensures
        handed_of(run(rounds).calls, family).is_prefix_of(of_family(datagrams(sends), family)),
        !run(rounds).ended ==> handed_of(run(rounds).calls, family) == taken_of(rounds, family),
{
    lemma_taken_comes_from_sends(rounds, sends, handles, task);
    lemma_handed_is_taken(rounds, datagrams(sends), family);
    law_task_goes_on_while_packets_come(rounds);
    assert(taken_of(rounds, family).is_prefix_of(of_family(datagrams(sends), family)));
}

/// The variant of the destination decides the channel, whatever the address holds: an IPv4 packet, and
/// only such a packet, comes out at the IPv4 receiver of the task, and an IPv6 packet, and only such a
/// packet, at the IPv6 receiver. The packet and its destination are sent as they are.
pub proof fn law_the_destination_decides_the_channel(
    handle: BufferedUdpSend,
    task: SendTask,
    packet: Packet,
    destination: SocketAddr,
)
    requires
        channel::send_linked(handle.tx_v4(), task.rx_v4),
        channel::send_linked(handle.tx_v6(), task.rx_v6),
        !channel::send_linked(handle.tx_v4(), task.rx_v6),
        !channel::send_linked(handle.tx_v6(), task.rx_v4),
    ensures
        ({
            let sending = send::sending_of(handle, packet, destination);
            &&& sending.1 == (packet, destination)
            &&& sending.0 == handle.tx_v4() <==> destination is V4
            &&& sending.0 == handle.tx_v6() <==> destination is V6
            &&& channel::send_linked(sending.0, task.rx_v4) <==> destination is V4
            &&& channel::send_linked(sending.0, task.rx_v6) <==> destination is V6
        }),
{
}

/// The number of packets that were taken decides what follows. With none the task ends and the buffer
/// stays; a single one is sent alone and leaves the buffer as it was before; more are sent at once
/// with all that the buffer holds.
pub proof fn law_the_count_decides_the_step(buf: Seq<Datagram>, taken: Seq<Datagram>)
    ensures
        ({
            let (after, step) = send::on_received(buf + taken, taken.len());
            &&& step is Stop <==> taken.len() == 0
            &&& step is Send <==> taken.len() == 1
            &&& step is SendMany <==> taken.len() >= 2
            &&& taken.len() == 0 ==> after == buf
            &&& taken.len() == 1 ==> after == buf && (step->Send_0, step->Send_1) == taken[0]
            &&& taken.len() >= 2 ==> after == buf + taken
        }),
{
    if taken.len() == 0 {
        assert(buf + taken =~= buf);
    } else if taken.len() == 1 {
        assert((buf + taken).drop_last() =~= buf);
    }
}

/// In each round the transport gets at most one call, whatever it did before: a single packet goes
/// alone, also when the buffer holds others, and those stay; several go at once, behind those that the
/// buffer holds. What the transport leaves of a batch stays after a success and goes after an error.
/// The buffer of the other family is not touched.
pub proof fn law_one_round_at_a_time(rounds: Seq<Round>, last: Round, other: Family)
    requires
        !run(rounds).ended,
        other != last.family,
    ensures
        ({
            let before = run(rounds);
            let after = run(rounds.push(last));
            &&& after.buf(other) == before.buf(other)
            &&& after.ended <==> last.taken.len() == 0
            &&& last.taken.len() == 0 ==> after.calls == before.calls && after.buf(last.family)
                == before.buf(last.family)
            &&& last.taken.len() == 1 ==> {
                &&& after.calls == before.calls.push(
                    Call::One(last.taken[0].0, last.taken[0].1),
                )
                &&& after.buf(last.family) == before.buf(last.family)
            }
            &&& last.taken.len() >= 2 ==> {
                &&& after.calls == before.calls.push(
                    Call::Many(before.buf(last.family) + last.taken),
                )
                &&& last.ok ==> after.buf(last.family) == last.left
                &&& !last.ok ==> after.buf(last.family).len() == 0
            }
        }),
{
    assert(rounds.push(last).drop_last() =~= rounds);
    law_the_count_decides_the_step(run(rounds).buf(last.family), last.taken);
}

} // verus!
