//! What holds of whole runs of a receive task, from the outcomes of the transport to what the reader
//! gets.
use crate::backoff;
use crate::channel::{Offer, Received};
use crate::io_error;
use crate::io_error::FailureClass;
use crate::packet::Datagram;
use crate::receive;
use crate::receive::{ReceiveState, ReceiveStep};
use std::io;
use tokio::sync::mpsc;
use vstd::prelude::*;

verus! {

/// One call that passes on what is pending: the offers it makes and the step that follows. Where that
/// step sends an item that has to wait, `sent` says whether it got a slot in the end.
pub struct Round {
    pub calls: Seq<Offer>,
    pub step: ReceiveStep,
    pub sent: bool,
}

/// One attempt to receive: the packets that the transport has added and how it went. After a success
/// come the rounds that pass on what is pending; after a terminal error `sent` says whether it got a
/// slot in the channel.
pub struct Attempt {
    pub batch: Seq<Datagram>,
    pub outcome: Result<(), io::Error>,
    pub rounds: Seq<Round>,
    pub sent: bool,
}

/// How far a task has come: the delay after the next recoverable error, what is in the buffer that the
/// transport adds packets to, the packets that are still to be passed on, what was put into the
/// channel, the delays that were slept, and whether the task has ended.
#[verifier::ext_equal]
pub struct Run {
    pub delay: u64,
    pub packet_bufs: Seq<Datagram>,
    pub pending: Seq<Datagram>,
    pub delivered: Seq<Received>,
    pub sleeps: Seq<u64>,
    pub ended: bool,
}

/// The channel had no free slot for this offer.
pub open spec fn is_full(offer: Offer) -> bool {
    offer.1 matches Err(mpsc::error::TrySendError::Full(_))
}

/// The items of the offers that the channel has taken, in order.
pub open spec fn accepted(calls: Seq<Offer>) -> Seq<Received> {
    calls.filter(|call: Offer| call.1 is Ok).map_values(|call: Offer| call.0)
}

impl Round {
    /// What is put into the channel: what it has taken at once, and the item that waited for a slot.
    pub open spec fn put_in(self) -> Seq<Received> {
        match self.step {
            ReceiveStep::Send(item) => if self.sent {
                accepted(self.calls).push(item)
            } else {
                accepted(self.calls)
            },
            _ => accepted(self.calls),
        }
    }

    /// What the task does after this round.
    pub open spec fn next(self) -> ReceiveStep {
        match self.step {
            ReceiveStep::Send(_) => receive::after_send(self.sent),
            _ => self.step,
        }
    }
}

/// All that these rounds put into the channel.
pub open spec fn passed_on(rounds: Seq<Round>) -> Seq<Received>
    decreases rounds.len(),
{
    if rounds.len() == 0 {
        Seq::empty()
    } else {
        rounds[0].put_in() + passed_on(rounds.drop_first())
    }
}

/// What is still pending after these rounds.
pub open spec fn remaining(pending: Seq<Datagram>, rounds: Seq<Round>) -> Seq<Datagram>
    decreases rounds.len(),
{
    if rounds.len() == 0 {
        pending
    } else {
        remaining(pending.skip(rounds[0].calls.len() as int), rounds.drop_first())
    }
}

/// These are the rounds of a task with `pending` to pass on: it goes from round to round for as long
/// as it is to deliver.
pub open spec fn complete(pending: Seq<Datagram>, rounds: Seq<Round>) -> bool
    decreases rounds.len(),
{
    &&& rounds.len() > 0
    &&& {
        let after = pending.skip(rounds[0].calls.len() as int);
        &&& receive::delivery(pending, rounds[0].calls, rounds[0].step, after)
        &&& if rounds[0].next() is Deliver {
            complete(after, rounds.drop_first())
        } else {
            rounds.len() == 1
        }
    }
}

/// The attempt fails with an error of a kind that belongs to this class.
pub open spec fn fails_with(attempt: Attempt, class: FailureClass) -> bool {
    attempt.outcome matches Err(error) && match io_error::kind_of(error) {
        io::ErrorKind::Interrupted => class is Interrupted,
        io::ErrorKind::ConnectionAborted
        | io::ErrorKind::ConnectionRefused
        | io::ErrorKind::ConnectionReset
        | io::ErrorKind::HostUnreachable
        | io::ErrorKind::NetworkDown
        | io::ErrorKind::NetworkUnreachable
        | io::ErrorKind::TimedOut
        | io::ErrorKind::WouldBlock => class is Recoverable,
        _ => class is Terminal,
    }
}

/// A task that was just made.
pub open spec fn fresh() -> Run {
    Run {
        delay: backoff::UDP_RECV_INITIAL_BACKOFF,
        packet_bufs: Seq::empty(),
        pending: Seq::empty(),
        delivered: Seq::empty(),
        sleeps: Seq::empty(),
        ended: false,
    }
}

/// What the task decides after one more attempt, and the state that this leaves it in.
pub open spec fn decision(run: Run, attempt: Attempt) -> (ReceiveState, ReceiveStep) {
    receive::on_outcome(
        ReceiveState {
            packet_bufs: run.packet_bufs + attempt.batch,
            pending: run.pending,
            retry_delay: run.delay,
        },
        attempt.outcome,
    )
}

/// The run goes on with one attempt, and with what the task decides to do after it.
pub open spec fn advance(run: Run, attempt: Attempt) -> Run {
    if run.ended {
        run
    } else {
        let (state, step) = decision(run, attempt);
        let after = Run {
            delay: state.retry_delay,
            packet_bufs: state.packet_bufs,
            pending: state.pending,
            ..run
        };
        match step {
            ReceiveStep::Deliver => Run {
                pending: remaining(state.pending, attempt.rounds),
                delivered: run.delivered + passed_on(attempt.rounds),
                ended: attempt.rounds.last().next() is Stop,
                ..after
            },
            ReceiveStep::Sleep(delay) => Run { sleeps: run.sleeps.push(delay), ..after },
            ReceiveStep::Finish(item) => Run {
                delivered: if attempt.sent {
                    run.delivered.push(item)
                } else {
                    run.delivered
                },
                ended: true,
                ..after
            },
            _ => after,
        }
    }
}

/// The run goes on with these attempts.
pub open spec fn run_from(run: Run, attempts: Seq<Attempt>) -> Run
    decreases attempts.len(),
{
    if attempts.len() == 0 {
        run
    } else {
        advance(run_from(run, attempts.drop_last()), attempts.last())
    }
}

/// The run of a new task over these attempts.
pub open spec fn run(attempts: Seq<Attempt>) -> Run {
    run_from(fresh(), attempts)
}

/// Where the task decides to deliver, the rounds are those that it makes with what it then holds.
pub open spec fn valid(attempts: Seq<Attempt>) -> bool
    decreases attempts.len(),
{
    attempts.len() > 0 ==> {
        let before = run(attempts.drop_last());
        let last = attempts.last();
        &&& valid(attempts.drop_last())
        &&& !before.ended && decision(before, last).1 is Deliver ==> complete(
            decision(before, last).0.pending,
            last.rounds,
        )
    }
}

/// There is a reader in this round: no offer finds the channel closed, and an item that has to wait
/// gets its slot.
pub open spec fn round_has_reader(round: Round) -> bool {
    &&& forall|i: int|
        0 <= i < round.calls.len() ==> !((#[trigger] round.calls[i]).1 matches Err(
            mpsc::error::TrySendError::Closed(_),
        ))
    &&& round.step is Send ==> round.sent
}

/// There is a reader in this attempt: it is there in every round, and for a terminal error.
pub open spec fn has_reader(attempt: Attempt) -> bool {
    &&& attempt.outcome is Ok ==> forall|i: int|
        0 <= i < attempt.rounds.len() ==> round_has_reader(#[trigger] attempt.rounds[i])
    &&& fails_with(attempt, FailureClass::Terminal) ==> attempt.sent
}

/// The reader stays.
pub open spec fn reader_stays(attempts: Seq<Attempt>) -> bool {
    forall|i: int| 0 <= i < attempts.len() ==> has_reader(#[trigger] attempts[i])
}

/// No attempt fails for good.
pub open spec fn never_terminal(attempts: Seq<Attempt>) -> bool {
    forall|i: int|
        0 <= i < attempts.len() ==> !fails_with(#[trigger] attempts[i], FailureClass::Terminal)
}

/// The packets of the successful attempts, in order.
pub open spec fn packets(attempts: Seq<Attempt>) -> Seq<Datagram>
    decreases attempts.len(),
{
    if attempts.len() == 0 {
        Seq::empty()
    } else if attempts.last().outcome is Ok {
        packets(attempts.drop_last()) + attempts.last().batch
    } else {
        packets(attempts.drop_last())
    }
}

/// How many of these attempts failed with a recoverable error since the last success, or since the
/// start.
pub open spec fn streak(attempts: Seq<Attempt>) -> nat
    decreases attempts.len(),
{
    if attempts.len() == 0 || attempts.last().outcome is Ok {
        0
    } else if fails_with(attempts.last(), FailureClass::Recoverable) {
        streak(attempts.drop_last()) + 1
    } else {
        streak(attempts.drop_last())
    }
}

/// The delays that are slept between attempt `i` and the next one.
pub open spec fn slept_after(attempts: Seq<Attempt>, i: int) -> Seq<u64> {
    run(attempts.take(i + 1)).sleeps.skip(run(attempts.take(i)).sleeps.len() as int)
}

/// What comes out of the channel at the `n`-th read (counted from zero), if `sent` was put into it and
/// then the sender was dropped: what was put in first comes out first.
pub open spec fn nth_out(sent: Seq<Received>, n: nat) -> Option<Received> {
    if n < sent.len() {
        Some(sent[n as int])
    } else {
        None
    }
}

proof fn lemma_accepted_all(calls: Seq<Offer>)
    requires
        forall|i: int| 0 <= i < calls.len() ==> (#[trigger] calls[i]).1 is Ok,
    ensures
        calls.filter(|call: Offer| call.1 is Ok) == calls,
    decreases calls.len(),
{
    reveal(Seq::filter);
    if calls.len() > 0 {
        let earlier = calls.drop_last();
        assert(forall|i: int| 0 <= i < earlier.len() ==> #[trigger] earlier[i] == calls[i]);
        lemma_accepted_all(earlier);
        assert(calls[calls.len() - 1].1 is Ok);
        assert(earlier.push(calls.last()) =~= calls);
    }
}

/// What one round puts into the channel, by what follows it.
proof fn lemma_round(pending: Seq<Datagram>, round: Round, after: Seq<Datagram>)
    requires
        receive::delivery(pending, round.calls, round.step, after),
    ensures
        round.next() is Receive ==> round.put_in() == receive::items(pending) && after == Seq::<
            Datagram,
        >::empty(),
        round.next() is Deliver ==> round.put_in() == receive::items(
            pending.take(round.calls.len() as int),
        ),
        round.next() is Receive || round.next() is Deliver || round.next() is Stop,
        round.put_in().is_prefix_of(receive::items(pending)),
{
    let calls = round.calls;
    let n = calls.len() as int;
    if n > 0 && calls.last().1 is Err {
        let earlier = calls.drop_last();
        assert(forall|i: int| 0 <= i < earlier.len() ==> #[trigger] earlier[i] == calls[i]);
        lemma_accepted_all(earlier);
        reveal(Seq::filter);
        assert(calls.filter(|call: Offer| call.1 is Ok) == earlier);
        assert(accepted(calls) =~= receive::items(pending.take(n - 1)));
        assert(calls[n - 1].0 == Received::Ok(pending[n - 1]));
        assert(accepted(calls).push(Ok(pending[n - 1])) =~= receive::items(pending.take(n)));
    } else {
        assert forall|i: int| 0 <= i < calls.len() implies (#[trigger] calls[i]).1 is Ok by {
            if i == n - 1 {
                assert(calls[i] == calls.last());
            }
        }
        lemma_accepted_all(calls);
        assert(accepted(calls) =~= receive::items(pending));
        assert(after =~= Seq::empty());
    }
}

proof fn lemma_ended_is_final(start: Run, attempts: Seq<Attempt>)
    requires
        start.ended,
    ensures
        run_from(start, attempts) == start,
    decreases attempts.len(),
{
    if attempts.len() > 0 {
        lemma_ended_is_final(start, attempts.drop_last());
    }
}

proof fn lemma_run_concat(start: Run, first: Seq<Attempt>, second: Seq<Attempt>)
    ensures
        run_from(start, first + second) == run_from(run_from(start, first), second),
    decreases second.len(),
{
    if second.len() == 0 {
        assert(first + second =~= first);
    } else {
        assert((first + second).drop_last() =~= first + second.drop_last());
        lemma_run_concat(start, first, second.drop_last());
    }
}

proof fn lemma_not_ended_before(attempts: Seq<Attempt>, i: int)
    requires
        0 <= i <= attempts.len(),
        !run(attempts).ended,
    ensures
        !run(attempts.take(i)).ended,
{
    assert(attempts =~= attempts.take(i) + attempts.skip(i));
    lemma_run_concat(fresh(), attempts.take(i), attempts.skip(i));
    if run(attempts.take(i)).ended {
        lemma_ended_is_final(run(attempts.take(i)), attempts.skip(i));
    }
}

proof fn lemma_earlier_attempts(attempts: Seq<Attempt>)
    requires
        attempts.len() > 0,
    ensures
        reader_stays(attempts) ==> reader_stays(attempts.drop_last()) && has_reader(
            attempts.last(),
        ),
        never_terminal(attempts) ==> never_terminal(attempts.drop_last()) && !fails_with(
            attempts.last(),
            FailureClass::Terminal,
        ),
{
    let earlier = attempts.drop_last();
    assert(forall|i: int| 0 <= i < earlier.len() ==> #[trigger] earlier[i] == attempts[i]);
    assert(attempts.last() == attempts[attempts.len() - 1]);
}

proof fn lemma_delay_is_of_the_streak(attempts: Seq<Attempt>)
    requires
        !run(attempts).ended,
    ensures
        run(attempts).delay == backoff::nth_delay(streak(attempts)),
    decreases attempts.len(),
{
    if attempts.len() > 0 {
        assert(!run(attempts.drop_last()).ended);
        lemma_delay_is_of_the_streak(attempts.drop_last());
    }
}

/// While there is a reader, the rounds after a success put every pending packet into the channel, in
/// order, each once, however often the channel is full, and leave nothing pending.
pub proof fn law_a_full_channel_loses_no_packet(pending: Seq<Datagram>, rounds: Seq<Round>)
    requires
        complete(pending, rounds),
        !(rounds.last().next() is Stop),
    ensures
        passed_on(rounds) == receive::items(pending),
        remaining(pending, rounds) == Seq::<Datagram>::empty(),
    decreases rounds.len(),
{
    let first = rounds[0];
    let rest = rounds.drop_first();
    let n = first.calls.len() as int;
    let after = pending.skip(n);
    lemma_round(pending, first, after);
    if first.next() is Deliver {
        assert(complete(after, rest));
        assert(rest.len() > 0);
        assert(rest.last() == rounds.last());
        law_a_full_channel_loses_no_packet(after, rest);
        assert(receive::items(pending.take(n)) + receive::items(after) =~= receive::items(pending));
    } else {
        assert(rest =~= Seq::empty());
        assert(passed_on(rest) =~= Seq::empty());
        assert(passed_on(rounds) =~= first.put_in());
        assert(remaining(pending, rounds) == after) by {
            reveal_with_fuel(remaining, 2);
        }
    }
}

/// Whether or not the reader stays, what the rounds put into the channel is the first part of what was
/// pending, in order.
pub proof fn law_packets_are_passed_on_in_order(pending: Seq<Datagram>, rounds: Seq<Round>)
    requires
        complete(pending, rounds),
    ensures
        passed_on(rounds).is_prefix_of(receive::items(pending)),
    decreases rounds.len(),
{
    let first = rounds[0];
    let rest = rounds.drop_first();
    let n = first.calls.len() as int;
    let after = pending.skip(n);
    lemma_round(pending, first, after);
    if first.next() is Deliver {
        law_packets_are_passed_on_in_order(after, rest);
        assert(receive::items(pending.take(n)) + receive::items(after) =~= receive::items(pending));
    } else {
        assert(rest =~= Seq::empty());
        assert(passed_on(rest) =~= Seq::empty());
        assert(passed_on(rounds) =~= first.put_in());
    }
}

/// After every attempt, whether it succeeds or fails, the buffer that the transport adds packets to is
/// empty again, so no packet of one attempt is taken for one of a later attempt.
pub proof fn law_the_receive_buffer_is_emptied(attempts: Seq<Attempt>)
    ensures
        run(attempts).packet_bufs == Seq::<Datagram>::empty(),
    decreases attempts.len(),
{
    if attempts.len() > 0 {
        law_the_receive_buffer_is_emptied(attempts.drop_last());
    }
}

/// Nothing is pending when the task receives: what was received is in the channel by then.
pub proof fn law_nothing_is_pending_between_attempts(attempts: Seq<Attempt>)
    requires
        valid(attempts),
        !run(attempts).ended,
    ensures
        run(attempts).pending == Seq::<Datagram>::empty(),
    decreases attempts.len(),
{
    if attempts.len() > 0 {
        law_the_receive_buffer_is_emptied(attempts.drop_last());
        let last = attempts.last();
        let before = run(attempts.drop_last());
        law_nothing_is_pending_between_attempts(attempts.drop_last());
        if last.outcome is Ok {
            law_a_full_channel_loses_no_packet(decision(before, last).0.pending, last.rounds);
        }
    }
}

proof fn lemma_offered_is_the_batch(attempts: Seq<Attempt>, last: Attempt)
    requires
        valid(attempts),
        !run(attempts).ended,
    ensures
        last.outcome is Ok ==> decision(run(attempts), last).0.pending == last.batch,
{
    law_the_receive_buffer_is_emptied(attempts);
    law_nothing_is_pending_between_attempts(attempts);
    assert(run(attempts).pending + (run(attempts).packet_bufs + last.batch) =~= last.batch);
}

proof fn lemma_no_stop_with_a_reader(pending: Seq<Datagram>, rounds: Seq<Round>)
    requires
        complete(pending, rounds),
        forall|i: int| 0 <= i < rounds.len() ==> round_has_reader(#[trigger] rounds[i]),
    ensures
        rounds.last().next() is Receive,
    decreases rounds.len(),
{
    let first = rounds[0];
    let rest = rounds.drop_first();
    let after = pending.skip(first.calls.len() as int);
    lemma_round(pending, first, after);
    assert(round_has_reader(first));
    if first.calls.len() > 0 {
        assert(first.calls.last() == first.calls[first.calls.len() - 1]);
    }
    if first.next() is Deliver {
        assert(forall|i: int| 0 <= i < rest.len() ==> #[trigger] rest[i] == rounds[i + 1]);
        assert(complete(after, rest));
        assert(rest.len() > 0);
        lemma_no_stop_with_a_reader(after, rest);
        assert(rest.last() == rounds.last());
    }
}

/// A reader that stays gets every pending packet, whatever the packets hold and however often the
/// channel is full: packet by packet, in order, each once. Then the task receives again.
pub proof fn law_a_reader_that_stays_gets_every_pending_packet(
    pending: Seq<Datagram>,
    rounds: Seq<Round>,
)
    requires
        complete(pending, rounds),
        forall|i: int| 0 <= i < rounds.len() ==> round_has_reader(#[trigger] rounds[i]),
    ensures
        passed_on(rounds).len() == pending.len(),
        forall|i: int|
            0 <= i < pending.len() ==> (#[trigger] passed_on(rounds)[i]) == Received::Ok(
                pending[i],
            ),
        rounds.last().next() is Receive,
{
    lemma_no_stop_with_a_reader(pending, rounds);
    law_a_full_channel_loses_no_packet(pending, rounds);
}

/// The task stops delivering only if an offer finds the channel closed, or if an item that had to wait
/// could not be sent.
pub proof fn law_delivery_stops_only_without_a_reader(pending: Seq<Datagram>, rounds: Seq<Round>)
    requires
        complete(pending, rounds),
        rounds.last().next() is Stop,
    ensures
        (rounds.last().step is Send && !rounds.last().sent) || (rounds.last().calls.len() > 0
            && rounds.last().calls.last().1 matches Err(mpsc::error::TrySendError::Closed(_))),
    decreases rounds.len(),
{
    let first = rounds[0];
    let rest = rounds.drop_first();
    let after = pending.skip(first.calls.len() as int);
    if first.next() is Deliver {
        assert(complete(after, rest));
        assert(rest.len() > 0);
        assert(rest.last() == rounds.last());
        law_delivery_stops_only_without_a_reader(after, rest);
    }
}

/// While no error is terminal and the reader stays, the reader is sent every packet of every
/// successful attempt, in the order of receipt, each once, and nothing else, and the task goes on.
pub proof fn law_reader_is_sent_all_packets_in_order(attempts: Seq<Attempt>)
    requires
        valid(attempts),
        reader_stays(attempts),
        never_terminal(attempts),
    ensures
        run(attempts).delivered == receive::items(packets(attempts)),
        !run(attempts).ended,
    decreases attempts.len(),
{
    if attempts.len() == 0 {
        assert(receive::items(packets(attempts)) =~= Seq::empty());
    } else {
        let earlier = attempts.drop_last();
        let last = attempts.last();
        lemma_earlier_attempts(attempts);
        law_reader_is_sent_all_packets_in_order(earlier);
        law_nothing_is_pending_between_attempts(earlier);
        if last.outcome is Ok {
            lemma_offered_is_the_batch(earlier, last);
            lemma_no_stop_with_a_reader(last.batch, last.rounds);
            law_a_full_channel_loses_no_packet(last.batch, last.rounds);
            assert(receive::items(packets(earlier)) + receive::items(last.batch)
                =~= receive::items(packets(attempts)));
        }
    }
}

/// A reader that goes away has been sent the first part of what it would have been sent.
pub proof fn law_a_reader_that_leaves_misses_only_the_end(attempts: Seq<Attempt>)
    requires
        valid(attempts),
        never_terminal(attempts),
    ensures
        run(attempts).delivered.is_prefix_of(receive::items(packets(attempts))),
        !run(attempts).ended ==> run(attempts).delivered == receive::items(packets(attempts)),
    decreases attempts.len(),
{
    if attempts.len() == 0 {
        assert(receive::items(packets(attempts)) =~= Seq::empty());
    } else {
        let earlier = attempts.drop_last();
        let last = attempts.last();
        lemma_earlier_attempts(attempts);
        law_a_reader_that_leaves_misses_only_the_end(earlier);
        let all = receive::items(packets(attempts));
        if last.outcome is Ok {
            assert(receive::items(packets(earlier)) + receive::items(last.batch) =~= all);
            if !run(earlier).ended {
                law_nothing_is_pending_between_attempts(earlier);
                lemma_offered_is_the_batch(earlier, last);
                law_packets_are_passed_on_in_order(last.batch, last.rounds);
                if !run(attempts).ended {
                    law_a_full_channel_loses_no_packet(last.batch, last.rounds);
                }
            }
        }
    }
}

/// A terminal error is sent as it is, after every packet that was received before it, and ends the
/// task.
pub proof fn law_terminal_error_comes_after_all_packets(attempts: Seq<Attempt>, last: Attempt)
    requires
        valid(attempts),
        reader_stays(attempts.push(last)),
        never_terminal(attempts),
        fails_with(last, FailureClass::Terminal),
    ensures
        run(attempts.push(last)).delivered == receive::items(packets(attempts)).push(
            Err(last.outcome->Err_0),
        ),
        run(attempts.push(last)).ended,
{
    lemma_earlier_attempts(attempts.push(last));
    assert(attempts.push(last).drop_last() =~= attempts);
    law_reader_is_sent_all_packets_in_order(attempts);
}

/// Nothing happens after a task has ended.
pub proof fn law_nothing_after_the_end(attempts: Seq<Attempt>, more: Seq<Attempt>)
    requires
        run(attempts).ended,
    ensures
        run(attempts + more) == run(attempts),
{
    lemma_run_concat(fresh(), attempts, more);
    lemma_ended_is_final(run(attempts), more);
}

/// Only a terminal error ends a task, as long as the reader stays.
pub proof fn law_only_a_terminal_error_ends_the_task(attempts: Seq<Attempt>)
    requires
        valid(attempts),
        reader_stays(attempts),
    ensures
        run(attempts).ended <==> !never_terminal(attempts),
    decreases attempts.len(),
{
    if never_terminal(attempts) {
        law_reader_is_sent_all_packets_in_order(attempts);
    } else {
        let earlier = attempts.drop_last();
        lemma_earlier_attempts(attempts);
        law_only_a_terminal_error_ends_the_task(earlier);
        if never_terminal(earlier) {
            let i = choose|i: int|
                0 <= i < attempts.len() && fails_with(#[trigger] attempts[i], FailureClass::Terminal);
            assert(i < earlier.len() ==> earlier[i] == attempts[i]);
        }
    }
}

/// The reader reads every packet that was received before a terminal error, then that error, and
/// from then on, at every read, that the task has stopped.
pub proof fn law_reads_after_a_terminal_error(attempts: Seq<Attempt>, last: Attempt, n: nat)
    requires
        valid(attempts),
        reader_stays(attempts.push(last)),
        never_terminal(attempts),
        fails_with(last, FailureClass::Terminal),
    ensures
        receive::read_result(nth_out(run(attempts.push(last)).delivered, n)) == if n < packets(
            attempts,
        ).len() {
            Ok(packets(attempts)[n as int])
        } else if n == packets(attempts).len() {
            Err(last.outcome->Err_0)
        } else {
            Err(
                io_error::error_from(
                    io::ErrorKind::UnexpectedEof,
                    "buffered UDP receive task stopped"@,
                ),
            )
        },
{
    law_terminal_error_comes_after_all_packets(attempts, last);
}

/// Only terminal errors are put into the channel.
pub proof fn law_only_terminal_errors_are_sent(attempts: Seq<Attempt>)
    requires
        valid(attempts),
    ensures
        forall|i: int|
            0 <= i < run(attempts).delivered.len() ==> ((#[trigger] run(attempts).delivered[i])
                matches Err(error) ==> match io_error::kind_of(error) {
                io::ErrorKind::Interrupted
                | io::ErrorKind::ConnectionAborted
                | io::ErrorKind::ConnectionRefused
                | io::ErrorKind::ConnectionReset
                | io::ErrorKind::HostUnreachable
                | io::ErrorKind::NetworkDown
                | io::ErrorKind::NetworkUnreachable
                | io::ErrorKind::TimedOut
                | io::ErrorKind::WouldBlock => false,
                _ => true,
            }),
    decreases attempts.len(),
{
    if attempts.len() > 0 {
        let earlier = attempts.drop_last();
        let last = attempts.last();
        law_only_terminal_errors_are_sent(earlier);
        let before = run(earlier).delivered;
        let now = run(attempts).delivered;
        if !run(earlier).ended && last.outcome is Ok {
            lemma_offered_is_the_batch(earlier, last);
            law_packets_are_passed_on_in_order(last.batch, last.rounds);
        }
        assert forall|i: int| 0 <= i < now.len() implies ((#[trigger] now[i]) matches Err(error)
            ==> match io_error::kind_of(error) {
            io::ErrorKind::Interrupted
            | io::ErrorKind::ConnectionAborted
            | io::ErrorKind::ConnectionRefused
            | io::ErrorKind::ConnectionReset
            | io::ErrorKind::HostUnreachable
            | io::ErrorKind::NetworkDown
            | io::ErrorKind::NetworkUnreachable
            | io::ErrorKind::TimedOut
            | io::ErrorKind::WouldBlock => false,
            _ => true,
        }) by {
            if i < before.len() {
                assert(now[i] == before[i]);
            } else if last.outcome is Ok {
                let passed = passed_on(last.rounds);
                assert(now[i] == passed[i - before.len()]);
                assert(passed[i - before.len()] == receive::items(last.batch)[i - before.len()]);
            }
        }
    }
}

/// An error that is retried never reaches the reader: whatever the transport does, an error that a
/// read gives is neither an interruption nor a recoverable error. `result` is what the reader gets at
/// its `n`-th read.
pub proof fn law_retried_errors_never_reach_the_reader(
    attempts: Seq<Attempt>,
    n: nat,
    result: Received,
)
    requires
        valid(attempts),
        receive::reads_as(nth_out(run(attempts).delivered, n), result),
        result is Err,
    ensures
        io_error::kind_of(result->Err_0) != io::ErrorKind::Interrupted,
        !io_error::recoverable(io_error::kind_of(result->Err_0)),
        match io_error::kind_of(result->Err_0) {
            io::ErrorKind::Interrupted
            | io::ErrorKind::ConnectionAborted
            | io::ErrorKind::ConnectionRefused
            | io::ErrorKind::ConnectionReset
            | io::ErrorKind::HostUnreachable
            | io::ErrorKind::NetworkDown
            | io::ErrorKind::NetworkUnreachable
            | io::ErrorKind::TimedOut
            | io::ErrorKind::WouldBlock => false,
            _ => true,
        },
{
    law_only_terminal_errors_are_sent(attempts);
    if n < run(attempts).delivered.len() {
        assert(run(attempts).delivered[n as int] == result);
    }
}

proof fn lemma_not_ended_is_not_terminal(attempts: Seq<Attempt>)
    requires
        !run(attempts).ended,
    ensures
        never_terminal(attempts),
    decreases attempts.len(),
{
    if attempts.len() > 0 {
        let earlier = attempts.drop_last();
        lemma_not_ended_is_not_terminal(earlier);
        assert forall|i: int| 0 <= i < attempts.len() implies !fails_with(
            #[trigger] attempts[i],
            FailureClass::Terminal,
        ) by {
            if i < earlier.len() {
                assert(attempts[i] == earlier[i]);
            }
        }
    }
}

/// The task reads ahead of the reader only until the buffer is full: when it receives, no more than
/// `capacity` packets were received and not yet taken out by the reader. A channel never holds more
/// than `capacity` items.
pub proof fn law_reads_ahead_up_to_the_capacity(
    attempts: Seq<Attempt>,
    taken: nat,
    capacity: usize,
)
    requires
        valid(attempts),
        !run(attempts).ended,
        run(attempts).delivered.len() - taken <= capacity,
    ensures
        packets(attempts).len() - taken <= capacity,
{
    lemma_not_ended_is_not_terminal(attempts);
    law_a_reader_that_leaves_misses_only_the_end(attempts);
}

/// If the channel takes every packet that it is offered, the task receives again at once: it makes no
/// second round, waits for nothing and sleeps no delay.
pub proof fn law_an_accepted_batch_is_followed_by_receiving(attempts: Seq<Attempt>, last: Attempt)
    requires
        valid(attempts.push(last)),
        !run(attempts).ended,
        last.outcome is Ok,
        forall|i: int|
            0 <= i < last.rounds[0].calls.len() ==> (#[trigger] last.rounds[0].calls[i]).1 is Ok,
    ensures
        last.rounds.len() == 1,
        last.rounds[0].step is Receive,
        run(attempts.push(last)).sleeps == run(attempts).sleeps,
        !run(attempts.push(last)).ended,
{
    assert(attempts.push(last).drop_last() =~= attempts);
    lemma_offered_is_the_batch(attempts, last);
    let calls = last.rounds[0].calls;
    if calls.len() > 0 {
        assert(calls[calls.len() - 1].1 is Ok);
    }
}

/// A batch that fits is taken at once: if what was received and not yet taken out by the reader comes
/// to no more than `capacity` packets, the task receives again without a delay and without a read
/// being needed. A channel is full only if it holds `capacity` items; `taken` counts what the reader
/// took out before the packets are offered, and so is no more than what it has taken out at any offer.
pub proof fn law_a_batch_that_fits_needs_no_read(
    attempts: Seq<Attempt>,
    last: Attempt,
    taken: nat,
    capacity: usize,
)
    requires
        valid(attempts.push(last)),
        has_reader(last),
        !run(attempts).ended,
        last.outcome is Ok,
        packets(attempts.push(last)).len() - taken <= capacity,
        forall|i: int|
            0 <= i < last.rounds[0].calls.len() && is_full(#[trigger] last.rounds[0].calls[i])
                ==> run(attempts).delivered.len() + i - taken >= capacity,
    ensures
        last.rounds.len() == 1,
        last.rounds[0].step is Receive,
        run(attempts.push(last)).sleeps == run(attempts).sleeps,
        !run(attempts.push(last)).ended,
{
    let calls = last.rounds[0].calls;
    assert(attempts.push(last).drop_last() =~= attempts);
    lemma_offered_is_the_batch(attempts, last);
    lemma_not_ended_is_not_terminal(attempts);
    law_a_reader_that_leaves_misses_only_the_end(attempts);
    assert forall|i: int| 0 <= i < calls.len() implies (#[trigger] calls[i]).1 is Ok by {
        if i == calls.len() - 1 && calls[i].1 is Err {
            assert(calls[i] == calls.last());
            assert(!is_full(calls[i]));
            assert(round_has_reader(last.rounds[0]));
        }
    }
    law_an_accepted_batch_is_followed_by_receiving(attempts, last);
}

/// The capacity of the channel affects only the timing. It decides which offers find the channel full,
/// so two buffers over the same outcomes of the transport differ in their rounds alone; their readers
/// are sent the same packets and errors in the same order, and the tasks sleep the same delays.
pub proof fn law_capacity_affects_only_timing(a: Seq<Attempt>, b: Seq<Attempt>)
    requires
        valid(a),
        valid(b),
        reader_stays(a),
        reader_stays(b),
        a.len() == b.len(),
        forall|i: int|
            0 <= i < a.len() ==> (#[trigger] a[i]).batch == b[i].batch && a[i].outcome
                == b[i].outcome,
    ensures
        run(a).delivered == run(b).delivered,
        run(a).sleeps == run(b).sleeps,
        run(a).ended == run(b).ended,
        run(a) == run(b),
        forall|n: nat|
            receive::read_result(#[trigger] nth_out(run(a).delivered, n)) == receive::read_result(
                nth_out(run(b).delivered, n),
            ),
    decreases a.len(),
{
    if a.len() > 0 {
        lemma_earlier_attempts(a);
        lemma_earlier_attempts(b);
        assert(forall|i: int|
            0 <= i < a.len() - 1 ==> #[trigger] a.drop_last()[i] == a[i] && b.drop_last()[i]
                == b[i]);
        law_capacity_affects_only_timing(a.drop_last(), b.drop_last());
        let n = a.len() - 1;
        assert(a[n].batch == b[n].batch);
        let before = run(a.drop_last());
        if !before.ended && a[n].outcome is Ok {
            lemma_offered_is_the_batch(a.drop_last(), a[n]);
            lemma_no_stop_with_a_reader(a[n].batch, a[n].rounds);
            lemma_no_stop_with_a_reader(b[n].batch, b[n].rounds);
            law_a_full_channel_loses_no_packet(a[n].batch, a[n].rounds);
            law_a_full_channel_loses_no_packet(b[n].batch, b[n].rounds);
        }
    }
}

/// What a failed attempt had received is thrown away: it makes no difference, neither at once nor to
/// any later attempt, and so is never sent to the reader.
pub proof fn law_packets_of_a_failed_attempt_are_discarded(
    before: Seq<Attempt>,
    failed: Attempt,
    after: Seq<Attempt>,
    batch: Seq<Datagram>,
)
    requires
        failed.outcome is Err,
    ensures
        run(before.push(Attempt { batch, ..failed }) + after) == run(before.push(failed) + after),
{
    let other = Attempt { batch, ..failed };
    lemma_run_concat(fresh(), before.push(failed), after);
    lemma_run_concat(fresh(), before.push(other), after);
    assert(before.push(failed).drop_last() =~= before);
    assert(before.push(other).drop_last() =~= before);
}

/// An interrupted attempt is made again at once: wherever it comes, it changes nothing.
pub proof fn law_interrupted_attempt_changes_nothing(
    before: Seq<Attempt>,
    interrupted: Attempt,
    after: Seq<Attempt>,
)
    requires
        fails_with(interrupted, FailureClass::Interrupted),
    ensures
        run(before.push(interrupted) + after) == run(before + after),
{
    assert(before.push(interrupted).drop_last() =~= before);
    lemma_run_concat(fresh(), before.push(interrupted), after);
    lemma_run_concat(fresh(), before, after);
}

/// A successful attempt is not followed by a delay, and the delay starts over.
pub proof fn law_success_resets_the_delay(attempts: Seq<Attempt>, last: Attempt)
    requires
        !run(attempts).ended,
        last.outcome is Ok,
    ensures
        run(attempts.push(last)).delay == backoff::UDP_RECV_INITIAL_BACKOFF,
        run(attempts.push(last)).sleeps == run(attempts).sleeps,
{
    assert(attempts.push(last).drop_last() =~= attempts);
}

/// The wait after a recoverable error is the first delay doubled once for each recoverable error
/// before it since the last success or the start, capped at the longest. Interrupted attempts do not
/// count. There is no delay after any other attempt.
pub proof fn law_wait_after_each_attempt(attempts: Seq<Attempt>, i: int)
    requires
        0 <= i < attempts.len(),
        !run(attempts.take(i)).ended,
    ensures
        run(attempts.take(i)).sleeps.is_prefix_of(run(attempts.take(i + 1)).sleeps),
        fails_with(attempts[i], FailureClass::Recoverable) ==> {
            let doubled = 10 * vstd::arithmetic::power2::pow2(streak(attempts.take(i)));
            &&& slept_after(attempts, i).len() == 1
            &&& doubled <= 1000 ==> slept_after(attempts, i)[0] == doubled
            &&& doubled > 1000 ==> slept_after(attempts, i)[0] == 1000
            &&& slept_after(attempts, i)[0] == backoff::capped_doubling(
                streak(attempts.take(i)),
            )
        },
        !fails_with(attempts[i], FailureClass::Recoverable) ==> slept_after(attempts, i).len() == 0,
{
    let n = streak(attempts.take(i));
    assert(attempts.take(i + 1).drop_last() =~= attempts.take(i));
    assert(attempts.take(i + 1).last() == attempts[i]);
    lemma_delay_is_of_the_streak(attempts.take(i));
    backoff::law_delay_doubles_up_to_the_cap(n);
}

/// Within one run of failures the waits never get shorter, the first one is the shortest delay, and
/// none is longer than the longest.
pub proof fn law_waits_of_one_streak_never_decrease(attempts: Seq<Attempt>, i: int, j: int)
    requires
        0 <= i <= j < attempts.len(),
        !run(attempts.take(j)).ended,
        fails_with(attempts[i], FailureClass::Recoverable),
        fails_with(attempts[j], FailureClass::Recoverable),
        forall|k: int| i <= k <= j ==> (#[trigger] attempts[k]).outcome is Err,
    ensures
        slept_after(attempts, i)[0] <= slept_after(attempts, j)[0],
        backoff::in_bounds(slept_after(attempts, j)[0]),
        10 <= slept_after(attempts, j)[0] <= 1000,
        streak(attempts.take(i)) == 0 ==> slept_after(attempts, i)[0]
            == backoff::UDP_RECV_INITIAL_BACKOFF,
{
    let m = streak(attempts.take(i));
    let n = streak(attempts.take(j));
    lemma_not_ended_before(attempts.take(j), i);
    assert(attempts.take(j).take(i) =~= attempts.take(i));
    law_wait_after_each_attempt(attempts, i);
    law_wait_after_each_attempt(attempts, j);
    backoff::law_delay_doubles_up_to_the_cap(m);
    backoff::law_delay_doubles_up_to_the_cap(n);
    backoff::law_delay_reaches_the_cap(n);
    lemma_streak_grows(attempts, i, j);
    backoff::law_delays_never_decrease(m, n);
}

proof fn lemma_streak_grows(attempts: Seq<Attempt>, i: int, j: int)
    requires
        0 <= i <= j <= attempts.len(),
        forall|k: int| i <= k < j ==> (#[trigger] attempts[k]).outcome is Err,
    ensures
        streak(attempts.take(i)) <= streak(attempts.take(j)),
    decreases j - i,
{
    if i < j {
        lemma_streak_grows(attempts, i, j - 1);
        assert(attempts.take(j).drop_last() =~= attempts.take(j - 1));
        assert(attempts.take(j).last() == attempts[j - 1]);
    }
}

/// Recoverable errors in a row send nothing to the reader and leave the task going.
pub proof fn law_recoverable_errors_send_nothing(attempts: Seq<Attempt>, failures: Seq<Attempt>)
    requires
        forall|i: int|
            0 <= i < failures.len() ==> fails_with(
                #[trigger] failures[i],
                FailureClass::Recoverable,
            ),
    ensures
        run(attempts + failures).delivered == run(attempts).delivered,
        run(attempts + failures).ended == run(attempts).ended,
    decreases failures.len(),
{
    if failures.len() == 0 {
        assert(attempts + failures =~= attempts);
    } else {
        let earlier = failures.drop_last();
        assert(forall|i: int| 0 <= i < earlier.len() ==> #[trigger] earlier[i] == failures[i]);
        law_recoverable_errors_send_nothing(attempts, earlier);
        assert((attempts + failures).drop_last() =~= attempts + earlier);
        assert(fails_with(failures[failures.len() - 1], FailureClass::Recoverable));
    }
}

/// The delay, and every delay that is slept, is within bounds at all times.
pub proof fn law_delays_stay_in_bounds(attempts: Seq<Attempt>)
    ensures
        backoff::in_bounds(run(attempts).delay),
        forall|i: int|
            0 <= i < run(attempts).sleeps.len() ==> backoff::in_bounds(
                #[trigger] run(attempts).sleeps[i],
            ),
    decreases attempts.len(),
{
    if attempts.len() > 0 {
        law_delays_stay_in_bounds(attempts.drop_last());
    }
}

/// After a successful attempt the task holds the packets that it held before, and behind them those of
/// the attempt, each in its place, and passes them on. The delay is 10 milliseconds again.
pub proof fn law_received_packets_join_in_order(state: ReceiveState)
    ensures
        ({
            let (after, step) = receive::on_outcome(state, Ok(()));
            &&& step is Deliver
            &&& after.packet_bufs.len() == 0
            &&& after.retry_delay == 10
            &&& after.pending.len() == state.pending.len() + state.packet_bufs.len()
            &&& forall|i: int|
                0 <= i < state.pending.len() ==> #[trigger] after.pending[i] == state.pending[i]
            &&& forall|i: int|
                0 <= i < state.packet_bufs.len() ==> after.pending[state.pending.len() + i]
                    == #[trigger] state.packet_bufs[i]
        }),
{
}

/// A failed attempt leaves the pending packets alone and throws its own away. What follows is up to
/// the kind of the error: an interruption is retried at once, each of eight kinds after the delay,
/// which doubles up to a second, and any other error is the last thing that is sent.
pub proof fn law_each_kind_of_error_has_its_answer(state: ReceiveState, error: io::Error)
    ensures
        ({
            let (after, step) = receive::on_outcome(state, Err(error));
            &&& after.packet_bufs.len() == 0
            &&& after.pending == state.pending
            &&& match io_error::kind_of(error) {
                io::ErrorKind::Interrupted => {
                    &&& step is Receive
                    &&& after.retry_delay == state.retry_delay
                },
                io::ErrorKind::ConnectionAborted
                | io::ErrorKind::ConnectionRefused
                | io::ErrorKind::ConnectionReset
                | io::ErrorKind::HostUnreachable
                | io::ErrorKind::NetworkDown
                | io::ErrorKind::NetworkUnreachable
                | io::ErrorKind::TimedOut
                | io::ErrorKind::WouldBlock => {
                    &&& step == ReceiveStep::Sleep(state.retry_delay)
                    &&& state.retry_delay <= 500 ==> after.retry_delay == 2 * state.retry_delay
                    &&& state.retry_delay > 500 ==> after.retry_delay == 1000
                },
                _ => {
                    &&& step == ReceiveStep::Finish(Err(error))
                    &&& after.retry_delay == state.retry_delay
                },
            }
        }),
{
}

/// Whatever an item holds, an offer of it that finds the channel full is followed by sending that same
/// item, and delivery stops after an offer only if the channel is closed. The next item follows one
/// that was taken, at once or after a wait.
pub proof fn law_each_outcome_of_an_offer_has_its_answer(item: Received)
    ensures
        receive::after_try_send(Ok(())) is Deliver,
        receive::after_try_send(Err(mpsc::error::TrySendError::Full(item))) == ReceiveStep::Send(
            item,
        ),
        receive::after_try_send(Err(mpsc::error::TrySendError::Closed(item))) is Stop,
        receive::after_send(true) is Deliver,
        receive::after_send(false) is Stop,
{
}

/// The pending packets are offered one after the other, from the first on, until one is refused or all
/// are taken. A packet that was offered is no longer pending. With all taken the task receives again;
/// the packet that found the channel full is sent; only a closed channel stops the task.
pub proof fn law_delivery_follows_the_offers(
    before: Seq<Datagram>,
    calls: Seq<Offer>,
    step: ReceiveStep,
    after: Seq<Datagram>,
)
    requires
        receive::delivery(before, calls, step, after),
    ensures
        calls.len() + after.len() == before.len(),
        forall|i: int|
            0 <= i < calls.len() ==> (#[trigger] calls[i]).0 == Received::Ok(before[i]),
        forall|i: int| 0 <= i < calls.len() - 1 ==> (#[trigger] calls[i]).1 is Ok,
        forall|i: int|
            0 <= i < after.len() ==> #[trigger] after[i] == before[calls.len() + i],
        step is Receive <==> after.len() == 0 && (calls.len() > 0 ==> calls.last().1 is Ok),
        step is Send <==> calls.len() > 0 && calls.last().1 matches Err(
            mpsc::error::TrySendError::Full(_),
        ),
        step matches ReceiveStep::Send(item) ==> item == Received::Ok(before[calls.len() - 1]),
        step is Stop <==> calls.len() > 0 && calls.last().1 matches Err(
            mpsc::error::TrySendError::Closed(_),
        ),
{
    if calls.len() > 0 {
        assert(calls.last() == calls[calls.len() - 1]);
    }
}

/// The reader gets what came out of the channel, and, when nothing does, that the task has stopped.
pub proof fn law_a_read_gives_what_came_out(item: Received)
    ensures
        receive::read_result(Some(item)) == item,
        receive::read_result(None) == Received::Err(
            io_error::error_from(
                io::ErrorKind::UnexpectedEof,
                "buffered UDP receive task stopped"@,
            ),
        ),
{
}

/// With a reader that stays, a successful attempt adds its packets, and nothing else, to what the
/// reader was sent, in the order in which the transport gave them, and the task goes on without a
/// delay.
pub proof fn law_a_batch_reaches_the_reader_in_order(attempts: Seq<Attempt>, last: Attempt)
    requires
        valid(attempts.push(last)),
        has_reader(last),
        !run(attempts).ended,
        last.outcome is Ok,
    ensures
        ({
            let before = run(attempts);
            let after = run(attempts.push(last));
            let n = before.delivered.len();
            &&& after.delivered.len() == n + last.batch.len()
            &&& forall|i: int|
                0 <= i < n ==> #[trigger] after.delivered[i] == before.delivered[i]
            &&& forall|i: int|
                0 <= i < last.batch.len() ==> after.delivered[n + i] == Received::Ok(
                    #[trigger] last.batch[i],
                )
            &&& after.sleeps == before.sleeps
            &&& after.pending.len() == 0
            &&& !after.ended
        }),
{
    assert(attempts.push(last).drop_last() =~= attempts);
    lemma_offered_is_the_batch(attempts, last);
    lemma_no_stop_with_a_reader(last.batch, last.rounds);
    law_a_full_channel_loses_no_packet(last.batch, last.rounds);
}

/// With a reader that stays, a failed attempt sends nothing to the reader unless the error is neither
/// an interruption nor of one of the eight kinds that are slept over; then that error is sent, once,
/// and the task ends. The sleep is 10 milliseconds, doubled once for each error of those kinds since
/// the last success or the start, and at most a second.
pub proof fn law_a_failed_attempt_is_answered_by_its_kind(attempts: Seq<Attempt>, last: Attempt)
    requires
        !run(attempts).ended,
        has_reader(last),
        last.outcome is Err,
    ensures
        ({
            let before = run(attempts);
            let after = run(attempts.push(last));
            let error = last.outcome->Err_0;
            let doubled = 10 * vstd::arithmetic::power2::pow2(streak(attempts));
            match io_error::kind_of(error) {
                io::ErrorKind::Interrupted => after == (Run {
                    packet_bufs: after.packet_bufs,
                    ..before
                }),
                io::ErrorKind::ConnectionAborted
                | io::ErrorKind::ConnectionRefused
                | io::ErrorKind::ConnectionReset
                | io::ErrorKind::HostUnreachable
                | io::ErrorKind::NetworkDown
                | io::ErrorKind::NetworkUnreachable
                | io::ErrorKind::TimedOut
                | io::ErrorKind::WouldBlock => {
                    &&& after.delivered == before.delivered
                    &&& !after.ended
                    &&& after.sleeps.len() == before.sleeps.len() + 1
                    &&& after.sleeps.drop_last() == before.sleeps
                    &&& doubled <= 1000 ==> after.sleeps.last() == doubled
                    &&& doubled > 1000 ==> after.sleeps.last() == 1000
                },
                _ => {
                    &&& after.delivered == before.delivered.push(Err(error))
                    &&& after.sleeps == before.sleeps
                    &&& after.ended
                },
            }
        }),
{
    assert(attempts.push(last).drop_last() =~= attempts);
    lemma_delay_is_of_the_streak(attempts);
    backoff::law_delay_doubles_up_to_the_cap(streak(attempts));
    assert(run(attempts).sleeps.push(run(attempts).delay).drop_last() =~= run(attempts).sleeps);
}

/// Of the attempts that fail, those and only those with an interruption are followed by the next one
/// without a sleep; those and only those with an error of one of eight kinds are followed by a sleep;
/// and all others, and only they, end the task.
pub proof fn law_the_kind_of_an_error_shows_in_the_answer(attempts: Seq<Attempt>, last: Attempt)
    requires
        !run(attempts).ended,
        last.outcome is Err,
    ensures
        ({
            let slept = run(attempts.push(last)).sleeps.len() > run(attempts).sleeps.len();
            let ended = run(attempts.push(last)).ended;
            let kind = io_error::kind_of(last.outcome->Err_0);
            &&& !slept && !ended <==> kind is Interrupted
            &&& slept <==> {
                ||| kind is ConnectionAborted
                ||| kind is ConnectionRefused
                ||| kind is ConnectionReset
                ||| kind is HostUnreachable
                ||| kind is NetworkDown
                ||| kind is NetworkUnreachable
                ||| kind is TimedOut
                ||| kind is WouldBlock
            }
            &&& ended <==> {
                &&& !(kind is Interrupted)
                &&& !(kind is ConnectionAborted)
                &&& !(kind is ConnectionRefused)
                &&& !(kind is ConnectionReset)
                &&& !(kind is HostUnreachable)
                &&& !(kind is NetworkDown)
                &&& !(kind is NetworkUnreachable)
                &&& !(kind is TimedOut)
                &&& !(kind is WouldBlock)
            }
        }),
{
    assert(attempts.push(last).drop_last() =~= attempts);
}

} // verus!
