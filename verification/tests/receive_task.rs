//! The receive task, driven over real channels and a paused clock.
use std::collections::VecDeque;
use std::future::{pending, Future};
use std::io;
use std::time::Duration;
use tokio::sync::mpsc;
use tokio::time::{sleep, timeout, Instant};
use udp_buffer::backoff::{next_backoff, UDP_RECV_INITIAL_BACKOFF, UDP_RECV_MAX_BACKOFF};
use udp_buffer::packet::{Datagram, Packet, SocketAddr, SocketAddrV4};
use udp_buffer::receive::{BufferedUdpReceive, ReceiveStep, ReceiveTask};

const CALL_TIMEOUT: Duration = Duration::from_secs(30);
const SOURCE: SocketAddr = SocketAddr::V4(SocketAddrV4 { ip: [127, 0, 0, 1], port: 1234 });

enum RecvOutcome {
    Success(Vec<Datagram>),
    Failure(Vec<Datagram>, io::Error),
    Pending,
}

struct ScriptedUdpRecv {
    outcomes: VecDeque<RecvOutcome>,
    calls: mpsc::UnboundedSender<Instant>,
}

impl ScriptedUdpRecv {
    async fn recv_many_from(&mut self, packets: &mut Vec<Datagram>) -> io::Result<()> {
        self.calls.send(Instant::now()).map_err(|_| {
            io::Error::new(io::ErrorKind::BrokenPipe, "test controller was dropped")
        })?;

        match self.outcomes.pop_front().unwrap_or(RecvOutcome::Pending) {
            RecvOutcome::Success(received) => {
                packets.extend(received);
                Ok(())
            }
            RecvOutcome::Failure(received, error) => {
                packets.extend(received);
                Err(error)
            }
            RecvOutcome::Pending => pending().await,
        }
    }
}

async fn drive(mut task: ReceiveTask, mut udp_rx: ScriptedUdpRecv) {
    let mut step = task.first_step();
    loop {
        step = match step {
            ReceiveStep::Receive => {
                let outcome = udp_rx.recv_many_from(&mut task.packet_bufs).await;
                task.received(outcome)
            }
            ReceiveStep::Sleep(delay) => {
                sleep(Duration::from_millis(delay)).await;
                ReceiveStep::Receive
            }
            ReceiveStep::Deliver => task.deliver(),
            ReceiveStep::Send(item) => {
                let outcome = task.recv_tx.send(item).await;
                ReceiveTask::sent(outcome)
            }
            ReceiveStep::Finish(item) => {
                let _ = task.recv_tx.send(item).await;
                return;
            }
            ReceiveStep::Stop => return,
        };
    }
}

struct Harness {
    receiver: BufferedUdpReceive,
    calls: mpsc::UnboundedReceiver<Instant>,
    task: tokio::task::JoinHandle<()>,
}

impl Harness {
    fn new(capacity: usize, outcomes: impl IntoIterator<Item = RecvOutcome>) -> Self {
        let (calls_tx, calls) = mpsc::unbounded_channel();
        let udp_rx = ScriptedUdpRecv { outcomes: outcomes.into_iter().collect(), calls: calls_tx };
        let (receiver, task) = BufferedUdpReceive::new(capacity);
        let task = tokio::spawn(drive(task, udp_rx));
        Self { receiver, calls, task }
    }

    async fn next_call(&mut self) -> Instant {
        timeout(CALL_TIMEOUT, self.calls.recv())
            .await
            .expect("timed out waiting for recv_many_from")
            .expect("UDP receiver stopped unexpectedly")
    }

    async fn receive(&mut self) -> io::Result<Datagram> {
        let received = timeout(CALL_TIMEOUT, self.receiver.recv_rx.recv())
            .await
            .expect("timed out waiting for buffered packet");
        BufferedUdpReceive::recv_from(received)
    }
}

fn paused(test: impl Future<Output = ()>) {
    tokio::runtime::Builder::new_current_thread()
        .enable_time()
        .start_paused(true)
        .build()
        .unwrap()
        .block_on(test);
}

fn packet(contents: &[u8]) -> Datagram {
    (Packet { data: contents.to_vec() }, SOURCE)
}

fn success(contents: &[u8]) -> RecvOutcome {
    RecvOutcome::Success(vec![packet(contents)])
}

fn failure(kind: io::ErrorKind) -> RecvOutcome {
    RecvOutcome::Failure(vec![], io::Error::from(kind))
}

#[test]
fn starts_and_receives_without_backoff() {
    paused(async {
        let started_at = Instant::now();
        let mut harness = Harness::new(1, [success(b"packet"), RecvOutcome::Pending]);

        assert_eq!(harness.next_call().await, started_at);
        assert_eq!(harness.receive().await.unwrap().0.data, b"packet");
        assert_eq!(Instant::now(), started_at);
    });
}

#[test]
fn retries_interrupted_immediately() {
    paused(async {
        let mut harness = Harness::new(
            1,
            [failure(io::ErrorKind::Interrupted), success(b"packet"), RecvOutcome::Pending],
        );

        let first_call = harness.next_call().await;
        let retry = harness.next_call().await;

        assert_eq!(retry, first_call);
        assert_eq!(harness.receive().await.unwrap().0.data, b"packet");
    });
}

#[test]
fn backs_off_caps_and_resets_after_success() {
    const ERROR_COUNT: usize = 10;

    paused(async {
        let mut outcomes = (0..ERROR_COUNT)
            .map(|_| failure(io::ErrorKind::NetworkDown))
            .collect::<Vec<_>>();
        outcomes.extend([
            success(b"success"),
            failure(io::ErrorKind::NetworkDown),
            RecvOutcome::Pending,
        ]);
        let mut harness = Harness::new(1, outcomes);
        let mut calls = Vec::with_capacity(ERROR_COUNT + 3);
        for _ in 0..ERROR_COUNT + 3 {
            calls.push(harness.next_call().await);
        }

        let max_backoff = Duration::from_secs(1);
        let mut expected_delay = Duration::from_millis(10);
        for pair in calls[..=ERROR_COUNT].windows(2) {
            assert_eq!(pair[1] - pair[0], expected_delay);
            expected_delay = expected_delay.saturating_mul(2).min(max_backoff);
        }
        assert_eq!(expected_delay, max_backoff);

        assert_eq!(calls[ERROR_COUNT + 1], calls[ERROR_COUNT]);
        assert_eq!(
            calls[ERROR_COUNT + 2] - calls[ERROR_COUNT + 1],
            Duration::from_millis(UDP_RECV_INITIAL_BACKOFF)
        );
        assert_eq!(harness.receive().await.unwrap().0.data, b"success");
    });
}

#[test]
fn clears_partial_batch_before_retry() {
    paused(async {
        let mut harness = Harness::new(
            1,
            [
                RecvOutcome::Failure(
                    vec![packet(b"stale")],
                    io::Error::from(io::ErrorKind::NetworkDown),
                ),
                success(b"fresh"),
                RecvOutcome::Pending,
            ],
        );

        assert_eq!(harness.receive().await.unwrap().0.data, b"fresh");
    });
}

#[test]
fn preserves_terminal_receive_error() {
    paused(async {
        let mut harness = Harness::new(
            1,
            [RecvOutcome::Failure(
                vec![],
                io::Error::new(io::ErrorKind::InvalidData, "terminal receive failure"),
            )],
        );

        let error = harness.receive().await.unwrap_err();
        assert_eq!(error.kind(), io::ErrorKind::InvalidData);
        assert_eq!(error.to_string(), "terminal receive failure");
    });
}

#[test]
fn terminal_error_comes_after_buffered_packets_and_before_the_end() {
    paused(async {
        let mut harness = Harness::new(
            2,
            [
                RecvOutcome::Success(vec![packet(b"one"), packet(b"two"), packet(b"three")]),
                failure(io::ErrorKind::TimedOut),
                success(b"four"),
                RecvOutcome::Failure(vec![packet(b"lost")], io::Error::from(io::ErrorKind::BrokenPipe)),
                success(b"never"),
            ],
        );

        assert_eq!(harness.receive().await.unwrap(), packet(b"one"));
        assert_eq!(harness.receive().await.unwrap(), packet(b"two"));
        assert_eq!(harness.receive().await.unwrap(), packet(b"three"));
        assert_eq!(harness.receive().await.unwrap(), packet(b"four"));
        assert_eq!(harness.receive().await.unwrap_err().kind(), io::ErrorKind::BrokenPipe);
        for _ in 0..2 {
            let error = harness.receive().await.unwrap_err();
            assert_eq!(error.kind(), io::ErrorKind::UnexpectedEof);
            assert_eq!(error.to_string(), "buffered UDP receive task stopped");
        }
    });
}

#[test]
fn task_ends_once_the_reader_is_gone() {
    paused(async {
        let mut harness = Harness::new(1, [success(b"packet"), RecvOutcome::Pending]);
        drop(harness.receiver);
        timeout(CALL_TIMEOUT, &mut harness.task).await.expect("the task goes on").unwrap();
    });
}

#[test]
fn delays_double_up_to_the_cap() {
    let mut delay = UDP_RECV_INITIAL_BACKOFF;
    let mut delays = vec![];
    for _ in 0..9 {
        delays.push(delay);
        delay = next_backoff(delay);
    }
    assert_eq!(delays, [10, 20, 40, 80, 160, 320, 640, 1000, 1000]);
    assert_eq!(next_backoff(0), 0);
    assert_eq!(next_backoff(500), 1000);
    assert_eq!(next_backoff(501), 1000);
    assert_eq!(next_backoff(u64::MAX), UDP_RECV_MAX_BACKOFF);
}

#[test]
fn interrupted_attempts_do_not_count_as_failures() {
    paused(async {
        let mut harness = Harness::new(
            1,
            [
                failure(io::ErrorKind::TimedOut),
                failure(io::ErrorKind::Interrupted),
                failure(io::ErrorKind::ConnectionReset),
                RecvOutcome::Success(vec![]),
                failure(io::ErrorKind::Interrupted),
                failure(io::ErrorKind::WouldBlock),
                RecvOutcome::Pending,
            ],
        );
        let mut calls = vec![];
        for _ in 0..7 {
            calls.push(harness.next_call().await);
        }
        let waits: Vec<u128> = calls.windows(2).map(|p| (p[1] - p[0]).as_millis()).collect();
        assert_eq!(waits, [10, 0, 20, 0, 0, 10]);
    });
}

async fn read_all(capacity: usize) -> Vec<Result<Datagram, io::ErrorKind>> {
    let mut harness = Harness::new(
        capacity,
        [
            RecvOutcome::Success(vec![packet(b"a"), packet(b"b"), packet(b"c")]),
            failure(io::ErrorKind::NetworkDown),
            failure(io::ErrorKind::Interrupted),
            RecvOutcome::Success(vec![]),
            RecvOutcome::Success(vec![packet(b"d"), packet(b"e")]),
            failure(io::ErrorKind::InvalidInput),
        ],
    );
    let mut results = vec![];
    for _ in 0..7 {
        results.push(harness.receive().await.map_err(|error| error.kind()));
    }
    results
}

#[test]
fn capacity_does_not_change_what_is_read() {
    paused(async {
        let expected = vec![
            Ok(packet(b"a")),
            Ok(packet(b"b")),
            Ok(packet(b"c")),
            Ok(packet(b"d")),
            Ok(packet(b"e")),
            Err(io::ErrorKind::InvalidInput),
            Err(io::ErrorKind::UnexpectedEof),
        ];
        for capacity in [1, 2, 3, 64] {
            assert_eq!(read_all(capacity).await, expected);
        }
    });
}

#[test]
fn reads_ahead_until_the_buffer_is_full() {
    paused(async {
        let started_at = Instant::now();
        let mut harness = Harness::new(
            2,
            [
                success(b"1"),
                success(b"2"),
                success(b"3"),
                RecvOutcome::Pending,
            ],
        );

        // What fits is followed by the next call without a read or a delay.
        for _ in 0..3 {
            assert_eq!(harness.next_call().await, started_at);
        }
        // The third packet does not fit, so the task waits for the reader.
        for _ in 0..8 {
            tokio::task::yield_now().await;
            assert!(harness.calls.try_recv().is_err());
        }
        assert_eq!(harness.receive().await.unwrap(), packet(b"1"));
        assert_eq!(harness.next_call().await, started_at);
        assert_eq!(harness.receive().await.unwrap(), packet(b"2"));
        assert_eq!(harness.receive().await.unwrap(), packet(b"3"));
    });
}
