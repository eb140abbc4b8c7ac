//! Single decisions of the receive task.
use std::io;
use tokio::sync::mpsc;
use udp_buffer::io_error::{classify, is_recoverable_receive_error, FailureClass};
use udp_buffer::packet::{Datagram, Packet, SocketAddr, SocketAddrV6};
use udp_buffer::receive::{BufferedUdpReceive, ReceiveStep, ReceiveTask};

fn packet(contents: &[u8]) -> Datagram {
    let source = SocketAddrV6 { ip: [1; 16], port: 53, flowinfo: 2, scope_id: 3 };
    (Packet { data: contents.to_vec() }, SocketAddr::V6(source))
}

#[test]
fn classifies_receive_errors() {
    for kind in [
        io::ErrorKind::ConnectionAborted,
        io::ErrorKind::ConnectionRefused,
        io::ErrorKind::ConnectionReset,
        io::ErrorKind::HostUnreachable,
        io::ErrorKind::NetworkDown,
        io::ErrorKind::NetworkUnreachable,
        io::ErrorKind::TimedOut,
        io::ErrorKind::WouldBlock,
    ] {
        assert!(is_recoverable_receive_error(kind));
    }

    for kind in [
        io::ErrorKind::AddrNotAvailable,
        io::ErrorKind::BrokenPipe,
        io::ErrorKind::Interrupted,
        io::ErrorKind::InvalidData,
        io::ErrorKind::InvalidInput,
        io::ErrorKind::NotConnected,
        io::ErrorKind::UnexpectedEof,
        io::ErrorKind::Unsupported,
    ] {
        assert!(!is_recoverable_receive_error(kind));
    }
}

#[test]
fn each_kind_of_error_has_one_class() {
    assert_eq!(classify(io::ErrorKind::Interrupted), FailureClass::Interrupted);
    assert_eq!(classify(io::ErrorKind::WouldBlock), FailureClass::Recoverable);
    assert_eq!(classify(io::ErrorKind::PermissionDenied), FailureClass::Terminal);
    assert_eq!(classify(io::ErrorKind::Other), FailureClass::Terminal);
}

#[test]
fn failed_attempts_are_answered_by_their_kind() {
    let (_receiver, mut task) = BufferedUdpReceive::new(4);

    task.packet_bufs.push(packet(b"partial"));
    let step = task.received(Err(io::Error::from(io::ErrorKind::ConnectionReset)));
    assert!(matches!(step, ReceiveStep::Sleep(10)));
    assert!(task.packet_bufs.is_empty() && task.pending.is_empty());

    task.packet_bufs.push(packet(b"partial"));
    let step = task.received(Err(io::Error::from(io::ErrorKind::Interrupted)));
    assert!(matches!(step, ReceiveStep::Receive));
    assert!(task.packet_bufs.is_empty() && task.pending.is_empty());

    let step = task.received(Err(io::Error::from(io::ErrorKind::HostUnreachable)));
    assert!(matches!(step, ReceiveStep::Sleep(20)));
    assert_eq!(task.retry_delay, 40);

    assert!(matches!(task.received(Ok(())), ReceiveStep::Deliver));
    assert_eq!(task.retry_delay, 10);

    task.packet_bufs.push(packet(b"partial"));
    match task.received(Err(io::Error::new(io::ErrorKind::NotConnected, "gone"))) {
        ReceiveStep::Finish(Err(error)) => {
            assert_eq!(error.kind(), io::ErrorKind::NotConnected);
            assert_eq!(error.to_string(), "gone");
        }
        _ => panic!("a terminal error ends the task"),
    }
    assert!(task.packet_bufs.is_empty());
}

#[test]
fn given_kind_decides_whatever_the_error() {
    let (_receiver, mut task) = BufferedUdpReceive::new(1);
    let step = task.failed(io::ErrorKind::TimedOut, io::Error::from(io::ErrorKind::Other));
    assert!(matches!(step, ReceiveStep::Sleep(10)));
    task.packet_bufs.push(packet(b"a"));
    task.packet_bufs.push(packet(b"b"));
    assert!(matches!(task.succeeded(), ReceiveStep::Deliver));
    assert_eq!(task.pending, [packet(b"a"), packet(b"b")]);
}

#[test]
fn full_channel_keeps_the_order() {
    let (mut receiver, mut task) = BufferedUdpReceive::new(2);
    task.packet_bufs = vec![packet(b"1"), packet(b"2"), packet(b"3"), packet(b"4")];
    assert!(matches!(task.received(Ok(())), ReceiveStep::Deliver));

    match task.deliver() {
        ReceiveStep::Send(Ok(blocked)) => assert_eq!(blocked, packet(b"3")),
        _ => panic!("the channel has two slots"),
    }
    assert_eq!(task.pending, [packet(b"4")]);
    assert_eq!(receiver.recv_rx.try_recv().unwrap().unwrap(), packet(b"1"));
    assert!(matches!(task.deliver(), ReceiveStep::Receive));
    assert_eq!(receiver.recv_rx.try_recv().unwrap().unwrap(), packet(b"2"));
    assert_eq!(receiver.recv_rx.try_recv().unwrap().unwrap(), packet(b"4"));
    assert!(matches!(task.deliver(), ReceiveStep::Receive));
}

#[test]
fn closed_channel_stops_delivery() {
    let (receiver, mut task) = BufferedUdpReceive::new(2);
    drop(receiver);
    task.packet_bufs = vec![packet(b"1"), packet(b"2")];
    task.received(Ok(()));
    assert!(matches!(task.deliver(), ReceiveStep::Stop));
}

#[test]
fn outcome_of_an_offer_decides_the_step() {
    assert!(matches!(ReceiveTask::offered(Ok(())), ReceiveStep::Deliver));
    let full = mpsc::error::TrySendError::Full(Ok(packet(b"x")));
    match ReceiveTask::offered(Err(full)) {
        ReceiveStep::Send(Ok(item)) => assert_eq!(item, packet(b"x")),
        _ => panic!("a full channel is waited for"),
    }
    let closed = mpsc::error::TrySendError::Closed(Ok(packet(b"x")));
    assert!(matches!(ReceiveTask::offered(Err(closed)), ReceiveStep::Stop));
    assert!(matches!(ReceiveTask::sent(Ok(())), ReceiveStep::Deliver));
    let gone = mpsc::error::SendError(Ok(packet(b"x")));
    assert!(matches!(ReceiveTask::sent(Err(gone)), ReceiveStep::Stop));
}

#[test]
fn reader_gets_what_came_out_of_the_channel() {
    let item = BufferedUdpReceive::recv_from(Some(Ok(packet(b"x"))));
    assert_eq!(item.unwrap(), packet(b"x"));
    let error = BufferedUdpReceive::recv_from(Some(Err(io::Error::from(io::ErrorKind::BrokenPipe))));
    assert_eq!(error.unwrap_err().kind(), io::ErrorKind::BrokenPipe);
    let stopped = BufferedUdpReceive::recv_from(None).unwrap_err();
    assert_eq!(stopped.kind(), io::ErrorKind::UnexpectedEof);
    assert_eq!(stopped.to_string(), "buffered UDP receive task stopped");
}

#[test]
fn new_task_receives_at_once() {
    let (_receiver, task) = BufferedUdpReceive::new(3);
    assert!(matches!(task.first_step(), ReceiveStep::Receive));
    assert_eq!(task.retry_delay, 10);
    assert!(task.packet_bufs.is_empty() && task.pending.is_empty());
}

#[test]
fn packets_of_a_failed_attempt_do_not_join_a_later_one() {
    let (_receiver, mut task) = BufferedUdpReceive::new(3);
    task.packet_bufs.push(packet(b"stale"));
    task.received(Err(io::Error::from(io::ErrorKind::Interrupted)));
    task.packet_bufs.push(packet(b"stale too"));
    task.received(Err(io::Error::from(io::ErrorKind::TimedOut)));
    task.packet_bufs.push(packet(b"fresh"));
    assert!(matches!(task.received(Ok(())), ReceiveStep::Deliver));
    assert_eq!(task.pending, [packet(b"fresh")]);
    assert!(task.packet_bufs.is_empty());
}
