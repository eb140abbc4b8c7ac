//! Buffered sending over real channels.
use std::io;
use udp_buffer::packet::{Datagram, Family, Packet, SocketAddr, SocketAddrV4, SocketAddrV6};
use udp_buffer::send::{BufferedUdpSend, SendStep, SendTask};

fn v4(contents: &[u8]) -> Datagram {
    let addr = SocketAddrV4 { ip: [10, 0, 0, 1], port: 51820 };
    (Packet { data: contents.to_vec() }, SocketAddr::V4(addr))
}

fn v6(contents: &[u8]) -> Datagram {
    let addr = SocketAddrV6 { ip: [7; 16], port: 51820, flowinfo: 0, scope_id: 0 };
    (Packet { data: contents.to_vec() }, SocketAddr::V6(addr))
}

fn send(sender: &BufferedUdpSend, datagram: Datagram) {
    let (tx, item) = sender.send_to(datagram.0, datagram.1);
    tx.try_send(item).unwrap();
}

fn take_v4(task: &mut SendTask) -> usize {
    task.rx_v4.blocking_recv_many(&mut task.buf_v4, task.max_packet_count)
}

fn take_v6(task: &mut SendTask) -> usize {
    task.rx_v6.blocking_recv_many(&mut task.buf_v6, task.max_packet_count)
}

#[test]
fn packets_go_to_the_channel_of_their_family() {
    let (sender, mut task) = BufferedUdpSend::new(4, 8);
    send(&sender, v4(b"a"));
    send(&sender, v6(b"b"));
    send(&sender, v4(b"c"));
    assert_eq!(take_v4(&mut task), 2);
    assert_eq!(take_v6(&mut task), 1);
    assert_eq!(task.buf_v4, [v4(b"a"), v4(b"c")]);
    assert_eq!(task.buf_v6, [v6(b"b")]);
}

#[test]
fn capacity_is_that_of_either_channel() {
    let (sender, _task) = BufferedUdpSend::new(37, 1);
    assert_eq!(sender.max_number_of_packets_to_send(), 37);
    assert_eq!(sender.clone().max_number_of_packets_to_send(), 37);
    let (tx, item) = sender.send_to(v6(b"x").0, v6(b"x").1);
    assert_eq!(tx.max_capacity(), 37);
    assert_eq!(item, v6(b"x"));
}

#[test]
fn clones_share_the_channels() {
    let (sender, mut task) = BufferedUdpSend::new(4, 8);
    send(&sender.clone(), v4(b"a"));
    send(&sender, v4(b"b"));
    assert_eq!(take_v4(&mut task), 2);
    assert_eq!(task.buf_v4, [v4(b"a"), v4(b"b")]);
}

#[test]
fn one_packet_is_sent_alone() {
    let (sender, mut task) = BufferedUdpSend::new(4, 8);
    send(&sender, v6(b"only"));
    let count = take_v6(&mut task);
    match task.received(Family::V6, count) {
        SendStep::Send(packet, addr) => assert_eq!((packet, addr), v6(b"only")),
        _ => panic!("one packet was taken"),
    }
    assert!(task.buf_v6.is_empty());
}

#[test]
fn several_packets_are_sent_at_once_and_bounded() {
    let (sender, mut task) = BufferedUdpSend::new(4, 3);
    for contents in [b"1", b"2", b"3", b"4"] {
        send(&sender, v4(contents));
    }
    let count = take_v4(&mut task);
    assert!(matches!(task.received(Family::V4, count), SendStep::SendMany));
    assert_eq!(task.buf_v4, [v4(b"1"), v4(b"2"), v4(b"3")]);
    task.buf_v4.clear();
    assert_eq!(task.sent_many(Family::V4, Ok(())), 0);
    let count = take_v4(&mut task);
    match task.received(Family::V4, count) {
        SendStep::Send(packet, addr) => assert_eq!((packet, addr), v4(b"4")),
        _ => panic!("one packet was left"),
    }
}

#[test]
fn error_drops_what_is_left_of_the_batch() {
    let (sender, mut task) = BufferedUdpSend::new(4, 4);
    for contents in [b"1", b"2", b"3"] {
        send(&sender, v4(contents));
    }
    task.buf_v6.push(v6(b"other"));
    let count = take_v4(&mut task);
    assert!(matches!(task.received(Family::V4, count), SendStep::SendMany));
    task.buf_v4.remove(0);
    let error = io::Error::from(io::ErrorKind::NetworkUnreachable);
    assert_eq!(task.sent_many(Family::V4, Err(error)), 2);
    assert!(task.buf_v4.is_empty());
    assert_eq!(task.buf_v6, [v6(b"other")]);
    let error = io::Error::from(io::ErrorKind::NetworkUnreachable);
    assert_eq!(task.sent_many(Family::V6, Err(error)), 1);
}

#[test]
fn what_a_transport_leaves_stays_after_success() {
    let (_sender, mut task) = BufferedUdpSend::new(4, 4);
    task.buf_v6 = vec![v6(b"left")];
    assert_eq!(task.sent_many(Family::V6, Ok(())), 0);
    task.buf_v6.push(v6(b"new"));
    match task.received(Family::V6, 1) {
        SendStep::Send(packet, addr) => assert_eq!((packet, addr), v6(b"new")),
        _ => panic!("one packet was taken"),
    }
    assert_eq!(task.buf_v6, [v6(b"left")]);
}

#[test]
fn task_stops_when_no_packet_comes() {
    let (sender, mut task) = BufferedUdpSend::new(1, 4);
    drop(sender);
    let count = take_v4(&mut task);
    assert!(matches!(task.received(Family::V4, count), SendStep::Stop));

    let (sender, mut task) = BufferedUdpSend::new(1, 0);
    send(&sender, v4(b"never taken"));
    let count = take_v4(&mut task);
    assert!(matches!(task.received(Family::V4, count), SendStep::Stop));
}

#[test]
fn sending_goes_on_after_a_failed_call() {
    let (sender, mut task) = BufferedUdpSend::new(8, 2);
    for contents in [b"1", b"2", b"3"] {
        send(&sender, v6(contents));
    }
    let count = take_v6(&mut task);
    assert!(matches!(task.received(Family::V6, count), SendStep::SendMany));
    assert_eq!(task.buf_v6, [v6(b"1"), v6(b"2")]);
    let error = io::Error::from(io::ErrorKind::HostUnreachable);
    assert_eq!(task.sent_many(Family::V6, Err(error)), 2);
    let count = take_v6(&mut task);
    match task.received(Family::V6, count) {
        SendStep::Send(packet, addr) => assert_eq!((packet, addr), v6(b"3")),
        _ => panic!("one packet was left"),
    }
    assert!(task.buf_v6.is_empty());
}

#[test]
fn clones_outlive_the_handle_they_come_from() {
    let (sender, mut task) = BufferedUdpSend::new(4, 8);
    let first = sender.clone();
    drop(sender);
    let second = first.clone();
    drop(first);
    send(&second, v4(b"a"));
    send(&second, v6(b"b"));
    assert_eq!(take_v4(&mut task), 1);
    assert_eq!(take_v6(&mut task), 1);
    assert_eq!((&task.buf_v4, &task.buf_v6), (&vec![v4(b"a")], &vec![v6(b"b")]));
}
