use netmux::addr::Ipv4Address;
use netmux::addr::NetAddr;
use netmux::engine::DisconnectReason;
use netmux::engine::Event;
use netmux::engine::EventEngine;
use netmux::engine::SendError;
use netmux::engine::SEND_BUFFER_WATERMARK;
use netmux::frame::encode_frame;
use netmux::registry::AdapterLauncher;
use netmux::transport::Transport;

fn engine_with_all_mounted() -> EventEngine {
    let mut launcher = AdapterLauncher::new();
    Transport::Tcp.mount_adapter(&mut launcher);
    Transport::FramedTcp.mount_adapter(&mut launcher);
    Transport::Udp.mount_adapter(&mut launcher);
    Transport::Ws.mount_adapter(&mut launcher);
    EventEngine::new(launcher)
}

fn addr(a: u8, b: u8, c: u8, d: u8, port: u16) -> NetAddr {
    NetAddr::new(Ipv4Address::new(a, b, c, d), port)
}

#[test]
fn oversize_send_is_rejected_before_transmission() {
    let mut eng = engine_with_all_mounted();
    let e = eng.connect(Transport::Udp, addr(10, 0, 0, 1, 4000));
    let too_big = vec![0u8; Transport::Udp.max_message_size() + 1];
    assert_eq!(eng.send(e, &too_big), Err(SendError::Oversized));
    // Nothing was staged for the wire and no event was produced.
    assert_eq!(eng.buffered_len(e), 0);
    assert!(eng.front_outbound(e).is_none());
    assert_eq!(eng.pending_events(), 0);
    // The same payload one byte smaller goes through.
    let just_fits = vec![0u8; Transport::Udp.max_message_size()];
    assert_eq!(eng.send(e, &just_fits), Ok(()));
}

#[test]
fn send_to_dead_endpoint_reports_resource_not_found() {
    let mut eng = engine_with_all_mounted();
    let e = eng.connect(Transport::Tcp, addr(10, 0, 0, 2, 4001));
    eng.close(e, DisconnectReason::GracefulClose);
    assert_eq!(eng.send(e, &vec![1]), Err(SendError::ResourceNotFound));
}

#[test]
fn backpressure_turns_into_busy_not_growth() {
    let mut eng = engine_with_all_mounted();
    let e = eng.connect(Transport::Tcp, addr(10, 0, 0, 3, 4002));
    let unit = vec![0u8; Transport::Tcp.max_message_size()];
    let mut sent = 0usize;
    loop {
        match eng.send(e, &unit) {
            Ok(()) => sent += unit.len(),
            Err(SendError::Busy) => break,
            Err(other) => panic!("unexpected send failure: {:?}", other),
        }
        assert!(sent <= SEND_BUFFER_WATERMARK + unit.len());
    }
    // Busy struck exactly when the buffered bytes exceeded the watermark,
    // and the buffer stopped growing there.
    assert!(eng.buffered_len(e) > SEND_BUFFER_WATERMARK);
    assert_eq!(eng.buffered_len(e), sent);
    // Draining the buffer makes the endpoint sendable again.
    while let Some(front) = eng.front_outbound(e) {
        eng.handle_write_ready(e, front.len());
    }
    assert_eq!(eng.buffered_len(e), 0);
    assert_eq!(eng.send(e, &unit), Ok(()));
}

#[test]
fn partial_writes_keep_per_endpoint_order() {
    let mut eng = engine_with_all_mounted();
    let e = eng.connect(Transport::Tcp, addr(10, 0, 0, 4, 4003));
    let first = b"AAAAA".to_vec();
    let second = b"BB".to_vec();
    assert_eq!(eng.send(e, &first), Ok(()));
    assert_eq!(eng.send(e, &second), Ok(()));
    // Flush one byte per write-readiness wake; the wire must see all of the
    // first payload before any byte of the second.
    let mut wire: Vec<u8> = Vec::new();
    while let Some(front) = eng.front_outbound(e) {
        wire.push(front[0]);
        eng.handle_write_ready(e, 1);
    }
    assert_eq!(wire, b"AAAAABB".to_vec());
    assert_eq!(eng.buffered_len(e), 0);
}

#[test]
fn framed_send_stages_prefix_and_payload_as_one_unit() {
    let mut eng = engine_with_all_mounted();
    let e = eng.connect(Transport::FramedTcp, addr(10, 0, 0, 5, 4004));
    let payload = vec![1, 2, 3];
    assert_eq!(eng.send(e, &payload), Ok(()));
    let staged = eng.front_outbound(e).unwrap();
    assert_eq!(staged, encode_frame(&payload).unwrap());
    assert_eq!(eng.buffered_len(e), staged.len());
}

#[test]
fn connect_ready_emits_exactly_one_connected_event() {
    let mut eng = engine_with_all_mounted();
    let e = eng.connect(Transport::Tcp, addr(10, 0, 0, 6, 4005));
    assert_eq!(eng.pending_events(), 0);
    eng.handle_connect_ready(e);
    match eng.next_event() {
        Some(Event::Connected(got)) => assert_eq!(got, e),
        other => panic!("expected Connected, got {:?}", other.is_some()),
    }
    assert!(eng.next_event().is_none());
}

#[test]
fn accept_assigns_fresh_endpoint_and_emits_accepted() {
    let mut eng = engine_with_all_mounted();
    let l = eng.listen(Transport::Tcp, addr(0, 0, 0, 0, 9000));
    let peer = addr(172, 16, 0, 9, 50000);
    let a = eng.handle_accepted(l, peer);
    assert_ne!(a.resource_id, l.resource_id);
    assert_eq!(a.peer, peer);
    match eng.next_event() {
        Some(Event::Accepted(got, listener)) => {
            assert_eq!(got, a);
            assert_eq!(listener, l);
        },
        _ => panic!("expected Accepted"),
    }
}

#[test]
fn framed_read_emits_one_message_per_frame() {
    let mut eng = engine_with_all_mounted();
    let e = eng.connect(Transport::FramedTcp, addr(10, 0, 0, 7, 4006));
    eng.handle_connect_ready(e);
    let _ = eng.next_event();
    let mut stream = encode_frame(&vec![1, 1]).unwrap();
    stream.extend_from_slice(&encode_frame(&vec![2, 2, 2]).unwrap());
    // Deliver in two arbitrary chunks cutting the second frame's header.
    eng.handle_framed_chunk(e, &stream[..8].to_vec());
    eng.handle_framed_chunk(e, &stream[8..].to_vec());
    match eng.next_event() {
        Some(Event::Message(got, m)) => {
            assert_eq!(got, e);
            assert_eq!(m, vec![1, 1]);
        },
        _ => panic!("expected first Message"),
    }
    match eng.next_event() {
        Some(Event::Message(_, m)) => assert_eq!(m, vec![2, 2, 2]),
        _ => panic!("expected second Message"),
    }
    assert!(eng.next_event().is_none());
}

#[test]
fn oversize_frame_header_closes_with_protocol_violation() {
    let mut eng = engine_with_all_mounted();
    let e = eng.connect(Transport::FramedTcp, addr(10, 0, 0, 8, 4007));
    eng.handle_connect_ready(e);
    let _ = eng.next_event();
    eng.handle_framed_chunk(e, &vec![255, 0, 0, 0, 1]);
    match eng.next_event() {
        Some(Event::Disconnected(got, reason)) => {
            assert_eq!(got, e);
            assert_eq!(reason, DisconnectReason::ProtocolViolation);
        },
        _ => panic!("expected Disconnected"),
    }
    assert!(!eng.is_live(e));
    assert_eq!(eng.send(e, &vec![1]), Err(SendError::ResourceNotFound));
}

#[test]
fn mid_frame_disconnect_emits_no_message_and_one_disconnected() {
    let mut eng = engine_with_all_mounted();
    let e = eng.connect(Transport::FramedTcp, addr(10, 0, 0, 9, 4008));
    eng.handle_connect_ready(e);
    let _ = eng.next_event();
    // The peer sends a partial header, then a partial body, then resets.
    let encoded = encode_frame(&vec![9; 16]).unwrap();
    eng.handle_framed_chunk(e, &encoded[..2].to_vec());
    eng.handle_framed_chunk(e, &encoded[2..10].to_vec());
    assert_eq!(eng.pending_events(), 0);
    eng.close(e, DisconnectReason::PeerReset);
    match eng.next_event() {
        Some(Event::Disconnected(got, reason)) => {
            assert_eq!(got, e);
            assert_eq!(reason, DisconnectReason::PeerReset);
        },
        _ => panic!("expected Disconnected"),
    }
    assert!(eng.next_event().is_none());
}

#[test]
fn close_is_idempotent_and_emits_exactly_one_disconnected() {
    let mut eng = engine_with_all_mounted();
    let e = eng.connect(Transport::Tcp, addr(10, 0, 0, 10, 4009));
    eng.handle_connect_ready(e);
    let _ = eng.next_event();
    eng.close(e, DisconnectReason::GracefulClose);
    eng.close(e, DisconnectReason::GracefulClose);
    assert_eq!(eng.pending_events(), 1);
    match eng.next_event() {
        Some(Event::Disconnected(_, reason)) => {
            assert_eq!(reason, DisconnectReason::GracefulClose);
        },
        _ => panic!("expected Disconnected"),
    }
}

#[test]
fn handles_are_never_reused() {
    let mut eng = engine_with_all_mounted();
    let mut seen: Vec<usize> = Vec::new();
    for i in 0..8 {
        let e = eng.connect(Transport::Tcp, addr(10, 0, 1, i as u8, 4100 + i));
        assert!(!seen.contains(&e.resource_id));
        seen.push(e.resource_id);
        // Even after the endpoint dies and its Disconnected event is
        // consumed, its handle is never reassigned.
        eng.handle_connect_ready(e);
        eng.close(e, DisconnectReason::GracefulClose);
        while eng.next_event().is_some() {}
    }
}

#[test]
fn multicast_listener_is_flagged_and_connectionless() {
    let mut eng = engine_with_all_mounted();
    let group = addr(230, 1, 2, 3, 5000);
    let l = eng.listen(Transport::Udp, group);
    assert!(eng.is_multicast_listener(l));
    assert!(!Transport::Udp.is_connection_oriented());
    // Datagrams from any sender arrive as Messages on ephemeral endpoints.
    let sender_a = addr(10, 1, 1, 1, 1111);
    let sender_b = addr(10, 2, 2, 2, 2222);
    let ea = eng.handle_datagram(l, sender_a, &vec![1]);
    let eb = eng.handle_datagram(l, sender_b, &vec![2]);
    assert_eq!(ea.resource_id, l.resource_id);
    assert_eq!(ea.peer, sender_a);
    assert_ne!(ea, eb);
    match eng.next_event() {
        Some(Event::Message(got, m)) => {
            assert_eq!(got, ea);
            assert_eq!(m, vec![1]);
        },
        _ => panic!("expected Message"),
    }
    // Closing the datagram listener produces no Disconnected event.
    let _ = eng.next_event();
    eng.close(l, DisconnectReason::GracefulClose);
    assert_eq!(eng.pending_events(), 0);
}

#[test]
fn unicast_and_boundary_addresses_resolve_multicast_correctly() {
    let mut eng = engine_with_all_mounted();
    let cases = [
        (addr(223, 255, 255, 255, 1), false),
        (addr(224, 0, 0, 0, 1), true),
        (addr(239, 255, 255, 255, 1), true),
        (addr(240, 0, 0, 0, 1), false),
        (addr(127, 0, 0, 1, 1), false),
    ];
    for (a, expect) in cases {
        let l = eng.listen(Transport::Udp, a);
        assert_eq!(eng.is_multicast_listener(l), expect, "{:?}", a);
    }
    // A non-datagram listener at a multicast-range address is not joined.
    let l = eng.listen(Transport::Tcp, addr(230, 0, 0, 1, 1));
    assert!(!eng.is_multicast_listener(l));
}

#[test]
fn raw_stream_chunks_pass_through_as_messages() {
    let mut eng = engine_with_all_mounted();
    let e = eng.connect(Transport::Tcp, addr(10, 0, 0, 11, 4010));
    eng.handle_connect_ready(e);
    let _ = eng.next_event();
    eng.handle_stream_chunk(e, &vec![1, 2]);
    eng.handle_stream_chunk(e, &vec![3]);
    match eng.next_event() {
        Some(Event::Message(_, m)) => assert_eq!(m, vec![1, 2]),
        _ => panic!("expected Message"),
    }
    match eng.next_event() {
        Some(Event::Message(_, m)) => assert_eq!(m, vec![3]),
        _ => panic!("expected Message"),
    }
}

#[test]
fn websocket_packets_are_one_message_each() {
    let mut eng = engine_with_all_mounted();
    let e = eng.connect(Transport::Ws, addr(10, 0, 0, 12, 4011));
    eng.handle_connect_ready(e);
    let _ = eng.next_event();
    eng.handle_packet(e, &vec![7, 7, 7]);
    match eng.next_event() {
        Some(Event::Message(got, m)) => {
            assert_eq!(got, e);
            assert_eq!(m, vec![7, 7, 7]);
        },
        _ => panic!("expected Message"),
    }
}

#[test]
fn events_come_out_in_fifo_order() {
    let mut eng = engine_with_all_mounted();
    let e = eng.connect(Transport::Tcp, addr(10, 0, 0, 13, 4012));
    eng.handle_connect_ready(e);
    eng.handle_stream_chunk(e, &vec![1]);
    eng.handle_stream_chunk(e, &vec![2]);
    eng.close(e, DisconnectReason::GracefulClose);
    assert!(matches!(eng.next_event(), Some(Event::Connected(_))));
    match eng.next_event() {
        Some(Event::Message(_, m)) => assert_eq!(m, vec![1]),
        _ => panic!("expected Message"),
    }
    match eng.next_event() {
        Some(Event::Message(_, m)) => assert_eq!(m, vec![2]),
        _ => panic!("expected Message"),
    }
    assert!(matches!(eng.next_event(), Some(Event::Disconnected(_, _))));
    assert!(eng.next_event().is_none());
}
