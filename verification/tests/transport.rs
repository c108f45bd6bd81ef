use netmux::registry::AdapterLauncher;
use netmux::transport::Transport;
use netmux::transport::MAX_UDP_PAYLOAD_LEN;
use netmux::transport::MAX_WS_PAYLOAD_LEN;
use netmux::transport::TCP_INPUT_BUFFER_LEN;
use netmux::frame::MAX_FRAMED_TCP_PAYLOAD_LEN;

const ALL: [Transport; 4] = [Transport::Tcp, Transport::FramedTcp, Transport::Udp, Transport::Ws];

#[test]
fn ids_follow_declaration_order() {
    assert_eq!(Transport::Tcp.id(), 0);
    assert_eq!(Transport::FramedTcp.id(), 1);
    assert_eq!(Transport::Udp.id(), 2);
    assert_eq!(Transport::Ws.id(), 3);
}

#[test]
fn ids_are_distinct_and_stable() {
    for a in ALL {
        assert!(a.id() <= 3);
        assert_eq!(a.id(), a.id());
        for b in ALL {
            if a != b {
                assert_ne!(a.id(), b.id());
            }
        }
    }
}

#[test]
fn connection_oriented_flags() {
    assert!(Transport::Tcp.is_connection_oriented());
    assert!(Transport::FramedTcp.is_connection_oriented());
    assert!(!Transport::Udp.is_connection_oriented());
    assert!(Transport::Ws.is_connection_oriented());
}

#[test]
fn packet_based_flags() {
    assert!(!Transport::Tcp.is_packet_based());
    assert!(Transport::FramedTcp.is_packet_based());
    assert!(Transport::Udp.is_packet_based());
    assert!(Transport::Ws.is_packet_based());
}

#[test]
fn payload_ceilings() {
    assert_eq!(Transport::Tcp.max_message_size(), TCP_INPUT_BUFFER_LEN);
    assert_eq!(Transport::Tcp.max_message_size(), 65536);
    assert_eq!(Transport::FramedTcp.max_message_size(), MAX_FRAMED_TCP_PAYLOAD_LEN);
    assert_eq!(Transport::FramedTcp.max_message_size(), 16777215);
    assert_eq!(Transport::Udp.max_message_size(), MAX_UDP_PAYLOAD_LEN);
    assert_eq!(Transport::Udp.max_message_size(), 65507);
    assert_eq!(Transport::Ws.max_message_size(), MAX_WS_PAYLOAD_LEN);
    assert_eq!(Transport::Ws.max_message_size(), 16777215);
}

#[test]
fn names() {
    assert_eq!(Transport::Tcp.name(), "Tcp");
    assert_eq!(Transport::FramedTcp.name(), "FramedTcp");
    assert_eq!(Transport::Udp.name(), "Udp");
    assert_eq!(Transport::Ws.name(), "Ws");
}

#[test]
fn mounting_binds_each_transport_under_its_id() {
    let mut launcher = AdapterLauncher::new();
    for t in ALL {
        assert!(!launcher.is_mounted(t));
    }
    for t in ALL {
        t.mount_adapter(&mut launcher);
    }
    for t in ALL {
        assert!(launcher.is_mounted(t));
        assert_eq!(launcher.lookup(t.id()), Some(t));
    }
}
