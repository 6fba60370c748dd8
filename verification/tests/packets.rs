use net_core::packets::{Packet, TcpHeader, TcpState, UdpHeader};

#[test]
fn test_packet_creation() {
    let p: Packet = Packet::new(1, 0, 10, 20);

    assert_eq!(p.tcp_state, TcpState::Closed as u8);
}

#[test]
fn test_packet_movement() {
    let mut packet: Packet = Packet::new(1, 0, 0, 50);

    packet.step();

    assert!(packet.x > 0);
}

#[test]
fn test_tcp_header_size() {
    assert_eq!(20, std::mem::size_of::<TcpHeader>());
}

#[test]
fn test_udp_header_size() {
    assert_eq!(8, std::mem::size_of::<UdpHeader>());
}
