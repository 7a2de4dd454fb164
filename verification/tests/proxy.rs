use bytes::Bytes;
use ruproxy::address::{AddrError, SocketAddress};
use ruproxy::proxy::{
    build_udp_frame, connect_reply, parse_udp_frame, pump_step, relay_frame, session_step,
    udp_target, ConnectOutcome, SessionAction, SessionEvent,
    FragBuffer, FragTable, FrameError, PumpAction, PumpEvent, UdpFrame,
};
use ruproxy::varint::VarintError;

fn frame_bytes(addr: &[u8], payload: &[u8]) -> Vec<u8> {
    let mut v = vec![0, 0, 0, 7, 0, 9, 2, 3];
    v.push(addr.len() as u8);
    v.extend_from_slice(addr);
    v.extend_from_slice(payload);
    v
}

fn error(v: Vec<u8>) -> FrameError {
    match parse_udp_frame(Bytes::from(v)) {
        Err(e) => e,
        Ok(f) => panic!("{:?}", f),
    }
}

fn fragment(packet_id: u16, frag_id: u8, frag_total: u8, payload: &[u8]) -> UdpFrame {
    UdpFrame {
        session_id: 1,
        packet_id,
        frag_id,
        frag_total,
        addr: "h".to_string(),
        port: 1,
        payload: Bytes::from(payload.to_vec()),
    }
}

#[test]
fn frames_are_read_field_by_field() {
    let f = parse_udp_frame(Bytes::from(frame_bytes(b"example.com:53", b"query"))).unwrap();
    assert_eq!(f.session_id, 7);
    assert_eq!(f.packet_id, 9);
    assert_eq!(f.frag_id, 2);
    assert_eq!(f.frag_total, 3);
    assert_eq!(f.addr, "example.com");
    assert_eq!(f.port, 53);
    assert_eq!(&f.payload[..], b"query");
    assert_eq!(udp_target(&f), "example.com:53");
}

#[test]
fn long_addresses_have_their_length_in_two_bytes() {
    let host = "a".repeat(100);
    let addr = format!("{}:1", host);
    let mut v = vec![0u8, 0, 0, 1, 0, 0, 0, 1, 0x40, addr.len() as u8];
    v.extend_from_slice(addr.as_bytes());
    let f = parse_udp_frame(Bytes::from(v)).unwrap();
    assert_eq!(f.addr, host);
    assert!(f.payload.is_empty());
}

#[test]
fn each_broken_frame_has_its_error() {
    assert_eq!(error(vec![0; 7]), FrameError::TooShort);
    assert_eq!(error(vec![0; 8]), FrameError::AddrLen(VarintError::Empty));
    let mut v = vec![0; 8];
    v.push(0x40);
    assert_eq!(error(v), FrameError::AddrLen(VarintError::Truncated));
    assert_eq!(error(vec![0; 9]), FrameError::BadAddrLen);
    let mut v = vec![0; 8];
    v.extend_from_slice(&[0x48, 0x01]);
    assert_eq!(error(v), FrameError::BadAddrLen);
    let mut v = vec![0; 8];
    v.extend_from_slice(&[5, b'a']);
    assert_eq!(error(v), FrameError::AddrTruncated);
    assert_eq!(error(frame_bytes(&[0xff, 0xfe], b"")), FrameError::NotUtf8);
    assert_eq!(error(frame_bytes(b"nohost", b"")), FrameError::BadAddr(AddrError::NoPort));
    assert_eq!(error(frame_bytes(b"h:x", b"")), FrameError::BadAddr(AddrError::BadPort));
}

#[test]
fn replies_are_whole_packets_from_the_sender() {
    let src = SocketAddress::V4 { octets: [1, 2, 3, 4], port: 53 };
    let b = build_udp_frame(0x01020304, src, b"hi");
    let mut expected = vec![1, 2, 3, 4, 0, 0, 0, 1, 10];
    expected.extend_from_slice(b"1.2.3.4:53hi");
    assert_eq!(b.to_vec(), expected);
    let f = parse_udp_frame(b).unwrap();
    assert_eq!((f.session_id, f.packet_id, f.frag_id, f.frag_total), (0x01020304, 0, 0, 1));
    assert_eq!((f.addr.as_str(), f.port), ("1.2.3.4", 53));
    assert_eq!(&f.payload[..], b"hi");
}

#[test]
fn replies_from_ipv6_senders_read_back() {
    let mut octets = [0u8; 16];
    octets[15] = 1;
    let f = parse_udp_frame(build_udp_frame(5, SocketAddress::V6 { octets, port: 9 }, b"")).unwrap();
    assert_eq!((f.addr.as_str(), f.port), ("::1", 9));
}

#[test]
fn fragments_are_put_together_by_number() {
    let mut b = FragBuffer::new(3, "h".to_string(), 7);
    assert!(b.insert(2, Bytes::from_static(b"c")).is_none());
    assert_eq!(b.buffered_len(), Some(1));
    assert!(b.insert(0, Bytes::from_static(b"a")).is_none());
    let (packet, addr, port) = b.insert(1, Bytes::from_static(b"bb")).unwrap();
    assert_eq!(&packet[..], b"abbc");
    assert_eq!((addr.as_str(), port), ("h", 7));
}

#[test]
fn a_repeated_fragment_keeps_its_first_payload_and_does_not_count() {
    let mut b = FragBuffer::new(2, "h".to_string(), 1);
    assert!(b.insert(0, Bytes::from_static(b"a")).is_none());
    assert!(b.insert(0, Bytes::from_static(b"x")).is_none());
    let (packet, addr, port) = b.insert(1, Bytes::from_static(b"b")).unwrap();
    assert_eq!((&packet[..], addr.as_str(), port), (&b"ab"[..], "h", 1));
}

#[test]
fn a_fragment_that_was_not_announced_is_left_out() {
    let mut b = FragBuffer::new(2, "h".to_string(), 1);
    assert!(b.insert(0, Bytes::from_static(b"a")).is_none());
    assert!(b.insert(9, Bytes::from_static(b"z")).is_none());
    assert!(b.insert(2, Bytes::from_static(b"y")).is_none());
    assert_eq!(&b.insert(1, Bytes::from_static(b"b")).unwrap().0[..], b"ab");
}

#[test]
fn without_an_announced_total_every_fragment_is_a_packet() {
    let mut b = FragBuffer::new(0, "h".to_string(), 1);
    assert_eq!(&b.insert(3, Bytes::from_static(b"d")).unwrap().0[..], b"d");
    assert_eq!(&b.insert(1, Bytes::from_static(b"b")).unwrap().0[..], b"bd");
    assert_eq!(&b.insert(3, Bytes::from_static(b"x")).unwrap().0[..], b"bd");
}

#[test]
fn nothing_is_sent_while_a_fragment_is_missing() {
    let mut t = FragTable::new();
    assert!(relay_frame(fragment(1, 0, 3, b"a"), &mut t).is_none());
    assert!(relay_frame(fragment(1, 0, 3, b"x"), &mut t).is_none());
    assert!(relay_frame(fragment(1, 2, 3, b"c"), &mut t).is_none());
    assert!(relay_frame(fragment(1, 2, 3, b"y"), &mut t).is_none());
    assert!(relay_frame(fragment(1, 7, 3, b"z"), &mut t).is_none());
    assert!(t.has_room(&fragment(1, 1, 3, b"b")));
    assert_eq!(&relay_frame(fragment(1, 1, 3, b"b"), &mut t).unwrap()[..], b"abc");
}

#[test]
fn sessions_end_when_nothing_comes_or_goes() {
    assert_eq!(session_step(SessionEvent::Frame), SessionAction::Relay);
    assert_eq!(session_step(SessionEvent::Packet), SessionAction::SendFrame);
    assert_eq!(session_step(SessionEvent::Sent), SessionAction::Wait);
    for e in [
        SessionEvent::Closed,
        SessionEvent::SendFailed,
        SessionEvent::ReceiveFailed,
        SessionEvent::Idle,
    ] {
        assert_eq!(session_step(e), SessionAction::End);
    }
}

#[test]
fn whole_packets_pass_and_fragments_wait() {
    let mut t = FragTable::new();
    assert_eq!(&relay_frame(fragment(1, 0, 1, b"whole"), &mut t).unwrap()[..], b"whole");
    assert_eq!(&relay_frame(fragment(1, 0, 0, b"none"), &mut t).unwrap()[..], b"none");
    assert!(relay_frame(fragment(1, 1, 2, b"-b"), &mut t).is_none());
    assert!(t.has_room(&fragment(1, 0, 2, b"a")));
    assert_eq!(&relay_frame(fragment(1, 0, 2, b"a"), &mut t).unwrap()[..], b"a-b");
    assert!(relay_frame(fragment(1, 0, 2, b"again"), &mut t).is_none());
}

#[test]
fn packets_do_not_mix() {
    let mut t = FragTable::new();
    assert!(relay_frame(fragment(1, 0, 2, b"1a"), &mut t).is_none());
    assert!(relay_frame(fragment(2, 1, 2, b"2b"), &mut t).is_none());
    assert_eq!(&relay_frame(fragment(2, 0, 2, b"2a"), &mut t).unwrap()[..], b"2a2b");
    assert_eq!(&relay_frame(fragment(1, 1, 2, b"1b"), &mut t).unwrap()[..], b"1a1b");
}

#[test]
fn clients_are_told_how_the_connection_went() {
    assert_eq!(connect_reply(ConnectOutcome::Connected), (true, "Connected".to_string()));
    assert_eq!(
        connect_reply(ConnectOutcome::Failed("refused".to_string())),
        (false, "refused".to_string())
    );
    assert_eq!(connect_reply(ConnectOutcome::TimedOut), (false, "connection timeout".to_string()));
}

#[test]
fn bytes_are_passed_on_until_there_are_none() {
    assert_eq!(pump_step(PumpEvent::Read(5)), PumpAction::Write(5));
    assert_eq!(pump_step(PumpEvent::Read(0)), PumpAction::Finish);
    assert_eq!(pump_step(PumpEvent::Written), PumpAction::Read);
    assert_eq!(pump_step(PumpEvent::End), PumpAction::Finish);
    assert_eq!(pump_step(PumpEvent::Failed), PumpAction::Finish);
}
