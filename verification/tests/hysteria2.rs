use bytes::Bytes;
use ruproxy::address::SocketAddress;
use ruproxy::config::AuthConfig;
use ruproxy::hysteria2::auth::{
    auth_reply, auth_reply_with, auth_result, check_credentials, end_of_stream, gen_padding,
    padding_char_at, read_tcp_request, stream_start, tcp_response_with, write_tcp_response,
    AuthResult, Handshake, RequestError, RequestState, RequestStep, FRAME_TYPE_TCP_REQUEST,
    HYSTERIA_AUTH_HEADER, STATUS_AUTH_OK,
};
use ruproxy::hysteria2::server::{
    after_auth, after_send, congestion, on_datagram, Congestion, ConnAction, DatagramAction,
    SessionMap, MAX_IDLE_TIMEOUT_SECS, MAX_INCOMING_STREAMS,
};
use ruproxy::proxy::{build_udp_frame, FrameError};

#[derive(Debug, PartialEq)]
enum Outcome {
    Ended,
    Ignored(u64),
    Refused(RequestError),
    Target(String, usize),
}

fn read(start: RequestState, stream: &[u8]) -> Outcome {
    let mut state = start;
    let mut pos = 0;
    loop {
        let n = state.wanted();
        if stream.len() - pos < n {
            return match end_of_stream(state) {
                Some(addr) => Outcome::Target(addr, stream.len()),
                None => Outcome::Ended,
            };
        }
        match read_tcp_request(state, &stream[pos..pos + n]) {
            Err(e) => return Outcome::Refused(e),
            Ok(RequestStep::Ignore(kind)) => return Outcome::Ignored(kind),
            Ok(RequestStep::Done(addr)) => return Outcome::Target(addr, pos + n),
            Ok(RequestStep::More(next)) => {
                state = next;
                pos += n;
            }
        }
    }
}

fn request(addr: &[u8], pad_len: u16, pad: &[u8]) -> Vec<u8> {
    let mut v = vec![0x44, 0x01];
    v.extend_from_slice(&(0x4000 | addr.len() as u16).to_be_bytes());
    v.extend_from_slice(addr);
    v.extend_from_slice(&(0x4000 | pad_len).to_be_bytes());
    v.extend_from_slice(pad);
    v
}

fn auth(kind: &str, password: Option<&str>) -> AuthConfig {
    AuthConfig { auth_type: kind.to_string(), password: password.map(|p| p.to_string()) }
}

#[test]
fn constants_of_the_protocol() {
    assert_eq!(HYSTERIA_AUTH_HEADER, "Hysteria-Auth");
    assert_eq!(STATUS_AUTH_OK, 233);
    assert_eq!(FRAME_TYPE_TCP_REQUEST, 0x401);
    assert_eq!(MAX_INCOMING_STREAMS, 64);
    assert_eq!(MAX_IDLE_TIMEOUT_SECS, 60);
}

#[test]
fn credentials_are_the_password_or_nothing() {
    let closed = auth("password", Some("secret"));
    assert!(check_credentials(&closed, Some("secret")));
    assert!(!check_credentials(&closed, Some("Secret")));
    assert!(!check_credentials(&closed, None));
    assert!(check_credentials(&auth("password", Some("")), None));
    assert!(!check_credentials(&auth("password", None), None));
    assert!(check_credentials(&auth("none", Some("secret")), Some("wrong")));
    assert!(check_credentials(&auth("none", None), None));
}

#[test]
fn handshakes_end_in_a_result() {
    assert!(matches!(auth_result(Handshake::Checked(true)), AuthResult::Pass));
    let fails = [
        (Handshake::Checked(false), "wrong credentials"),
        (Handshake::InitFailed("x".to_string()), "H3 connection init failed: x"),
        (Handshake::Broken("y".to_string()), "handshake error: y"),
    ];
    for (handshake, expected) in fails {
        match auth_result(handshake) {
            AuthResult::Fail(why) => assert_eq!(why, expected),
            AuthResult::Pass => panic!("let in"),
        }
    }
}

#[test]
fn answers_to_credentials() {
    let r = auth_reply_with(true, "pad".to_string());
    assert_eq!(r.status, 233);
    let pairs: Vec<(String, String)> = r.headers.into_iter().map(|h| (h.name, h.value)).collect();
    let expected = [("Hysteria-UDP", "true"), ("Hysteria-CC-RX", "0"), ("Hysteria-Padding", "pad")];
    assert_eq!(pairs.len(), 3);
    for i in 0..3 {
        assert_eq!((pairs[i].0.as_str(), pairs[i].1.as_str()), expected[i]);
    }
    let r = auth_reply(false);
    assert_eq!(r.status, 403);
    assert_eq!(r.headers[0].value, "false");
    let n = r.headers[2].value.len();
    assert!(256 <= n && n < 2048);
}

#[test]
fn padding_is_letters_and_digits() {
    let all: String = (0..62).map(padding_char_at).collect();
    assert_eq!(all, "abcdefghijklmnopqrstuvwxyzABCDEFGHIJKLMNOPQRSTUVWXYZ0123456789");
    for _ in 0..50 {
        let p = gen_padding(3, 6);
        assert!(3 <= p.len() && p.len() < 6);
        assert!(p.chars().all(|c| c.is_ascii_alphanumeric()));
    }
    assert_eq!(gen_padding(4, 5).len(), 4);
    assert_ne!(gen_padding(64, 65), gen_padding(64, 65));
}

#[test]
fn tcp_answers_have_message_and_padding() {
    let b = tcp_response_with(true, "Connected", "pp");
    let mut expected = vec![0, 9];
    expected.extend_from_slice(b"Connected");
    expected.extend_from_slice(&[2, b'p', b'p']);
    assert_eq!(b.to_vec(), expected);
    let b = write_tcp_response(false, "no");
    assert_eq!(&b[..4], &[1, 2, b'n', b'o']);
    let pad = u16::from_be_bytes([b[4], b[5]]) & 0x3fff;
    assert!(128 <= pad && pad < 1024);
    assert_eq!(b.len(), 6 + pad as usize);
}

#[test]
fn requests_are_read_with_their_padding() {
    let r = request(b"example.com:80", 5, b"ppppp");
    assert_eq!(read(stream_start(), &r), Outcome::Target("example.com:80".to_string(), r.len()));
    let mut more = r.clone();
    more.extend_from_slice(b"GET /");
    assert_eq!(read(stream_start(), &more), Outcome::Target("example.com:80".to_string(), r.len()));
    assert_eq!(read(RequestState::Len, &r[2..]), Outcome::Target("example.com:80".to_string(), r.len() - 2));
}

#[test]
fn short_forms_of_integers_are_read() {
    let mut r = vec![0x44, 0x01, 3];
    r.extend_from_slice(b"a:1");
    r.push(0);
    assert_eq!(read(stream_start(), &r), Outcome::Target("a:1".to_string(), 7));
}

#[test]
fn missing_padding_is_forgiven_and_long_padding_dropped() {
    let r = request(b"a:1", 9, b"pp");
    assert_eq!(read(stream_start(), &r), Outcome::Target("a:1".to_string(), r.len()));
    let r = request(b"a:1", 4097, b"pp");
    assert_eq!(read(stream_start(), &r), Outcome::Target("a:1".to_string(), r.len()));
    for n in [4095u16, 4096, 4097, 8192, 10000] {
        let mut r = request(b"a:1", n, &vec![b'p'; n as usize]);
        let end = r.len();
        r.extend_from_slice(b"data");
        assert_eq!(read(stream_start(), &r), Outcome::Target("a:1".to_string(), end));
    }
    let r = request(b"a:1", 0, b"pp");
    assert_eq!(read(stream_start(), &r), Outcome::Target("a:1".to_string(), r.len() - 2));
}

#[test]
fn other_streams_are_ignored_and_broken_ones_refused() {
    assert_eq!(read(stream_start(), &[0x01]), Outcome::Ignored(1));
    assert_eq!(read(stream_start(), &[0x44, 0x02]), Outcome::Ignored(0x402));
    assert_eq!(read(stream_start(), &[]), Outcome::Ended);
    assert_eq!(read(stream_start(), &[0x44]), Outcome::Ended);
    assert_eq!(read(stream_start(), &[0x44, 0x01, 0]), Outcome::Refused(RequestError::BadAddrLen(0)));
    assert_eq!(
        read(stream_start(), &[0x44, 0x01, 0x48, 0x01]),
        Outcome::Refused(RequestError::BadAddrLen(2049))
    );
    assert_eq!(read(stream_start(), &[0x44, 0x01, 1, 0xff]), Outcome::Refused(RequestError::NotUtf8));
    assert_eq!(read(stream_start(), &[0x44, 0x01, 4, b'a']), Outcome::Ended);
    assert_eq!(read(stream_start(), &[0x44, 0x01, 1, b'a']), Outcome::Ended);
}

#[test]
fn connections_without_credentials_are_closed() {
    assert!(matches!(after_auth(&AuthResult::Pass), ConnAction::Serve));
    match after_auth(&AuthResult::Fail("x".to_string())) {
        ConnAction::Close { code, reason } => {
            assert_eq!(code, 1);
            assert_eq!(reason, "auth failed");
        }
        ConnAction::Serve => panic!("served"),
    }
}

#[test]
fn a_configured_rate_is_sent_at() {
    assert_eq!(congestion(Some(5)), Congestion::Brutal(5));
    assert_eq!(congestion(None), Congestion::Cubic);
}

#[test]
fn sessions_open_once_and_anew_after_they_ended() {
    let from = SocketAddress::V4 { octets: [1, 2, 3, 4], port: 5 };
    let mut sessions: SessionMap<&str> = SessionMap::new();
    let datagram = |id: u32| build_udp_frame(id, from, b"x");
    assert!(matches!(on_datagram(&sessions, datagram(7)), DatagramAction::Open(_)));
    sessions.insert(7, "seven");
    assert_eq!(sessions.get(7), Some(&"seven"));
    match on_datagram(&sessions, datagram(7)) {
        DatagramAction::Forward(f) => assert_eq!(f.session_id, 7),
        other => panic!("{:?}", other),
    }
    assert!(matches!(on_datagram(&sessions, datagram(8)), DatagramAction::Open(_)));
    after_send(&mut sessions, 7, true);
    assert_eq!(sessions.get(7), Some(&"seven"));
    after_send(&mut sessions, 7, false);
    assert!(sessions.get(7).is_none());
    sessions.insert(7, "again");
    sessions.remove(7);
    assert!(sessions.get(7).is_none());
    assert!(matches!(on_datagram(&sessions, datagram(7)), DatagramAction::Open(_)));
    assert!(matches!(
        on_datagram(&sessions, Bytes::from_static(b"short")),
        DatagramAction::Drop(FrameError::TooShort)
    ));
}
