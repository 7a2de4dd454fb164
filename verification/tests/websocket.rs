use ruproxy::vless::transport::websocket::{check_path, outgoing, WsMessage, WsReader, WsStep};

fn data(step: WsStep) -> Vec<u8> {
    match step {
        WsStep::Data(v) => v,
        other => panic!("{:?}", other),
    }
}

#[test]
fn only_the_configured_path_is_upgraded() {
    assert_eq!(check_path("/ws", "/ws"), Ok(()));
    assert_eq!(check_path("/ws/", "/ws"), Err(404));
    assert_eq!(check_path("", "/"), Err(404));
}

#[test]
fn messages_are_read_as_one_stream() {
    let mut r = WsReader::new();
    assert!(r.take_waiting(8).is_none());
    assert_eq!(data(r.take_message(WsMessage::Binary(b"abcdef".to_vec()), 4)), b"abcd");
    assert_eq!(&r.take_waiting(1).unwrap()[..], b"e");
    assert_eq!(&r.take_waiting(9).unwrap()[..], b"f");
    assert!(r.take_waiting(9).is_none());
    assert_eq!(data(r.take_message(WsMessage::Text("gh".to_string()), 9)), b"gh");
    assert!(r.take_waiting(9).is_none());
}

#[test]
fn control_and_empty_messages_are_passed_over() {
    let mut r = WsReader::new();
    assert!(matches!(r.take_message(WsMessage::Control, 9), WsStep::Next));
    assert!(matches!(r.take_message(WsMessage::Binary(Vec::new()), 9), WsStep::Next));
    assert!(matches!(r.take_message(WsMessage::Text(String::new()), 9), WsStep::Next));
    assert!(matches!(r.take_message(WsMessage::Close, 9), WsStep::End));
}

#[test]
fn a_read_without_room_keeps_the_bytes() {
    let mut r = WsReader::new();
    assert!(data(r.take_message(WsMessage::Binary(b"xy".to_vec()), 0)).is_empty());
    assert_eq!(&r.take_waiting(2).unwrap()[..], b"xy");
}

#[test]
fn bytes_go_out_whole() {
    assert_eq!(outgoing(b"abc"), (b"abc".to_vec(), 3));
}

#[test]
fn what_one_end_writes_the_other_end_reads() {
    let mut r = WsReader::new();
    let mut got = Vec::new();
    for chunk in [&b"hello "[..], b"", b"big world"] {
        let (bytes, n) = outgoing(chunk);
        assert_eq!(n, chunk.len());
        match r.take_message(WsMessage::Binary(bytes), 4) {
            WsStep::Data(out) => got.extend_from_slice(&out),
            WsStep::Next => continue,
            WsStep::End => panic!("ended"),
        }
        while let Some(out) = r.take_waiting(4) {
            got.extend_from_slice(&out);
        }
    }
    assert_eq!(got, b"hello big world");
}
