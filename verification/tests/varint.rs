use bytes::{Bytes, BytesMut};
use ruproxy::varint::{read_varint_bytes, varint_join, varint_size, write_varint, VarintError};

fn written(v: u64) -> Vec<u8> {
    let mut buf = BytesMut::new();
    write_varint(&mut buf, v);
    buf.to_vec()
}

#[test]
fn integers_take_the_shortest_form() {
    assert_eq!(written(0), vec![0]);
    assert_eq!(written(63), vec![63]);
    assert_eq!(written(64), vec![0x40, 64]);
    assert_eq!(written(0x401), vec![0x44, 0x01]);
    assert_eq!(written(16383), vec![0x7f, 0xff]);
    assert_eq!(written(16384), vec![0x80, 0, 0x40, 0]);
    assert_eq!(written(0x4000_0000), vec![0xc0, 0, 0, 0, 0x40, 0, 0, 0]);
    assert_eq!(written(u64::MAX), vec![0xff; 8]);
}

#[test]
fn integers_read_back() {
    for v in [0u64, 1, 63, 64, 300, 16383, 16384, 0x3fff_ffff, 0x4000_0000, (1u64 << 62) - 1] {
        let mut bytes = written(v);
        bytes.push(0xaa);
        let mut data = Bytes::from(bytes);
        assert_eq!(read_varint_bytes(&mut data), Ok(v));
        assert_eq!(&data[..], &[0xaa][..]);
    }
}

#[test]
fn known_encodings_of_integers() {
    let mut data = Bytes::from(vec![0xc2, 0x19, 0x7c, 0x5e, 0xff, 0x14, 0xe8, 0x8c]);
    assert_eq!(read_varint_bytes(&mut data), Ok(151_288_809_941_952_652));
    let mut data = Bytes::from(vec![0x9d, 0x7f, 0x3e, 0x7d]);
    assert_eq!(read_varint_bytes(&mut data), Ok(494_878_333));
    let mut data = Bytes::from(vec![0x40, 0x25]);
    assert_eq!(read_varint_bytes(&mut data), Ok(37));
}

#[test]
fn missing_bytes_of_integers_are_told_apart() {
    let mut data = Bytes::new();
    assert_eq!(read_varint_bytes(&mut data), Err(VarintError::Empty));
    let mut data = Bytes::from(vec![0x80, 1, 2]);
    assert_eq!(read_varint_bytes(&mut data), Err(VarintError::Truncated));
    assert!(data.is_empty());
}

#[test]
fn integers_in_two_parts() {
    assert_eq!(varint_size(0x3f), 1);
    assert_eq!(varint_size(0x44), 2);
    assert_eq!(varint_size(0xbf), 4);
    assert_eq!(varint_size(0xc0), 8);
    assert_eq!(varint_join(0x44, &[0x01]), 0x401);
}
