use base64::Engine;
use ruproxy::config::RealityConfig;
use ruproxy::vless::transport::reality::{
    admission, base64_decode, judge_hello, verify_reality_client, Admission, RealityError,
};

fn cfg(short_ids: &[&str]) -> RealityConfig {
    RealityConfig {
        private_key: format!(" {}\n", base64::engine::general_purpose::STANDARD.encode([3u8; 32])),
        short_ids: short_ids.iter().map(|s| s.to_string()).collect(),
        dest: "example.com:443".to_string(),
        server_name: "example.com".to_string(),
    }
}

fn hello() -> Vec<u8> {
    let mut v = vec![0u8; 43];
    v[0] = 0x16;
    v[5] = 0x01;
    v[40..43].copy_from_slice(&[0xab, 0xcd, 0xef]);
    v
}

#[test]
fn short_ids_stand_at_the_end_of_the_random_field() {
    assert_eq!(verify_reality_client(&hello(), &cfg(&["1234", "CDEF"])), Ok(()));
    assert_eq!(verify_reality_client(&hello(), &cfg(&["0000000000abcdef"])), Ok(()));
    assert_eq!(verify_reality_client(&hello(), &cfg(&[""])), Ok(()));
    assert_eq!(
        verify_reality_client(&hello(), &cfg(&["abcd"])),
        Err(RealityError::ShortIdMismatch)
    );
    assert_eq!(admission(&hello(), &cfg(&["ef"])), Admission::Accept);
    assert_eq!(
        admission(&hello(), &cfg(&[])),
        Admission::Forward(RealityError::ShortIdMismatch)
    );
}

#[test]
fn each_broken_hello_or_setting_has_its_error() {
    let none: Vec<String> = Vec::new();
    let key = Some(vec![0u8; 32]);
    assert_eq!(judge_hello(&hello()[..42], key.clone(), &none), Err(RealityError::TooShort));
    let mut h = hello();
    h[0] = 0x15;
    assert_eq!(judge_hello(&h, key.clone(), &none), Err(RealityError::NotTls(0x15)));
    let mut h = hello();
    h[5] = 0x02;
    assert_eq!(judge_hello(&h, key.clone(), &none), Err(RealityError::NotClientHello));
    assert_eq!(judge_hello(&hello(), None, &none), Err(RealityError::BadPrivateKey));
    assert_eq!(
        judge_hello(&hello(), Some(vec![0; 33]), &none),
        Err(RealityError::BadPrivateKeyLen(33))
    );
    assert_eq!(verify_reality_client(&hello(), &cfg(&["0g"])), Err(RealityError::BadShortId));
    assert_eq!(
        verify_reality_client(&hello(), &cfg(&["000000000000000000"])),
        Err(RealityError::ShortIdTooLong)
    );
}

#[test]
fn standard_base64_is_read_with_its_padding() {
    assert_eq!(base64_decode(" /+8= "), Some(vec![0xff, 0xef]));
    assert_eq!(base64_decode("/+8"), None);
    assert_eq!(base64_decode("_-8="), None);
}
