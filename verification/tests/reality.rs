use aes_gcm::aead::{Aead, KeyInit, Payload};
use base64::Engine;
use ruproxy::config::RealityConfig;
use ruproxy::vless::tls::reality::{
    admission, base64_url_decode, check_client_hello, cipher_suite_prefers_aes,
    extract_x25519_from_key_share, judge_opened, match_short_id, parse_x25519_key_share,
    private_key, verify_reality_client, Admission, KeyShareError, RealityError,
};

const SERVER_SECRET: [u8; 32] = [7; 32];
const CLIENT_SECRET: [u8; 32] = [9; 32];

fn cfg(short_ids: &[&str]) -> RealityConfig {
    RealityConfig {
        private_key: base64::engine::general_purpose::URL_SAFE_NO_PAD.encode(SERVER_SECRET),
        short_ids: short_ids.iter().map(|s| s.to_string()).collect(),
        dest: "example.com:443".to_string(),
        server_name: "example.com".to_string(),
    }
}

fn key_share(key: &[u8]) -> Vec<u8> {
    let mut v = vec![0, 36, 0, 0x1d, 0, 32];
    v.extend_from_slice(key);
    v
}

fn hello(suites: &[u16], extensions: &[(u16, Vec<u8>)]) -> Vec<u8> {
    let mut v = vec![0x16, 3, 1, 0, 0, 1, 0, 0, 0, 3, 3];
    for i in 0..32u8 {
        v.push(i);
    }
    v.push(32);
    v.extend_from_slice(&[0; 32]);
    v.extend_from_slice(&((suites.len() * 2) as u16).to_be_bytes());
    for s in suites {
        v.extend_from_slice(&s.to_be_bytes());
    }
    v.extend_from_slice(&[1, 0]);
    let mut ext = Vec::new();
    for (kind, data) in extensions {
        ext.extend_from_slice(&kind.to_be_bytes());
        ext.extend_from_slice(&(data.len() as u16).to_be_bytes());
        ext.extend_from_slice(data);
    }
    v.extend_from_slice(&(ext.len() as u16).to_be_bytes());
    v.extend_from_slice(&ext);
    v
}

fn client_public() -> [u8; 32] {
    *x25519_dalek::PublicKey::from(&x25519_dalek::StaticSecret::from(CLIENT_SECRET)).as_bytes()
}

fn auth_key(record: &[u8]) -> [u8; 32] {
    let server = x25519_dalek::PublicKey::from(&x25519_dalek::StaticSecret::from(SERVER_SECRET));
    let shared = x25519_dalek::StaticSecret::from(CLIENT_SECRET).diffie_hellman(&server);
    let mut key = [0u8; 32];
    hkdf::Hkdf::<sha2::Sha256>::new(Some(&record[11..31]), shared.as_bytes())
        .expand(b"REALITY", &mut key)
        .unwrap();
    key
}

fn ordinary() -> Vec<u8> {
    hello(&[0x1301, 0x1303], &[(0, vec![1, 2, 3]), (0x33, key_share(&client_public()))])
}

#[test]
fn an_ordinary_visitor_is_forwarded() {
    let record = ordinary();
    assert_eq!(verify_reality_client(&record, &cfg(&["0123"])), Err(RealityError::AesFailed));
    assert_eq!(admission(&record, &cfg(&["0123"])), Admission::Forward(RealityError::AesFailed));
    let record = hello(&[0x1303], &[(0x33, key_share(&client_public()))]);
    assert_eq!(verify_reality_client(&record, &cfg(&["0123"])), Err(RealityError::ChachaFailed));
}

// The session identifier is itself part of the data that authenticates it, so
// its tag is the solution of an equation: sealing is affine in the bits of the
// associated data, and the tag that seals itself is found by elimination.
// Where the equation has no solution, another random field is tried.
fn client_hello(plaintext: &[u8; 16]) -> Vec<u8> {
    for random in 0..=255u8 {
        let mut record = ordinary();
        record[11] = random;
        if let Some(tag) = self_sealing_tag(&mut record, plaintext) {
            record[60..76].copy_from_slice(&tag.to_be_bytes());
            return record;
        }
    }
    panic!("no such hello");
}

fn self_sealing_tag(record: &mut Vec<u8>, plaintext: &[u8; 16]) -> Option<u128> {
    let cipher = aes_gcm::Aes256Gcm::new_from_slice(&auth_key(record)).unwrap();
    let nonce = record[31..43].to_vec();
    let seal = |aad: &[u8]| {
        cipher
            .encrypt(aes_gcm::Nonce::from_slice(&nonce), Payload { msg: plaintext, aad })
            .unwrap()
    };
    record[44..60].copy_from_slice(&seal(&[])[..16]);
    let tag = |t: u128| {
        let mut r = record.clone();
        r[60..76].copy_from_slice(&t.to_be_bytes());
        let mut out = [0u8; 16];
        out.copy_from_slice(&seal(&r)[16..]);
        u128::from_be_bytes(out)
    };
    let top = |m: u128| 1u128 << (127 - m.leading_zeros());
    let base = tag(0);
    let mut rows: Vec<(u128, u128)> = Vec::new();
    for i in 0..128 {
        let bit = 1u128 << i;
        let mut row = (tag(bit) ^ base ^ bit, bit);
        for (m, x) in &rows {
            if row.0 & top(*m) != 0 {
                row = (row.0 ^ m, row.1 ^ x);
            }
        }
        if row.0 != 0 {
            rows.push(row);
        }
    }
    let mut left = base;
    let mut solution = 0u128;
    for (m, x) in &rows {
        if left & top(*m) != 0 {
            left ^= m;
            solution ^= x;
        }
    }
    if left == 0 {
        Some(solution)
    } else {
        None
    }
}

#[test]
fn a_reality_client_is_accepted() {
    let plain = [1, 8, 0, 0, 0x66, 0, 0, 0, 0x01, 0x23, 0x45, 0x67, 0, 0, 0, 0];
    let record = client_hello(&plain);
    assert_eq!(verify_reality_client(&record, &cfg(&["ffff", "01234567"])), Ok(()));
    assert_eq!(admission(&record, &cfg(&["01234567"])), Admission::Accept);
    assert_eq!(verify_reality_client(&record, &cfg(&[""])), Ok(()));
    assert_eq!(
        verify_reality_client(&record, &cfg(&["76543210"])),
        Err(RealityError::ShortIdMismatch)
    );
    assert_eq!(verify_reality_client(&record, &cfg(&["x"])), Err(RealityError::BadShortId));
    let mut other = cfg(&["01234567"]);
    other.private_key = base64::engine::general_purpose::STANDARD.encode([8u8; 32]);
    assert_eq!(verify_reality_client(&record, &other), Err(RealityError::AesFailed));
    let mut touched = record.clone();
    touched[1] ^= 1;
    assert_eq!(verify_reality_client(&touched, &cfg(&["01234567"])), Err(RealityError::AesFailed));
}

#[test]
fn hellos_are_checked_from_the_outside_in() {
    assert_eq!(check_client_hello(&ordinary()), Ok(client_public()));
    assert_eq!(check_client_hello(&ordinary()[..79]), Err(RealityError::TooShort));
    let mut r = ordinary();
    r[0] = 0x17;
    assert_eq!(check_client_hello(&r), Err(RealityError::NotHandshake(0x17)));
    let mut r = ordinary();
    r[5] = 2;
    assert_eq!(check_client_hello(&r), Err(RealityError::NotClientHello));
    let mut r = ordinary();
    r[43] = 0;
    assert_eq!(check_client_hello(&r), Err(RealityError::BadSessionIdLen(0)));
    assert_eq!(
        check_client_hello(&hello(&[0x1301], &[(0, vec![])])),
        Err(RealityError::KeyShare(KeyShareError::NoKeyShare))
    );
}

#[test]
fn the_first_known_cipher_decides() {
    assert!(cipher_suite_prefers_aes(&hello(&[0x1301, 0x1303], &[])));
    assert!(!cipher_suite_prefers_aes(&hello(&[0x1303, 0x1301], &[])));
    assert!(!cipher_suite_prefers_aes(&hello(&[0x0a0a, 0xcca8], &[])));
    assert!(cipher_suite_prefers_aes(&hello(&[0x0a0a], &[])));
    assert!(cipher_suite_prefers_aes(&hello(&[], &[])));
    assert!(cipher_suite_prefers_aes(&[0; 77]));
    let mut cut = hello(&[0x1303], &[]);
    cut.truncate(79);
    assert!(cipher_suite_prefers_aes(&cut));
}

#[test]
fn each_broken_key_share_has_its_error() {
    let full = ordinary();
    assert_eq!(extract_x25519_from_key_share(&full[..77]), Err(KeyShareError::NoCipherSuites));
    assert_eq!(extract_x25519_from_key_share(&full[..82]), Err(KeyShareError::NoCompressionMethods));
    assert_eq!(extract_x25519_from_key_share(&full[..84]), Err(KeyShareError::NoExtensions));
    assert_eq!(
        extract_x25519_from_key_share(&full[..full.len() - 1]),
        Err(KeyShareError::ExtensionsTooLong)
    );
    let mut r = hello(&[0x1301], &[(0, vec![1, 2, 3, 4])]);
    let n = r.len();
    r[n - 5] = 9;
    assert_eq!(extract_x25519_from_key_share(&r), Err(KeyShareError::ExtensionTooLong));
    assert_eq!(parse_x25519_key_share(&[0]), Err(KeyShareError::TooShort));
    assert_eq!(parse_x25519_key_share(&[0, 4, 0, 0x1d, 0, 32]), Err(KeyShareError::EntryTooLong));
    assert_eq!(parse_x25519_key_share(&[0, 0]), Err(KeyShareError::NoX25519));
}

#[test]
fn keys_of_other_groups_are_passed_over() {
    let mut data = vec![0, 43, 0x0a, 0x0a, 0, 1, 0];
    data.extend_from_slice(&[0x11, 0xec, 0, 2, 5, 5]);
    data.extend_from_slice(&[0, 0x1d, 0, 32]);
    data.extend_from_slice(&[4; 32]);
    data[1] = (data.len() - 2) as u8;
    assert_eq!(parse_x25519_key_share(&data), Ok([4; 32]));
}

#[test]
fn base64_of_either_alphabet_is_read() {
    assert_eq!(base64_url_decode(" _-8 "), Some(vec![0xff, 0xef]));
    assert_eq!(base64_url_decode("/+8="), Some(vec![0xff, 0xef]));
    assert_eq!(base64_url_decode("not base64!"), None);
}

#[test]
fn private_keys_have_32_bytes() {
    assert_eq!(private_key(None), Err(RealityError::BadPrivateKey));
    assert_eq!(private_key(Some(vec![1; 31])), Err(RealityError::BadPrivateKeyLen(31)));
    assert_eq!(private_key(Some(vec![1; 32])), Ok([1; 32]));
    let mut c = cfg(&[""]);
    c.private_key = "!".to_string();
    assert_eq!(verify_reality_client(&ordinary(), &c), Err(RealityError::BadPrivateKey));
    c.private_key = "AAAA".to_string();
    assert_eq!(verify_reality_client(&ordinary(), &c), Err(RealityError::BadPrivateKeyLen(3)));
}

#[test]
fn short_ids_stand_after_eight_bytes() {
    let plain = [0u8, 0, 0, 0, 0, 0, 0, 0, 0x01, 0x23, 0x45, 0, 0, 0, 0, 0];
    let ids = |v: &[&str]| v.iter().map(|s| s.to_string()).collect::<Vec<String>>();
    assert_eq!(match_short_id(&plain, &ids(&["ff", "0123"])), Ok(()));
    assert_eq!(match_short_id(&plain, &ids(&["0124"])), Err(RealityError::ShortIdMismatch));
    assert_eq!(match_short_id(&plain, &ids(&[])), Err(RealityError::ShortIdMismatch));
    assert_eq!(match_short_id(&plain, &ids(&[""])), Ok(()));
    assert_eq!(match_short_id(&[], &ids(&["", "zz"])), Ok(()));
    assert_eq!(match_short_id(&plain, &ids(&["012"])), Err(RealityError::BadShortId));
    assert_eq!(match_short_id(&plain, &ids(&["zz", "0123"])), Err(RealityError::BadShortId));
    assert_eq!(match_short_id(&plain, &ids(&["012345678901234567"])), Err(RealityError::ShortIdTooLong));
    assert_eq!(match_short_id(&plain[..9], &ids(&["0123"])), Err(RealityError::ShortIdMismatch));
    assert_eq!(judge_opened(None, true, &ids(&[""])), Err(RealityError::AesFailed));
    assert_eq!(judge_opened(None, false, &ids(&[""])), Err(RealityError::ChachaFailed));
}
