use aes_gcm::aead::{Aead, KeyInit, Payload};
use ruproxy::vmess::{
    aead_open, aead_open_2b, aes128_ecb_encrypt, check_header_len, decode_step,
    encode_vmess_aead_response, kdf12, kdf16, parse_vmess_plain_header, request_of_opened, route,
    sha256_16, u16_of_opened, validate_auth_id, vmess_cmd_key, DecodeState, DecodeStep, VmessError,
    VmessRequest, VmessRoute,
};

const UUID: [u8; 16] = [11; 16];
const NOW: i64 = 1_700_000_000;

fn hex16(s: &str) -> [u8; 16] {
    let mut out = [0u8; 16];
    out.copy_from_slice(&hex::decode(s).unwrap());
    out
}

fn header(security: u8, cmd: u8, atyp: u8, addr: &[u8]) -> Vec<u8> {
    let mut h = vec![1u8];
    h.extend_from_slice(&[2; 16]);
    h.extend_from_slice(&[3; 16]);
    h.extend_from_slice(&[0, 0, security, 0, cmd]);
    h.extend_from_slice(&443u16.to_be_bytes());
    h.push(atyp);
    h.extend_from_slice(addr);
    h
}

fn target(h: &[u8]) -> String {
    parse_vmess_plain_header(h).unwrap().target
}

fn refusal(h: &[u8]) -> VmessError {
    match parse_vmess_plain_header(h) {
        Err(e) => e,
        Ok(r) => panic!("{:?}", r),
    }
}

fn seal(key: &[u8; 16], nonce: &[u8; 12], msg: &[u8]) -> Vec<u8> {
    aes_gcm::Aes128Gcm::new_from_slice(key)
        .unwrap()
        .encrypt(aes_gcm::Nonce::from_slice(nonce), Payload { msg, aad: b"" })
        .unwrap()
}

fn request(header: &[u8], announced: u16) -> Vec<u8> {
    let cmd_key = vmess_cmd_key(&UUID);
    let mut block = [0u8; 16];
    block[..8].copy_from_slice(&(NOW as u64 + 100).to_be_bytes());
    let auth_id = aes128_ecb_encrypt(&cmd_key, &block);
    let nonce = [5u8; 8];
    let mut out = auth_id.to_vec();
    out.extend_from_slice(&nonce);
    let len_key = kdf16(&UUID, b"AES Auth ID Encryption", &auth_id, &nonce);
    out.extend_from_slice(&seal(&len_key, &[0; 12], &announced.to_be_bytes()));
    let key = kdf16(&UUID, b"AEAD Resp Header Key", &auth_id, &nonce);
    let header_nonce = kdf12(&UUID, b"AEAD Resp Header Len Key", &auth_id, &nonce);
    out.extend_from_slice(&seal(&key, &header_nonce, header));
    out
}

fn decode(stream: &[u8], now: i64) -> Result<VmessRequest, VmessError> {
    let cmd_key = vmess_cmd_key(&UUID);
    let mut state = DecodeState::AuthId;
    let mut rest = stream;
    loop {
        let n = state.wanted();
        let (front, back) = rest.split_at(n);
        rest = back;
        match decode_step(&state, front, &cmd_key, &UUID, now)? {
            DecodeStep::More(next) => state = next,
            DecodeStep::Done(r) => {
                assert!(rest.is_empty());
                return Ok(r);
            }
        }
    }
}

#[test]
fn headers_name_hosts_of_three_kinds() {
    assert_eq!(target(&header(5, 1, 1, &[1, 2, 3, 4])), "1.2.3.4:443");
    assert_eq!(target(&header(3, 1, 2, b"\x0bexample.com")), "example.com:443");
    let mut ip = [0u8; 16];
    ip[15] = 1;
    assert_eq!(target(&header(0x10, 1, 3, &ip)), "[::1]:443");
    let r = parse_vmess_plain_header(&header(0, 1, 1, &[1, 2, 3, 4, 9, 9])).unwrap();
    assert_eq!(r.response_body_iv, [2; 16]);
    assert_eq!(r.response_body_key, [3; 16]);
}

#[test]
fn each_broken_header_has_its_error() {
    assert_eq!(refusal(&[1; 40]), VmessError::HeaderTooShort);
    let mut h = header(5, 1, 1, &[1, 2, 3, 4]);
    h[0] = 2;
    assert_eq!(refusal(&h), VmessError::BadVersion(2));
    assert_eq!(refusal(&header(0x14, 1, 1, &[1, 2, 3, 4])), VmessError::BadSecurity(4));
    assert_eq!(refusal(&header(5, 2, 1, &[1, 2, 3, 4])), VmessError::NotTcp(2));
    assert_eq!(refusal(&header(5, 1, 1, &[1, 2, 3])), VmessError::ShortIpv4);
    assert_eq!(refusal(&header(5, 1, 2, &[])), VmessError::ShortDomainLen);
    assert_eq!(refusal(&header(5, 1, 2, &[2, b'a'])), VmessError::ShortDomain);
    assert_eq!(refusal(&header(5, 1, 2, &[1, 0xff])), VmessError::BadDomain);
    assert_eq!(refusal(&header(5, 1, 3, &[0; 15])), VmessError::ShortIpv6);
    assert_eq!(refusal(&header(5, 1, 4, &[0; 15])), VmessError::BadAddrType(4));
}

#[test]
fn keys_and_digests_are_known_values() {
    assert_eq!(vmess_cmd_key(&[0; 16]), hex16("09853d3336089a97a833a902700b2670"));
    assert_eq!(aes128_ecb_encrypt(&[1; 16], &[2; 16]), hex16("f03f702d6016a19c16ff011ea60a8f81"));
    let mut counting = [0u8; 16];
    for i in 0..16 {
        counting[i] = i as u8;
    }
    assert_eq!(sha256_16(&counting), hex16("be45cb2605bf36bebde684841a28f0fd"));
    let key = hex16("2db374d44bc549f52a4dd78a87048283");
    assert_eq!(kdf16(&counting, b"salt", &[5; 16], &[6; 8]), key);
    assert_eq!(&kdf12(&counting, b"salt", &[5; 16], &[6; 8])[..], &key[..12]);
}

#[test]
fn proofs_are_taken_for_two_minutes() {
    let id = hex16("049fa1387262921b8c9fed9da9c182b6");
    assert_eq!(validate_auth_id(&id, &[1; 16], NOW), Ok(()));
    assert_eq!(validate_auth_id(&id, &[1; 16], NOW + 120), Ok(()));
    assert_eq!(validate_auth_id(&id, &[1; 16], NOW - 120), Ok(()));
    assert_eq!(validate_auth_id(&id, &[1; 16], NOW + 121), Err(VmessError::InvalidAuthId));
    assert_eq!(validate_auth_id(&id, &[1; 16], NOW - 121), Err(VmessError::InvalidAuthId));
    assert_eq!(validate_auth_id(&id, &[2; 16], NOW), Err(VmessError::InvalidAuthId));
    let before = hex16("c32ca12238ec39f855bd4f68a76623d3");
    assert_eq!(validate_auth_id(&before, &[1; 16], 0), Ok(()));
}

#[test]
fn sealed_parts_open_under_their_key_alone() {
    let ct = seal(&[1; 16], &[2; 12], &[0x01, 0x02]);
    assert_eq!(aead_open(&ct, &[1; 16], &[2; 12]), Some(vec![1, 2]));
    assert_eq!(aead_open(&ct, &[1; 16], &[3; 12]), None);
    assert_eq!(aead_open_2b(&ct, &[1; 16], &[2; 12]), Ok(0x0102));
    assert_eq!(aead_open_2b(&ct, &[9; 16], &[2; 12]), Err(VmessError::DecryptFailed));
    let three = seal(&[1; 16], &[2; 12], &[1, 2, 3]);
    assert_eq!(aead_open_2b(&three, &[1; 16], &[2; 12]), Err(VmessError::BadLenBlock));
    assert_eq!(aead_open(&ct[..15], &[1; 16], &[2; 12]), None);
    assert_eq!(u16_of_opened(None), Err(VmessError::DecryptFailed));
    assert_eq!(u16_of_opened(Some(vec![0xff, 0xfe])), Ok(0xfffe));
}

#[test]
fn header_lengths_have_bounds() {
    assert_eq!(check_header_len(Ok(40)), Err(VmessError::BadHeaderLen(40)));
    assert_eq!(check_header_len(Ok(41)), Ok(41));
    assert_eq!(check_header_len(Ok(2048)), Ok(2048));
    assert_eq!(check_header_len(Ok(2049)), Err(VmessError::BadHeaderLen(2049)));
    assert_eq!(check_header_len(Err(VmessError::BadLenBlock)), Err(VmessError::BadLenBlock));
}

#[test]
fn requests_are_read_step_by_step() {
    let h = header(3, 1, 2, b"\x04host");
    let r = decode(&request(&h, h.len() as u16), NOW).unwrap();
    assert_eq!(r.target, "host:443");
    assert_eq!(r.response_body_key, [3; 16]);
}

#[test]
fn requests_are_refused_at_each_step() {
    let h = header(3, 1, 2, b"\x04host");
    let good = request(&h, h.len() as u16);
    assert_eq!(decode(&good, NOW + 300).unwrap_err(), VmessError::InvalidAuthId);
    let mut bad = good.clone();
    bad[24] ^= 1;
    assert_eq!(decode(&bad, NOW).unwrap_err(), VmessError::DecryptFailed);
    let mut bad = good.clone();
    bad[50] ^= 1;
    assert_eq!(decode(&bad, NOW).unwrap_err(), VmessError::DecryptFailed);
    assert_eq!(decode(&request(&h, 40), NOW).unwrap_err(), VmessError::BadHeaderLen(40));
    let udp = header(3, 2, 2, b"\x04host");
    let stream = request(&udp, udp.len() as u16);
    assert_eq!(decode(&stream, NOW).unwrap_err(), VmessError::NotTcp(2));
    assert_eq!(request_of_opened(None).unwrap_err(), VmessError::DecryptFailed);
}

#[test]
fn answers_open_to_four_zeros() {
    let answer = encode_vmess_aead_response(&[3; 16], &[2; 16]);
    assert_eq!(answer.len(), 20);
    assert_eq!(aead_open(&answer, &sha256_16(&[3; 16]), &[2; 12]), Some(vec![0; 4]));
    assert_eq!(answer, seal(&sha256_16(&[3; 16]), &[2; 12], &[0; 4]));
}

#[test]
fn vmess_routes() {
    assert_eq!(route("tcp", false), Some(VmessRoute::Tcp));
    assert_eq!(route("tcp", true), Some(VmessRoute::Tls));
    assert_eq!(route("ws", false), Some(VmessRoute::Ws));
    assert_eq!(route("ws", true), Some(VmessRoute::WsTls));
    assert_eq!(route("reality", true), None);
}
