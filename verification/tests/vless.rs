use ruproxy::config::{RealityConfig, VlessTransportConfig};
use ruproxy::proxy::ConnectOutcome;
use ruproxy::vless::listener::{
    check_command, connect_result, route, tls_setup, Route, RouteError, TlsSetup,
};
use ruproxy::vless::protocol::{
    decode_request, encode_response, parse_uuid, RequestState, RequestStep, VlessError, VlessRequest,
};
use ruproxy::vless::transport::tls::{
    alpn_protocols, cert_source, certificate_of, check_chain, check_key, load_certs, load_key,
    self_signed, vless_cert_source, CertSource, KeyForm, PrivateKey, TlsError,
};

fn transport(kind: &str, tls: bool, reality: bool) -> VlessTransportConfig {
    let mut t = VlessTransportConfig::default();
    t.kind = kind.to_string();
    t.tls = tls;
    if reality {
        t.reality = Some(RealityConfig {
            private_key: String::new(),
            short_ids: Vec::new(),
            dest: String::new(),
            server_name: String::new(),
        });
    }
    t
}

#[test]
fn reality_and_tls_are_set_up_before_listening() {
    assert_eq!(tls_setup(&transport("reality", false, true)), Ok(TlsSetup::Reality));
    assert_eq!(tls_setup(&transport("reality", true, false)), Err(RouteError::NoRealitySection));
    assert_eq!(tls_setup(&transport("ws", true, false)), Ok(TlsSetup::Standard));
    assert_eq!(tls_setup(&transport("tcp", false, true)), Ok(TlsSetup::Plain));
}

#[test]
fn connections_take_the_configured_way() {
    assert_eq!(route(&transport("reality", false, true), true), Ok(Route::Reality));
    assert_eq!(route(&transport("tcp", false, false), false), Ok(Route::Tcp));
    assert_eq!(route(&transport("tcp", true, false), true), Ok(Route::Tls));
    assert_eq!(route(&transport("ws", false, false), false), Ok(Route::Ws));
    assert_eq!(route(&transport("ws", true, false), true), Ok(Route::WsTls));
    assert_eq!(route(&transport("reality", false, false), true), Err(RouteError::NoRealitySection));
    assert_eq!(route(&transport("reality", false, true), false), Err(RouteError::NoRealityAcceptor));
    assert_eq!(route(&transport("ws", true, false), false), Err(RouteError::NoTlsAcceptor));
    assert_eq!(route(&transport("quic", true, false), true), Err(RouteError::UnknownTransport));
}

#[test]
fn only_tcp_is_served() {
    assert_eq!(check_command(1), Ok(()));
    assert_eq!(check_command(2), Err(2));
    assert_eq!(connect_result(ConnectOutcome::Connected), Ok(()));
    assert_eq!(connect_result(ConnectOutcome::Failed("e".to_string())), Err("e".to_string()));
    assert_eq!(connect_result(ConnectOutcome::TimedOut), Err("connect timeout".to_string()));
}

#[test]
fn certificates_come_from_files_or_are_made() {
    match cert_source(Some("c"), Some("k"), None) {
        CertSource::Files { cert, key } => assert_eq!((cert, key), ("c", "k")),
        other => panic!("{:?}", other),
    }
    match cert_source(Some("c"), None, Some("d")) {
        CertSource::SelfSigned { domain } => assert_eq!(domain, "d"),
        other => panic!("{:?}", other),
    }
    match cert_source(None, None, None) {
        CertSource::SelfSigned { domain } => assert_eq!(domain, "localhost"),
        other => panic!("{:?}", other),
    }
    match vless_cert_source(&transport("tcp", true, false)) {
        CertSource::SelfSigned { domain } => assert_eq!(domain, "localhost"),
        other => panic!("{:?}", other),
    }
    assert_eq!(alpn_protocols(), vec![b"h2".to_vec(), b"http/1.1".to_vec()]);
}

#[test]
fn chains_and_keys_may_not_be_missing() {
    assert_eq!(check_chain(None), Err(TlsError::BadCerts));
    assert_eq!(check_chain(Some(vec![])), Err(TlsError::NoCerts));
    assert_eq!(check_chain(Some(vec![vec![1]])), Ok(vec![vec![1]]));
    assert_eq!(check_key(None).unwrap_err(), TlsError::BadKey);
    assert_eq!(check_key(Some(None)).unwrap_err(), TlsError::NoKey);
    let k = check_key(Some(Some(PrivateKey { form: KeyForm::Sec1, der: vec![4] }))).unwrap();
    assert_eq!((k.form, k.der), (KeyForm::Sec1, vec![4]));
    assert_eq!(certificate_of(None).unwrap_err(), TlsError::NotMade);
    let c = certificate_of(Some((vec![1], vec![2]))).unwrap();
    assert_eq!((c.chain, c.key.form, c.key.der), (vec![vec![1]], KeyForm::Pkcs8, vec![2]));
}

#[test]
fn pem_files_are_read() {
    let made = rcgen::generate_simple_self_signed(vec!["example.com".to_string()]).unwrap();
    let cert = made.cert.pem();
    let key = made.key_pair.serialize_pem();
    let two = format!("{}{}{}", cert, key, cert);
    let der = made.cert.der().to_vec();
    assert_eq!(load_certs(two.as_bytes()), Ok(vec![der.clone(), der]));
    let k = load_key(two.as_bytes()).unwrap();
    assert_eq!((k.form, k.der), (KeyForm::Pkcs8, made.key_pair.serialize_der()));
    assert_eq!(load_certs(key.as_bytes()), Err(TlsError::NoCerts));
    assert_eq!(load_key(cert.as_bytes()).unwrap_err(), TlsError::NoKey);
    let cut = &cert[..cert.len() / 2];
    assert_eq!(load_certs(cut.as_bytes()), Err(TlsError::BadCerts));
    assert_eq!(load_key(cut.as_bytes()).unwrap_err(), TlsError::BadKey);
}

#[test]
fn certificates_are_made_for_a_domain() {
    let c = self_signed("made.example").unwrap();
    assert_eq!(c.chain.len(), 1);
    assert!(c.chain[0].windows(12).any(|w| w == b"made.example"));
    assert!(c.key.der.len() > 32);
    assert_eq!(self_signed("not ascii: \u{e9}").unwrap_err(), TlsError::NotMade);
}

#[test]
fn uuids_are_32_digits() {
    let id = parse_uuid("01234567-89ab-cdef-0123-456789ABCDEF").unwrap();
    assert_eq!(id[..8], [0x01, 0x23, 0x45, 0x67, 0x89, 0xab, 0xcd, 0xef]);
    assert_eq!(id[8..], id[..8]);
    assert!(parse_uuid("0123").is_none());
    assert!(parse_uuid("g1234567-89ab-cdef-0123-456789abcdef").is_none());
}

fn decode(stream: &[u8]) -> Result<VlessRequest, VlessError> {
    let mut state = RequestState::Head;
    let mut pos = 0;
    loop {
        let n = state.wanted();
        match decode_request(&state, &stream[pos..pos + n], &[8; 16])? {
            RequestStep::More(next) => state = next,
            RequestStep::Done(r) => return Ok(r),
        }
        pos += n;
    }
}

fn stream(addons: &[u8], tail: &[u8]) -> Vec<u8> {
    let mut v = vec![0];
    v.extend_from_slice(&[8; 16]);
    v.push(addons.len() as u8);
    v.extend_from_slice(addons);
    v.extend_from_slice(&[1, 0x01, 0xbb]);
    v.extend_from_slice(tail);
    v
}

#[test]
fn vless_requests_name_hosts_of_three_kinds() {
    let r = decode(&stream(&[], &[1, 1, 2, 3, 4])).unwrap();
    assert_eq!((r.command, r.target.as_str()), (1, "1.2.3.4:443"));
    let r = decode(&stream(&[9, 9, 9], b"\x02\x04host")).unwrap();
    assert_eq!(r.target, "host:443");
    let mut tail = [0u8; 17];
    tail[0] = 3;
    tail[16] = 1;
    assert_eq!(decode(&stream(&[], &tail)).unwrap().target, "[::1]:443");
}

#[test]
fn each_broken_vless_request_has_its_error() {
    let mut v = stream(&[], &[1, 1, 2, 3, 4]);
    v[0] = 1;
    assert_eq!(decode(&v).unwrap_err(), VlessError::BadVersion(1));
    let mut v = stream(&[], &[1, 1, 2, 3, 4]);
    v[5] = 0;
    assert_eq!(decode(&v).unwrap_err(), VlessError::UnknownUser);
    assert_eq!(decode(&stream(&[], &[7])).unwrap_err(), VlessError::BadAddrType(7));
    assert_eq!(decode(&stream(&[], &[2, 1, 0xff])).unwrap_err(), VlessError::BadDomain);
    assert_eq!(encode_response(), [0, 0]);
}
