use ruproxy::config::{
    default_log_level, default_masquerade_type, default_self_signed_domain, default_transport_type,
    default_true, default_ws_path, AuthConfig, BandwidthConfig, LogConfig, MasqueradeConfig, Rate,
    VlessTransportConfig,
};

fn exact(s: &str) -> u64 {
    match BandwidthConfig::parse_bps(s) {
        Some(Rate::Exact(n)) => n,
        other => panic!("{:?}", other),
    }
}

#[test]
fn whole_rates_are_counted_in_bytes() {
    assert_eq!(exact("100 mbps"), 12_500_000);
    assert_eq!(exact(" 1 Gbps\t"), 125_000_000);
    assert_eq!(exact("7kbps"), 875);
    assert_eq!(exact("1 kbps"), 125);
    assert_eq!(exact("+9 bps"), 9);
    assert_eq!(exact("18446744073709551615bps"), u64::MAX);
}

fn kept(s: &str) -> (String, u64) {
    match BandwidthConfig::parse_bps(s) {
        Some(Rate::Decimal { number, bits }) => (number, bits),
        other => panic!("{:?}", other),
    }
}

#[test]
fn whole_rates_agree_with_doubles() {
    for (text, n, unit) in [
        ("100 mbps", 100f64, 1e6),
        ("9007199 gbps", 9007199f64, 1e9),
        ("9007200 gbps", 9007200f64, 1e9),
        ("4294967295 gbps", 4294967295f64, 1e9),
        ("4294967295000 mbps", 4294967295000f64, 1e6),
        ("4294967295000000 kbps", 4294967295000000f64, 1e3),
        ("18446744073709549568 gbps", 18446744073709549568f64, 1e9),
        ("16777216000000000000 gbps", 16777216000000000000f64, 1e9),
        ("3kbps", 3f64, 1e3),
    ] {
        match BandwidthConfig::parse_bps(text) {
            Some(Rate::Exact(got)) => assert_eq!(got, (n * unit / 8.0) as u64, "{}", text),
            Some(Rate::Decimal { number, bits }) => {
                assert_eq!(number.parse::<f64>().unwrap(), n);
                assert_eq!(bits as f64, unit);
            }
            None => panic!("{}", text),
        }
    }
}

#[test]
fn units_agree_on_whole_rates() {
    for n in [0u64, 1, 9_007_200, 4_294_967_295] {
        assert_eq!(exact(&format!("{} gbps", n)), n * 125_000_000);
        assert_eq!(exact(&format!("{} mbps", n * 1_000)), n * 125_000_000);
        assert_eq!(exact(&format!("{} kbps", n * 1_000_000)), n * 125_000_000);
        assert_eq!(exact(&format!("{} bps", n)), n);
    }
}

#[test]
fn rates_that_are_too_large_to_count_stop_at_the_largest_count() {
    assert_eq!(exact("9223372036854775808 gbps"), u64::MAX);
}

#[test]
fn broken_rates_keep_their_number() {
    assert_eq!(kept("1.5 Mbps"), ("1.5".to_string(), 1_000_000));
    assert_eq!(kept("4611686019 gbps"), ("4611686019".to_string(), 1_000_000_000));
    assert_eq!(kept("18446744073709551616 kbps"), ("18446744073709551616".to_string(), 1_000));
}

#[test]
fn numbers_are_what_doubles_are_read_from() {
    for number in [
        "1.5", ".5", "5.", "-3", "+2.25", "1e3", "1e+3", "1.e-3", ".5e7", "inf", "-inf", "infinity",
        "nan", "+nan", "0.0", "00", "1e999999999999",
        "", ".", "e", "e5", "1e", "1e+", "1e+-1", "+", "-", "+-1", "1.2.3", "x", "1x", "in", "infinit",
        "nane", "1_0", "0x1", "1,5", ".e1", "--1", "1ee1", "1e1.0",
    ] {
        let read = BandwidthConfig::parse_bps(&format!("{}mbps", number)).is_some();
        assert_eq!(read, number.parse::<f64>().is_ok(), "{}", number);
    }
}

#[test]
fn case_and_spaces_are_nothing_in_rates() {
    for text in ["100mbps", "100 MBPS", "\t1 00 mB ps \n", "\u{2003}100Mbps\u{a0}"] {
        assert_eq!(exact(text), 12_500_000);
    }
    assert_eq!(kept("1.5E2 KBPS").0, "1.5e2");
    assert_eq!(kept("I N F mbps").0, "inf");
}

#[test]
fn only_the_kelvin_sign_is_written_as_ascii_in_lower_case() {
    for c in '\u{80}'..=char::MAX {
        let lower = c.to_string().to_lowercase();
        assert_eq!(lower.is_ascii(), c == '\u{212a}', "{:?}", c);
        let rate = BandwidthConfig::parse_bps(&format!("5{}bps", c));
        assert_eq!(rate.is_some(), c == '\u{212a}', "{:?}", c);
    }
    assert_eq!(exact("8 \u{212a}BPS"), 1000);
    assert_eq!(exact(" 8\u{212a} bps"), 1000);
    assert!(BandwidthConfig::parse_bps("5 \u{3a3}mbps").is_none());
    assert!(BandwidthConfig::parse_bps("5\u{a0}mbps").is_none());
    assert!(BandwidthConfig::parse_bps("\u{130}nf mbps").is_none());
}

#[test]
fn texts_without_a_unit_or_a_number_are_no_rates() {
    for text in ["100", "", "mbps", "x mbps", "gbps", "bps", "1 tbps", "1.5bps", "18446744073709551616bps"] {
        assert!(BandwidthConfig::parse_bps(text).is_none(), "{}", text);
    }
}

#[test]
fn rates_of_a_section() {
    let b = BandwidthConfig { up: Some("8 kbps".to_string()), down: None };
    assert!(matches!(b.up_bps(), Some(Rate::Exact(1000))));
    assert!(b.down_bps().is_none());
}

#[test]
fn passwords_and_open_doors() {
    let closed = AuthConfig { auth_type: "password".to_string(), password: Some("secret".to_string()) };
    assert_eq!(closed.password(), Some("secret"));
    assert!(!closed.is_none());
    let open = AuthConfig { auth_type: "none".to_string(), password: None };
    assert_eq!(open.password(), None);
    assert!(open.is_none());
}

#[test]
fn defaults_of_the_configuration() {
    assert!(default_true());
    assert_eq!(default_log_level(), "info");
    assert_eq!(default_self_signed_domain(), "localhost");
    assert_eq!(default_masquerade_type(), "none");
    assert_eq!(default_transport_type(), "tcp");
    assert_eq!(default_ws_path(), "/");
    assert_eq!(LogConfig::default().level, "info");
    assert!(BandwidthConfig::default().up.is_none());
    assert_eq!(MasqueradeConfig::default().kind, "");
    let t = VlessTransportConfig::default();
    assert_eq!(t.kind, "tcp");
    assert_eq!(t.ws_path, "/");
    assert_eq!(t.self_signed_domain, "localhost");
    assert!(!t.tls && t.cert.is_none() && t.key.is_none() && t.ws_host.is_none());
}
