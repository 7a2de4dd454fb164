use ruproxy::cli::{enabled, parse_config_arg, Enabled};
use ruproxy::config::{
    AuthConfig, BandwidthConfig, Config, Hy2TlsConfig, Hysteria2Config, LogConfig, MasqueradeConfig,
    VlessConfig, VlessTransportConfig,
};

fn path(args: &[&str]) -> String {
    parse_config_arg(&args.iter().map(|s| s.to_string()).collect())
}

#[test]
fn the_first_path_after_the_flag_is_taken() {
    assert_eq!(path(&["prog", "-c", "a.toml", "-c", "b.toml"]), "a.toml");
    assert_eq!(path(&["prog", "x", "-c", "-c"]), "-c");
    assert_eq!(path(&["-c", "a.toml"]), "a.toml");
    assert_eq!(path(&["prog", "-c"]), "config.yaml");
    assert_eq!(path(&["prog"]), "config.yaml");
    assert_eq!(path(&[]), "config.yaml");
}

#[test]
fn without_the_flag_the_first_other_argument_is_the_path() {
    assert_eq!(path(&["./ruhy", "/etc/ruhy/config.yaml"]), "/etc/ruhy/config.yaml");
    assert_eq!(path(&["prog", "a.toml", "b.toml"]), "a.toml");
    assert_eq!(path(&["prog", "-v", "a.toml"]), "a.toml");
    assert_eq!(path(&["prog", "a.toml", "-c"]), "a.toml");
    assert_eq!(path(&["prog", "a.toml", "-c", "b.toml"]), "b.toml");
    assert_eq!(path(&["prog", ""]), "");
}

fn config(hysteria2: Option<bool>, vless: Option<bool>) -> Config {
    Config {
        log: LogConfig::default(),
        hysteria2: hysteria2.map(|enable| Hysteria2Config {
            enable,
            listen: String::new(),
            tls: Hy2TlsConfig { cert: None, key: None, self_signed_domain: String::new() },
            auth: AuthConfig { auth_type: String::new(), password: None },
            bandwidth: BandwidthConfig::default(),
            masquerade: MasqueradeConfig::default(),
        }),
        vless: vless.map(|enable| VlessConfig {
            enable,
            listen: String::new(),
            uuid: String::new(),
            transport: VlessTransportConfig::default(),
        }),
    }
}

#[test]
fn at_least_one_server_is_started() {
    assert_eq!(enabled(&config(None, None)), None);
    assert_eq!(enabled(&config(Some(false), Some(false))), None);
    let both = Enabled { hysteria2: true, vless: true };
    assert_eq!(enabled(&config(Some(true), Some(true))), Some(both));
    let one = Enabled { hysteria2: false, vless: true };
    assert_eq!(enabled(&config(Some(false), Some(true))), Some(one));
}
