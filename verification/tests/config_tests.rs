use battleship_server::Config;

#[test]
fn config_default_values() {
    let cfg = Config::default();
    assert_eq!(cfg.host, "127.0.0.1");
    assert_eq!(cfg.port, 8080);
    assert_eq!(cfg.addr(), "127.0.0.1:8080");
}

#[test]
fn config_addr_formatting() {
    let cfg = Config {
        host: "0.0.0.0".to_string(),
        port: 9090,
    };
    assert_eq!(cfg.addr(), "0.0.0.0:9090");
}

#[test]
fn addr_writes_every_port_in_decimal() {
    for port in 0..=u16::MAX {
        let cfg = Config { host: "h".to_string(), port };
        assert_eq!(cfg.addr(), format!("h:{port}"));
    }
}

#[test]
fn unset_variables_leave_the_defaults() {
    let cfg = Config::from_vars(None, None);
    assert_eq!(cfg.addr(), Config::default().addr());
}

#[test]
fn variables_override_the_defaults() {
    let cfg = Config::from_vars(Some("example".to_string()), Some("65535".to_string()));
    assert_eq!(cfg.host, "example");
    assert_eq!(cfg.port, 65535);
    assert_eq!(cfg.clone().addr(), "example:65535");
    assert_eq!(Config::from_vars(Some(String::new()), None).host, "");
}

#[test]
fn port_variable_is_read_as_std_reads_a_u16() {
    for text in [
        "0", "1", "00080", "+80", "++80", "-0", "+", "-", "", " 80", "80 ", "65535", "65536",
        "99999999999999999999999999", "00000000000000000000000000001", "8o", "0x10", "\u{661}", "1_000",
    ] {
        let cfg = Config::from_vars(None, Some(text.to_string()));
        assert_eq!(cfg.port, text.parse::<u16>().unwrap_or(8080), "{text:?}");
    }
}
