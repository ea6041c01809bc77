use gtmov::config::{allowed_origin, database_url, parse_port, port_setting, server_address};

#[test]
fn database_address() {
    assert_eq!(database_url(None), "sqlite:movies.db");
    assert_eq!(database_url(Some("sqlite:/tmp/x.db".to_string())), "sqlite:/tmp/x.db");
}

#[test]
fn ports_read_like_u16_from_str() {
    for s in ["8081", "+80", "0", "65535", "65536", "", "+", "-1", "80a", " 80", "00008080"] {
        assert_eq!(parse_port(s), s.parse::<u16>().ok(), "{:?}", s);
    }
}

#[test]
fn port_defaults_to_8080() {
    assert_eq!(port_setting(None), 8080);
    assert_eq!(port_setting(Some("nonsense")), 8080);
    assert_eq!(port_setting(Some("9000")), 9000);
}

#[test]
fn addresses_of_a_port() {
    assert_eq!(server_address(8080), "127.0.0.1:8080");
    assert_eq!(allowed_origin(3000), "http://127.0.0.1:3000");
}
