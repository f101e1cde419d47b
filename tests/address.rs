use tcp_ip::decimal::{parse_u16, parse_u8, IntParseError};
use tcp_ip::ip::{IpAddr, IpParseError};
use tcp_ip::socket::{ConfigKey, SocketAddr, SocketAddrError};

fn parse(s: &str) -> Result<IpAddr, IpParseError> {
    IpAddr::from_string(s.to_string())
}

#[test]
fn dotted_quad_parses_to_v4() {
    assert!(matches!(parse("192.168.1.1"), Ok(IpAddr::V4(192, 168, 1, 1))));
    assert!(matches!(parse("0.0.0.0"), Ok(IpAddr::V4(0, 0, 0, 0))));
    assert!(matches!(parse("255.255.255.255"), Ok(IpAddr::V4(255, 255, 255, 255))));
}

#[test]
fn dotted_quad_round_trips() {
    for text in ["192.168.1.1", "0.0.0.0", "255.255.255.255", "10.0.42.7"] {
        let addr = parse(text).unwrap();
        assert_eq!(addr.to_string(), text);
    }
}

#[test]
fn leading_plus_and_zeros_are_accepted_by_octets() {
    assert!(matches!(parse("+1.02.003.4"), Ok(IpAddr::V4(1, 2, 3, 4))));
    assert_eq!(parse("+1.02.003.4").unwrap().to_string(), "1.2.3.4");
}

#[test]
fn bad_octet_is_a_parse_error() {
    assert!(matches!(parse("1.2.3.x"), Err(IpParseError::ParseError(IntParseError::InvalidDigit))));
    assert!(matches!(parse("1.2.3.256"), Err(IpParseError::ParseError(IntParseError::PosOverflow))));
    assert!(matches!(parse("1..3.4"), Err(IpParseError::ParseError(IntParseError::Empty))));
    assert!(matches!(parse("..."), Err(IpParseError::ParseError(IntParseError::Empty))));
    assert!(matches!(parse("1.2.3.4:80"), Err(IpParseError::ParseError(IntParseError::InvalidDigit))));
    assert!(matches!(parse(" 1.2.3.4"), Err(IpParseError::ParseError(IntParseError::InvalidDigit))));
    assert!(matches!(parse("1.2.3.-4"), Err(IpParseError::ParseError(IntParseError::InvalidDigit))));
    assert!(matches!(parse("1.+.3.4"), Err(IpParseError::ParseError(IntParseError::InvalidDigit))));
}

#[test]
fn first_bad_octet_decides_the_error() {
    assert!(matches!(parse("300.x.1.1"), Err(IpParseError::ParseError(IntParseError::PosOverflow))));
    assert!(matches!(parse("x.300.1.1"), Err(IpParseError::ParseError(IntParseError::InvalidDigit))));
}

#[test]
fn colon_text_is_kept_as_v6() {
    for text in ["::1", "fe80::1", "1.2.3:4", "not:an:address", "a.b.c.d.e:f"] {
        match parse(text) {
            Ok(IpAddr::V6(s)) => assert_eq!(s, text),
            _ => panic!("expected a V6 literal for {text}"),
        }
        assert_eq!(parse(text).unwrap().to_string(), text);
    }
}

#[test]
fn other_text_is_invalid_format() {
    for text in ["", "localhost", "1.2.3", "1.2.3.4.5", "...."] {
        assert!(matches!(parse(text), Err(IpParseError::InvalidFormat)));
    }
}

#[test]
fn unsigned_parsing_follows_std() {
    for text in ["", "+", "-", "0", "+7", "007", "255", "256", "1000", "25x", "x", " 1", "1 ", "-0", "99999"] {
        assert_eq!(parse_u8(text).ok(), text.parse::<u8>().ok(), "u8 {text:?}");
        assert_eq!(parse_u16(text).ok(), text.parse::<u16>().ok(), "u16 {text:?}");
    }
    assert_eq!(parse_u8(""), Err(IntParseError::Empty));
    assert_eq!(parse_u8("+"), Err(IntParseError::InvalidDigit));
    assert_eq!(parse_u8("256"), Err(IntParseError::PosOverflow));
    assert_eq!(parse_u8("2560x"), Err(IntParseError::PosOverflow));
    assert_eq!(parse_u8("25x0"), Err(IntParseError::InvalidDigit));
    assert_eq!(parse_u16("65535"), Ok(65535));
    assert_eq!(parse_u16("65536"), Err(IntParseError::PosOverflow));
    assert_eq!(parse_u16("+08080"), Ok(8080));
}

#[test]
fn listen_address_text_form() {
    let addr = SocketAddr::from_config(Some("192.168.1.1".to_string()), Some("8080".to_string())).unwrap();
    assert_eq!(addr.port, 8080);
    assert_eq!(addr.to_string(), "192.168.1.1:8080");
    let v6 = SocketAddr::from_config(Some("::1".to_string()), Some("0".to_string())).unwrap();
    assert_eq!(v6.to_string(), "::1:0");
    let top = SocketAddr::from_config(Some("1.2.3.4".to_string()), Some("65535".to_string())).unwrap();
    assert_eq!(top.to_string(), "1.2.3.4:65535");
}

#[test]
fn config_errors_name_the_component() {
    let bad_port = SocketAddr::from_config(Some("127.0.0.1".to_string()), Some("http".to_string()));
    assert!(matches!(bad_port, Err(SocketAddrError::Port(IntParseError::InvalidDigit))));
    let big_port = SocketAddr::from_config(Some("127.0.0.1".to_string()), Some("65536".to_string()));
    assert!(matches!(big_port, Err(SocketAddrError::Port(IntParseError::PosOverflow))));
    let bad_ip = SocketAddr::from_config(Some("localhost".to_string()), Some("8080".to_string()));
    assert!(matches!(bad_ip, Err(SocketAddrError::Ip(IpParseError::InvalidFormat))));
    let both = SocketAddr::from_config(Some("1.2.3.999".to_string()), Some("x".to_string()));
    assert!(matches!(both, Err(SocketAddrError::Ip(IpParseError::ParseError(IntParseError::PosOverflow)))));
}

#[test]
fn missing_config_names_the_key() {
    let no_ip = SocketAddr::from_config(None, Some("8080".to_string()));
    assert!(matches!(no_ip, Err(SocketAddrError::MissingConfig(ConfigKey::IpAddr))));
    let no_port = SocketAddr::from_config(Some("127.0.0.1".to_string()), None);
    assert!(matches!(no_port, Err(SocketAddrError::MissingConfig(ConfigKey::Port))));
    let bad_ip_no_port = SocketAddr::from_config(Some("nowhere".to_string()), None);
    assert!(matches!(bad_ip_no_port, Err(SocketAddrError::Ip(IpParseError::InvalidFormat))));
    assert_eq!(ConfigKey::IpAddr.name(), "IP_ADDR");
    assert_eq!(ConfigKey::Port.name(), "PORT");
}

#[test]
fn error_messages() {
    assert_eq!(IntParseError::Empty.to_string(), "cannot parse integer from empty string");
    assert_eq!(IntParseError::InvalidDigit.to_string(), "x".parse::<u8>().unwrap_err().to_string());
    assert_eq!(IntParseError::PosOverflow.to_string(), "256".parse::<u8>().unwrap_err().to_string());
    assert_eq!(IpParseError::InvalidFormat.to_string(), "Invalid IP address format");
    assert_eq!(
        IpParseError::ParseError(IntParseError::InvalidDigit).to_string(),
        "Failed to parse IP component: invalid digit found in string"
    );
    assert_eq!(
        SocketAddrError::MissingConfig(ConfigKey::Port).to_string(),
        "Missing configuration value: 'PORT'"
    );
    assert_eq!(
        SocketAddrError::Port(IntParseError::Empty).to_string(),
        "Invalid port: cannot parse integer from empty string"
    );
    assert_eq!(
        SocketAddrError::Ip(IpParseError::InvalidFormat).to_string(),
        "IP parse error: Invalid IP address format"
    );
}
