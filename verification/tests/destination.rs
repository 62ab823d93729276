use cleverdog::destination::{Destination, DestinationError};

#[test]
fn udp_keeps_the_address_as_it_is() {
    assert_eq!(
        Destination::from_str("udp://127.0.0.1:8088").unwrap(),
        Destination::Udp("127.0.0.1:8088".to_string())
    );
    assert_eq!(Destination::from_str("udp://").unwrap(), Destination::Udp(String::new()));
    assert_eq!(
        Destination::from_str("udp://a://b").unwrap(),
        Destination::Udp("a://b".to_string())
    );
}

#[test]
fn https_reads_host_and_port() {
    assert_eq!(
        Destination::from_str("https://example.org:8443").unwrap(),
        Destination::Https("example.org".to_string(), 8443)
    );
    assert_eq!(
        Destination::from_str("https://[::1]:444").unwrap(),
        Destination::Https("[::1]".to_string(), 444)
    );
    assert_eq!(
        Destination::from_str("https://h\u{f4}te.example:+65535").unwrap(),
        Destination::Https("h\u{f4}te.example".to_string(), 65535)
    );
}

#[test]
fn https_without_a_port_goes_to_443() {
    assert_eq!(
        Destination::from_str("https://example.org").unwrap(),
        Destination::Https("example.org".to_string(), 443)
    );
}

#[test]
fn a_text_without_the_mark_is_no_url() {
    for text in ["", "example.org", "udp:/x", "https:example.org:1", ":/", "//"] {
        assert!(matches!(Destination::from_str(text), Err(DestinationError::NotUrl)));
    }
}

#[test]
fn another_protocol_is_unknown() {
    for (text, name) in [
        ("tcp://x:1", "tcp"),
        ("://x", ""),
        ("UDP://x:1", "UDP"),
        ("http://x", "http"),
        ("httpss://x", "httpss"),
        ("a:b://c", "a:b"),
        ("\u{e9}://c", "\u{e9}"),
    ] {
        match Destination::from_str(text) {
            Err(DestinationError::UnknownProtocol(found)) => assert_eq!(found, name),
            other => panic!("unexpected: {:?}", other),
        }
    }
}

#[test]
fn https_needs_a_host() {
    assert!(matches!(Destination::from_str("https://"), Err(DestinationError::MissingHost)));
    assert!(matches!(Destination::from_str("https://:443"), Err(DestinationError::MissingHost)));
}

#[test]
fn https_judges_the_port_before_the_host() {
    assert!(matches!(
        Destination::from_str("https://:x"),
        Err(DestinationError::InvalidPort(_))
    ));
    for text in ["https://example.org:", "https://example.org:65536", "https://a:b", "https://a:-1"] {
        assert!(matches!(Destination::from_str(text), Err(DestinationError::InvalidPort(_))));
    }
}
