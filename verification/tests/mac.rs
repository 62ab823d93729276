use cleverdog::mac::{MacAddr, ParseError};

#[test]
fn test_parse() {
    let v = "dc:a9:04:97:9d:9b";
    let mac = v.parse::<MacAddr>().unwrap();
    assert_eq!(mac.as_bytes(), [220, 169, 4, 151, 157, 155]);
}

#[test]
fn test_display() {
    let mac = MacAddr::new([220, 169, 4, 151, 157, 155]);
    assert_eq!(&mac.to_string(), "dc:a9:04:97:9d:9b");
}

#[test]
fn test_display_lower_hex() {
    let mac = MacAddr::new([220, 169, 4, 151, 157, 155]);
    assert_eq!(&mac.to_lower_hex(), "dc:a9:04:97:9d:9b");
}

#[test]
fn test_display_upper_hex() {
    let mac = MacAddr::new([220, 169, 4, 151, 157, 155]);
    assert_eq!(&mac.to_upper_hex(), "DC:A9:04:97:9D:9B");
}

#[test]
fn from_str_is_the_inherent_parser() {
    let mac = MacAddr::from_str("dc:a9:04:97:9d:9b").unwrap();
    assert_eq!(mac.as_bytes(), [220, 169, 4, 151, 157, 155]);
}

#[test]
fn parse_accepts_upper_case_and_short_octets() {
    let mac = MacAddr::from_str("DC:A:0:97:9D:9b").unwrap();
    assert_eq!(mac.as_bytes(), [220, 10, 0, 151, 157, 155]);
}

#[test]
fn parse_accepts_a_plus_sign_and_leading_zeros() {
    let mac = MacAddr::from_str("+f:000ff:1:2:3:4").unwrap();
    assert_eq!(mac.as_bytes(), [15, 255, 1, 2, 3, 4]);
}

#[test]
fn parse_rejects_five_octets() {
    assert!(matches!(MacAddr::from_str("dc:a9:04:97:9d"), Err(ParseError::InvalidLength)));
}

#[test]
fn parse_rejects_seven_octets() {
    assert!(matches!(
        MacAddr::from_str("dc:a9:04:97:9d:9b:00"),
        Err(ParseError::InvalidLength)
    ));
}

#[test]
fn parse_does_not_read_the_seventh_piece() {
    assert!(matches!(
        MacAddr::from_str("dc:a9:04:97:9d:9b:zz"),
        Err(ParseError::InvalidLength)
    ));
}

#[test]
fn parse_rejects_a_bad_digit_before_it_counts() {
    assert!(matches!(
        MacAddr::from_str("dc:a9:zz:97:9d:9b:00"),
        Err(ParseError::InvalidDigit(_))
    ));
    assert!(matches!(MacAddr::from_str("dc:xy"), Err(ParseError::InvalidDigit(_))));
}

#[test]
fn parse_rejects_the_empty_string_as_a_bad_digit() {
    assert!(matches!(MacAddr::from_str(""), Err(ParseError::InvalidDigit(_))));
}

#[test]
fn parse_rejects_an_octet_above_255() {
    assert!(matches!(
        MacAddr::from_str("100:a9:04:97:9d:9b"),
        Err(ParseError::InvalidDigit(_))
    ));
}

#[test]
fn parse_rejects_a_minus_sign_and_text_that_is_not_ascii() {
    assert!(matches!(
        MacAddr::from_str("-1:a9:04:97:9d:9b"),
        Err(ParseError::InvalidDigit(_))
    ));
    assert!(matches!(
        MacAddr::from_str("d\u{e9}:a9:04:97:9d:9b"),
        Err(ParseError::InvalidDigit(_))
    ));
}

#[test]
fn parse_reads_back_what_format_wrote() {
    let samples: [[u8; 6]; 4] = [
        [0, 0, 0, 0, 0, 0],
        [255, 255, 255, 255, 255, 255],
        [220, 169, 4, 151, 157, 155],
        [1, 16, 171, 9, 160, 15],
    ];
    for bytes in samples {
        let mac = MacAddr::new(bytes);
        assert_eq!(MacAddr::from_str(&mac.to_string()).unwrap().as_bytes(), bytes);
        assert_eq!(MacAddr::from_str(&mac.to_upper_hex()).unwrap().as_bytes(), bytes);
        assert_eq!(mac.format(false), mac.to_lower_hex());
    }
}

#[test]
fn parse_error_describes_itself() {
    let digit = MacAddr::from_str("zz:a9:04:97:9d:9b").unwrap_err();
    assert_eq!(digit.message(), "invalid digit");
    assert!(digit.source().is_some());
    let copy = digit.clone();
    assert_eq!(copy.source(), digit.source());
    let length = MacAddr::from_str("a9").unwrap_err();
    assert_eq!(length.message(), "invalid length");
    assert!(length.source().is_none());
}
