use cleverdog::rtp::Header;

#[test]
fn test_parse_rtp() {
    let bytes = [128, 96, 0, 17, 0, 0, 140, 160, 0, 0, 0, 16];
    let header = Header::from_slice(&bytes).unwrap();

    assert_eq!(2, header.version());
    assert_eq!(17, header.sequence_number());
    assert_eq!(36000, header.timestamp());
    assert_eq!(16, header.ssrc());
}

#[test]
fn from_slice_rejects_eleven_bytes() {
    let err = Header::from_slice(&[128, 96, 0, 17, 0, 0, 140, 160, 0, 0, 0]).unwrap_err();
    assert_eq!(err.message(), "buffer too small");
    assert!(Header::from_slice(&[]).is_err());
}

#[test]
fn from_slice_keeps_the_first_twelve_bytes() {
    let bytes = [0xff, 1, 0xab, 0xcd, 1, 2, 3, 4, 0xff, 0xff, 0xff, 0xff, 9, 9, 9];
    let header = Header::from_slice(&bytes).unwrap();
    assert_eq!(header.as_slice(), &bytes[..12]);
    assert_eq!(header.version(), 3);
    assert_eq!(header.sequence_number(), 0xabcd);
    assert_eq!(header.timestamp(), 0x01020304);
    assert_eq!(header.ssrc(), 0xffff_ffff);
}

#[test]
fn version_is_the_top_two_bits() {
    let mut bytes = [0u8; 12];
    bytes[0] = 0x7f;
    assert_eq!(Header::from_slice(&bytes).unwrap().version(), 1);
    bytes[0] = 0x3f;
    assert_eq!(Header::from_slice(&bytes).unwrap().version(), 0);
}
