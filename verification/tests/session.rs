use cleverdog::mac::MacAddr;
use cleverdog::protocol::{on_scan_datagram, start_command, Endpoint, Scanned};
use cleverdog::session::{sender_report, video_payload, StreamSession, REPORT_LEN, VIDEO_SSRC};

fn datagram(kind: u8, version: u8, ssrc: u32, body: &[u8]) -> Vec<u8> {
    let mut bytes = vec![0xaa, 0xbb, kind, 0xcc];
    bytes.extend_from_slice(&[version << 6 | 0x20, 96, 0, 17, 0, 0, 140, 160]);
    bytes.extend_from_slice(&ssrc.to_be_bytes());
    bytes.extend_from_slice(body);
    bytes
}

#[test]
fn report_has_the_fixed_layout() {
    let out = sender_report(1_500);
    let expected: [u8; 32] = [
        0x00, 0x00, 0x01, 0x00, 0x80, 0xc8, 0x00, 0x06, 0x00, 0x00, 0x00, 0x02, 0x83, 0xaa, 0x7e,
        0x81, 0x80, 0x00, 0x00, 0x00, 0, 0, 0, 0, 0, 0, 0, 0, 0, 0, 0, 0,
    ];
    assert_eq!(out, expected);
    assert_eq!(out.len(), REPORT_LEN);
}

#[test]
fn report_at_the_epoch_carries_the_ntp_offset() {
    let out = sender_report(0);
    assert_eq!(&out[12..16], &2208988800u32.to_be_bytes());
    assert_eq!(&out[16..20], &[0, 0, 0, 0]);
}

#[test]
fn report_scales_the_milliseconds_to_a_fraction() {
    let out = sender_report(1_600_000_000_250);
    assert_eq!(&out[12..16], &(1_600_000_000u32.wrapping_add(2208988800)).to_be_bytes());
    assert_eq!(&out[16..20], &0x4000_0000u32.to_be_bytes());
    let out = sender_report(999);
    assert_eq!(&out[12..16], &2208988800u32.to_be_bytes());
    assert_eq!(&out[16..20], &4290672328u32.to_be_bytes());
}

#[test]
fn report_seconds_wrap_at_32_bits() {
    let out = sender_report(2_085_978_496_000);
    assert_eq!(&out[12..16], &[0, 0, 0, 0]);
    let out = sender_report(u64::MAX);
    assert_eq!(out.len(), 32);
    assert_eq!(&out[..12], &[0x00, 0x00, 0x01, 0x00, 0x80, 0xc8, 0x00, 0x06, 0, 0, 0, 2]);
}

#[test]
fn video_of_the_track_is_handed_on_without_the_prefix() {
    let bytes = datagram(1, 2, 16, &[1, 2, 3]);
    assert_eq!(video_payload(&bytes, VIDEO_SSRC), Some(&bytes[4..]));
    let bare = datagram(1, 2, 16, &[]);
    assert_eq!(bare.len(), 16);
    assert_eq!(video_payload(&bare, 16), Some(&bare[4..]));
}

#[test]
fn other_datagrams_are_not_handed_on() {
    assert_eq!(video_payload(&datagram(0, 2, 16, &[1]), 16), None);
    assert_eq!(video_payload(&datagram(2, 2, 16, &[1]), 16), None);
    assert_eq!(video_payload(&datagram(1, 1, 16, &[1]), 16), None);
    assert_eq!(video_payload(&datagram(1, 3, 16, &[1]), 16), None);
    assert_eq!(video_payload(&datagram(1, 2, 17, &[1]), 16), None);
    assert_eq!(video_payload(&datagram(1, 2, 16, &[1]), 17), None);
    assert_eq!(video_payload(&datagram(1, 2, 16, &[])[..15], 16), None);
    assert_eq!(video_payload(&[], 16), None);
}

#[test]
fn a_session_can_want_another_track() {
    let bytes = datagram(1, 2, 99, &[5]);
    let mut session = StreamSession::with_ssrc(0, 99);
    assert_eq!(session.on_datagram(1, &bytes).payload, Some(&bytes[4..]));
    let mut usual = StreamSession::new(0);
    assert_eq!(usual.on_datagram(1, &bytes).payload, None);
}

#[test]
fn a_report_is_due_once_a_second() {
    let mut session = StreamSession::new(10_000);
    assert!(!session.on_datagram(10_000, &[]).report_due);
    assert!(!session.on_datagram(10_999, &[]).report_due);
    assert!(session.on_datagram(11_000, &[]).report_due);
    assert!(!session.on_datagram(11_999, &[]).report_due);
    assert!(session.on_datagram(13_500, &[]).report_due);
    assert!(!session.on_datagram(14_499, &[]).report_due);
    assert!(session.on_datagram(14_500, &[]).report_due);
}

#[test]
fn a_clock_that_goes_back_owes_no_report() {
    let mut session = StreamSession::new(10_000);
    assert!(!session.on_datagram(5_000, &[]).report_due);
    assert!(!session.on_datagram(10_999, &[]).report_due);
    assert!(session.on_datagram(11_000, &[]).report_due);
}

#[test]
fn a_scan_a_start_and_a_stream() {
    let mut reply = vec![0x4d, 0x4a, 0x10, 0x0e];
    reply.extend_from_slice(b"CAM0000000000001");
    reply.extend_from_slice(b"dc:a9:04:97:9d:9b\x001.2.3.4\x00");
    let camera = Endpoint::V4 { octets: [192, 168, 1, 50], port: 10008 };
    let found = match on_scan_datagram(&reply, camera) {
        Scanned::Found(found) => found,
        other => panic!("unexpected: {:?}", other),
    };
    assert_eq!(found.addr(), camera);
    assert_eq!(found.mac().as_bytes(), MacAddr::new([0xdc, 0xa9, 4, 0x97, 0x9d, 0x9b]).as_bytes());

    let start = start_command(found.cid(), 40000);
    let mut expected = vec![0x4d, 0x4a, 0x10, 0x07];
    expected.extend_from_slice(b"CAM000000000000\0");
    expected.extend_from_slice(&[b'0'; 40]);
    expected.extend_from_slice(b"40000:40000\0");
    assert_eq!(start, expected);

    let arrivals: Vec<(u64, Vec<u8>)> = vec![
        (100, datagram(1, 2, 16, &[1, 1, 1])),
        (700, datagram(0, 2, 16, &[9, 9])),
        (1_000, datagram(1, 2, 16, &[2, 2])),
        (1_900, datagram(1, 2, 77, &[8])),
        (2_050, datagram(1, 2, 16, &[3])),
        (3_200, vec![0, 1, 2]),
    ];
    let mut session = StreamSession::new(0);
    let mut handed_on: Vec<Vec<u8>> = Vec::new();
    let mut reports: Vec<(u64, Vec<u8>)> = Vec::new();
    for (now, bytes) in &arrivals {
        let reaction = session.on_datagram(*now, bytes);
        if reaction.report_due {
            reports.push((*now, sender_report(1_700_000_000_000 + now)));
        }
        if let Some(payload) = reaction.payload {
            handed_on.push(payload.to_vec());
        }
    }
    assert_eq!(handed_on.len(), 3);
    assert_eq!(handed_on[0], arrivals[0].1[4..]);
    assert_eq!(handed_on[1], arrivals[2].1[4..]);
    assert_eq!(handed_on[2], arrivals[4].1[4..]);
    assert_eq!(handed_on[0][12..], [1, 1, 1]);
    let times: Vec<u64> = reports.iter().map(|r| r.0).collect();
    assert_eq!(times, vec![1_000, 2_050, 3_200]);
    for (_, report) in &reports {
        assert_eq!(report.len(), 32);
        assert_eq!(&report[..8], &[0x00, 0x00, 0x01, 0x00, 0x80, 0xc8, 0x00, 0x06]);
    }
}
