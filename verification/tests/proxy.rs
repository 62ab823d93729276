use cleverdog::envelope::{encode, Frame};
use cleverdog::proxy::{FrameBuffer, ProxyError, Step, CAPACITY};

fn stream_of(payloads: &[Vec<u8>]) -> Vec<u8> {
    let mut bytes = Vec::new();
    for p in payloads {
        bytes.extend_from_slice(&encode(p).unwrap());
    }
    bytes
}

fn read(bytes: &[u8]) -> (Step, usize) {
    let mut buffer = FrameBuffer::new();
    assert!(buffer.fill(bytes));
    let step = buffer.next();
    (step, buffer.len())
}

fn feed_in_chunks(bytes: &[u8], size: usize) -> (Vec<Vec<u8>>, Option<ProxyError>, usize) {
    let mut buffer = FrameBuffer::new();
    let mut payloads = Vec::new();
    for chunk in bytes.chunks(size) {
        let received = buffer.receive(chunk);
        payloads.extend(received.payloads);
        if received.error.is_some() {
            return (payloads, received.error, buffer.len());
        }
    }
    (payloads, None, buffer.len())
}

#[test]
fn encode_short_payload_uses_one_length_byte() {
    assert_eq!(encode(&[1, 2, 3]), Some(vec![0xc4, 3, 1, 2, 3]));
    assert_eq!(encode(&[]), Some(vec![0xc4, 0]));
    assert_eq!(encode(&[7; 255]).unwrap()[..2], [0xc4, 255]);
}

#[test]
fn encode_medium_payload_uses_two_length_bytes() {
    let out = encode(&[7; 256]).unwrap();
    assert_eq!(out[..3], [0xc5, 1, 0]);
    assert_eq!(out.len(), 3 + 256);
    let out = encode(&[7; 300]).unwrap();
    assert_eq!(out[..3], [0xc5, 0x01, 0x2c]);
    let out = encode(&[7; 65535]).unwrap();
    assert_eq!(out[..3], [0xc5, 0xff, 0xff]);
}

#[test]
fn encode_long_payload_uses_four_length_bytes() {
    let out = encode(&[7; 65536]).unwrap();
    assert_eq!(out[..5], [0xc6, 0, 1, 0, 0]);
    let out = encode(&vec![9u8; 70000]).unwrap();
    assert_eq!(out[..5], [0xc6, 0x00, 0x01, 0x11, 0x70]);
    assert_eq!(out.len(), 5 + 70000);
    assert!(out[5..].iter().all(|&b| b == 9));
}

#[test]
fn decode_reads_back_what_encode_wrote() {
    for len in [0usize, 1, 4, 255, 256, 4000, CAPACITY - 3] {
        let payload = vec![0x5a; len];
        let bytes = encode(&payload).unwrap();
        let (step, left) = read(&bytes);
        assert_eq!(step, Step::Emit(payload));
        assert_eq!(left, 0);
    }
}

#[test]
fn decode_does_not_look_behind_the_frame() {
    let mut bytes = encode(&[1, 2]).unwrap();
    bytes.extend_from_slice(&[0xff, 0x01, 0xc4]);
    assert_eq!(read(&bytes), (Step::Emit(vec![1, 2]), 3));
}

#[test]
fn decode_reads_each_width_of_length() {
    assert_eq!(read(&[0xc4, 2, 8, 9]), (Step::Emit(vec![8, 9]), 0));
    assert_eq!(read(&[0xc5, 0, 2, 8, 9]), (Step::Emit(vec![8, 9]), 0));
    assert_eq!(read(&[0xc6, 0, 0, 0, 2, 8, 9, 7]), (Step::Emit(vec![8, 9]), 1));
    let mut long = vec![0xc6, 0, 0, 1, 2];
    long.extend_from_slice(&[6u8; 258]);
    assert_eq!(read(&long), (Step::Emit(vec![6u8; 258]), 0));
    let mut medium = vec![0xc5, 1, 2];
    medium.extend_from_slice(&[6u8; 258]);
    assert_eq!(read(&medium), (Step::Emit(vec![6u8; 258]), 0));
}

#[test]
fn decode_reports_a_truncated_frame() {
    let cut: [&[u8]; 9] = [
        &[],
        &[0xc4],
        &[0xc4, 2, 1],
        &[0xc5, 0],
        &[0xc5, 0, 1],
        &[0xc6, 0, 0, 0],
        &[0xc6, 0, 0, 0, 1],
        &[0xc6, 1, 0, 0, 0, 5, 5],
        &[0x92, 0x01],
    ];
    for bytes in cut {
        assert_eq!(read(bytes), (Step::Wait, bytes.len()));
    }
}

#[test]
fn decode_tells_other_values_apart() {
    assert_eq!(read(&[0x01]), (Step::Stop(ProxyError::UnexpectedFrame), 1));
    assert_eq!(read(&[0xc0]), (Step::Stop(ProxyError::UnexpectedFrame), 1));
    assert_eq!(read(&[0xa1, b'x']), (Step::Stop(ProxyError::UnexpectedFrame), 2));
    assert_eq!(read(&[0x91; 2000]), (Step::Stop(ProxyError::Malformed), 2000));
}

#[test]
fn receive_reassembles_a_frame_split_across_reads() {
    let bytes = encode(&[5; 300]).unwrap();
    let mut buffer = FrameBuffer::new();
    let first = buffer.receive(&bytes[..100]);
    assert!(first.payloads.is_empty());
    assert_eq!(first.error, None);
    assert_eq!(buffer.len(), 100);
    let second = buffer.receive(&bytes[100..]);
    assert_eq!(second.payloads, vec![vec![5u8; 300]]);
    assert_eq!(second.error, None);
    assert_eq!(buffer.len(), 0);
    assert_eq!(buffer.free(), CAPACITY);
}

#[test]
fn receive_decodes_every_frame_of_a_read() {
    let payloads = vec![vec![1u8, 2, 3], vec![], vec![4u8; 500], vec![9u8]];
    let mut bytes = stream_of(&payloads);
    bytes.extend_from_slice(&[0xc4, 10, 1, 2]);
    let mut buffer = FrameBuffer::new();
    let received = buffer.receive(&bytes);
    assert_eq!(received.payloads, payloads);
    assert_eq!(received.error, None);
    assert_eq!(buffer.len(), 4);
    let rest = buffer.receive(&[3, 4, 5, 6, 7, 8, 9, 10]);
    assert_eq!(rest.payloads, vec![vec![1u8, 2, 3, 4, 5, 6, 7, 8, 9, 10]]);
    assert_eq!(buffer.len(), 0);
}

#[test]
fn any_split_yields_the_same_payloads() {
    let payloads = vec![
        vec![1u8, 2, 3],
        vec![0xc4; 40],
        vec![],
        (0..=255u8).cycle().take(700).collect::<Vec<u8>>(),
        vec![0u8; 256],
        vec![0xffu8; 5],
    ];
    let bytes = stream_of(&payloads);
    let (at_once, error, left) = feed_in_chunks(&bytes, bytes.len());
    assert_eq!(at_once, payloads);
    assert_eq!(error, None);
    assert_eq!(left, 0);
    for size in [1usize, 2, 3, 5, 7, 64, 255, 256, 257, 1000] {
        let (chunked, error, left) = feed_in_chunks(&bytes, size);
        assert_eq!(chunked, payloads, "chunks of {}", size);
        assert_eq!(error, None);
        assert_eq!(left, 0);
    }
}

#[test]
fn an_envelope_as_long_as_the_buffer_is_decoded() {
    let payload = vec![3u8; CAPACITY - 3];
    let bytes = encode(&payload).unwrap();
    assert_eq!(bytes.len(), CAPACITY);
    let (chunked, error, left) = feed_in_chunks(&bytes, 1);
    assert_eq!(chunked, vec![payload]);
    assert_eq!(error, None);
    assert_eq!(left, 0);
}

#[test]
fn a_buffer_full_of_a_partial_envelope_overflows() {
    let payload = vec![3u8; CAPACITY - 2];
    let bytes = encode(&payload).unwrap();
    let mut buffer = FrameBuffer::new();
    let first = buffer.receive(&bytes[..CAPACITY - 1]);
    assert_eq!(first.error, None);
    assert_eq!(buffer.free(), 1);
    let second = buffer.receive(&bytes[CAPACITY - 1..CAPACITY]);
    assert!(second.payloads.is_empty());
    assert_eq!(second.error, Some(ProxyError::Overflow));
    assert_eq!(buffer.len(), CAPACITY);
}

#[test]
fn a_chunk_that_does_not_fit_is_refused() {
    let mut buffer = FrameBuffer::new();
    assert_eq!(buffer.receive(&[0xc5, 0xff]).error, None);
    let received = buffer.receive(&vec![0u8; CAPACITY - 1]);
    assert!(received.payloads.is_empty());
    assert_eq!(received.error, Some(ProxyError::Overflow));
    assert_eq!(buffer.len(), 2);
    assert!(!buffer.fill(&vec![0u8; CAPACITY - 1]));
    assert!(buffer.fill(&vec![0u8; CAPACITY - 2]));
    assert_eq!(buffer.free(), 0);
}

#[test]
fn receive_rejects_a_value_that_is_not_binary() {
    let mut buffer = FrameBuffer::new();
    let mut bytes = encode(&[1]).unwrap();
    bytes.push(0x01);
    bytes.extend_from_slice(&encode(&[2]).unwrap());
    let received = buffer.receive(&bytes);
    assert_eq!(received.payloads, vec![vec![1u8]]);
    assert_eq!(received.error, Some(ProxyError::UnexpectedFrame));
    assert_eq!(buffer.len(), 4);
    assert_eq!(buffer.next(), Step::Stop(ProxyError::UnexpectedFrame));
}

#[test]
fn receive_reports_a_decoder_failure() {
    let mut buffer = FrameBuffer::new();
    let received = buffer.receive(&[0x91; 2000]);
    assert!(received.payloads.is_empty());
    assert_eq!(received.error, Some(ProxyError::Malformed));
}

#[test]
fn receive_waits_on_a_truncated_value_of_another_kind() {
    let mut buffer = FrameBuffer::new();
    let received = buffer.receive(&[0x92, 0x01]);
    assert_eq!(received.error, None);
    assert_eq!(buffer.len(), 2);
}

#[test]
fn an_empty_read_changes_nothing() {
    let mut buffer = FrameBuffer::new();
    assert_eq!(buffer.receive(&[0xc4, 3, 1]).error, None);
    let received = buffer.receive(&[]);
    assert!(received.payloads.is_empty());
    assert_eq!(received.error, None);
    assert_eq!(buffer.len(), 3);
}

#[test]
fn steps_hand_out_one_payload_at_a_time() {
    let mut buffer = FrameBuffer::new();
    let bytes = stream_of(&[vec![1u8], vec![2u8, 2], vec![3u8; 3]]);
    assert!(buffer.fill(&bytes[..bytes.len() - 1]));
    assert_eq!(buffer.next(), Step::Emit(vec![1]));
    assert_eq!(buffer.next(), Step::Emit(vec![2, 2]));
    assert_eq!(buffer.next(), Step::Wait);
    assert_eq!(buffer.len(), 4);
    assert_eq!(buffer.free(), CAPACITY - (bytes.len() - 1));
    buffer.compact();
    assert_eq!(buffer.len(), 4);
    assert_eq!(buffer.free(), CAPACITY - 4);
    buffer.compact();
    assert_eq!(buffer.len(), 4);
    assert!(buffer.fill(&bytes[bytes.len() - 1..]));
    assert_eq!(buffer.next(), Step::Emit(vec![3, 3, 3]));
    assert_eq!(buffer.next(), Step::Wait);
    assert_eq!(buffer.len(), 0);
}

#[test]
fn apply_consumes_a_binary_frame_only() {
    let mut buffer = FrameBuffer::new();
    assert!(buffer.fill(&[0xc4, 1, 7, 0xc4]));
    assert_eq!(buffer.apply(Frame::Truncated), Step::Wait);
    assert_eq!(buffer.apply(Frame::Other), Step::Stop(ProxyError::UnexpectedFrame));
    assert_eq!(buffer.apply(Frame::Invalid), Step::Stop(ProxyError::Malformed));
    assert_eq!(buffer.len(), 4);
    assert_eq!(
        buffer.apply(Frame::Binary { payload: vec![7], consumed: 3 }),
        Step::Emit(vec![7])
    );
    assert_eq!(buffer.len(), 1);
}

#[test]
fn apply_refuses_a_frame_that_the_buffer_cannot_hold() {
    let mut buffer = FrameBuffer::new();
    assert!(buffer.fill(&[0xc4, 1, 7]));
    assert_eq!(
        buffer.apply(Frame::Binary { payload: vec![7], consumed: 4 }),
        Step::Stop(ProxyError::Malformed)
    );
    assert_eq!(
        buffer.apply(Frame::Binary { payload: vec![], consumed: 0 }),
        Step::Stop(ProxyError::Malformed)
    );
    assert_eq!(buffer.len(), 3);
}
