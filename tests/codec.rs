use serial_brain::codec::{compute_checksum, encode_packet, scan_buffer, ChannelFrame};

const HEADER: [u8; 4] = [0xAA, 0xFF, 0xF1, 0x20];

fn sample_values() -> [i32; 8] {
    [1, -1, 2, -2, 100000, -100000, i32::MAX, i32::MIN]
}

#[test]
fn checksum_of_header_and_zeros() {
    let mut data = HEADER.to_vec();
    data.extend_from_slice(&[0u8; 32]);
    assert_eq!(compute_checksum(&data), (186, 231));
}

#[test]
fn checksum_of_counting_bytes() {
    let data: Vec<u8> = (0u8..36).collect();
    assert_eq!(compute_checksum(&data), (118, 90));
}

#[test]
fn checksum_ignores_bytes_after_payload() {
    let mut data: Vec<u8> = (0u8..36).collect();
    data.push(1);
    data.push(2);
    assert_eq!(compute_checksum(&data), (118, 90));
}

#[test]
fn encode_packet_exact_bytes() {
    let p = encode_packet(&sample_values());
    let expected: Vec<u8> = vec![
        170, 255, 241, 32, 1, 0, 0, 0, 255, 255, 255, 255, 2, 0, 0, 0, 254, 255, 255, 255, 160,
        134, 1, 0, 96, 121, 254, 255, 255, 255, 255, 127, 0, 0, 0, 128, 173, 211,
    ];
    assert_eq!(p, expected);
}

#[test]
fn valid_packet_round_trips() {
    let values = sample_values();
    let mut buf = encode_packet(&values);
    let r = scan_buffer(&mut buf);
    assert_eq!(r.frames, vec![ChannelFrame::new(values)]);
    assert!(r.diagnostic.is_empty());
    assert_eq!(r.consumed, 38);
    assert!(buf.is_empty());
}

#[test]
fn corrupt_payload_byte_drops_packet_and_skips_whole_length() {
    let values = sample_values();
    for k in 4..36 {
        let mut bad = encode_packet(&values);
        bad[k] ^= 0x5A;
        let mut buf = bad.clone();
        buf.extend_from_slice(&encode_packet(&[7; 8]));
        let r = scan_buffer(&mut buf);
        assert_eq!(r.frames, vec![ChannelFrame::new([7; 8])], "corrupted byte {}", k);
        assert!(r.diagnostic.is_empty());
        assert_eq!(r.consumed, 76);
    }
}

#[test]
fn corrupt_packet_tail_holding_a_header_is_not_rescanned() {
    let mut values = [0i32; 8];
    values[3] = i32::from_le_bytes(HEADER);
    let mut bad = encode_packet(&values);
    bad[4] ^= 1;
    let mut buf = bad.clone();
    let r = scan_buffer(&mut buf);
    assert!(r.frames.is_empty());
    assert!(r.diagnostic.is_empty());
    assert_eq!(r.consumed, 38);
}

#[test]
fn diagnostic_bytes_kept_in_order_around_packets() {
    let mut buf: Vec<u8> = b"hello ".to_vec();
    buf.extend_from_slice(&encode_packet(&[1; 8]));
    buf.extend_from_slice(b"world");
    buf.extend_from_slice(&encode_packet(&[2; 8]));
    buf.extend_from_slice(b"!!!!");
    let r = scan_buffer(&mut buf);
    assert_eq!(r.frames, vec![ChannelFrame::new([1; 8]), ChannelFrame::new([2; 8])]);
    assert_eq!(r.diagnostic, b"hello world!".to_vec());
    assert_eq!(buf, b"!!!".to_vec());
}

#[test]
fn incomplete_packet_is_left_for_later() {
    let packet = encode_packet(&[5; 8]);
    let mut buf: Vec<u8> = vec![b'x'];
    buf.extend_from_slice(&packet[..20]);
    let r = scan_buffer(&mut buf);
    assert!(r.frames.is_empty());
    assert_eq!(r.diagnostic, vec![b'x']);
    assert_eq!(r.consumed, 1);
    assert_eq!(buf, packet[..20].to_vec());
    buf.extend_from_slice(&packet[20..]);
    let r = scan_buffer(&mut buf);
    assert_eq!(r.frames, vec![ChannelFrame::new([5; 8])]);
    assert!(buf.is_empty());
}

#[test]
fn empty_and_short_buffers_yield_nothing() {
    let mut buf: Vec<u8> = Vec::new();
    let r = scan_buffer(&mut buf);
    assert!(r.frames.is_empty() && r.diagnostic.is_empty() && r.consumed == 0);
    let mut buf: Vec<u8> = vec![1, 2, 3];
    let r = scan_buffer(&mut buf);
    assert!(r.frames.is_empty() && r.diagnostic.is_empty() && r.consumed == 0);
    assert_eq!(buf, vec![1, 2, 3]);
}

#[test]
fn frame_channel_access() {
    let f = ChannelFrame::new([0, 1, 2, 3, 4, 5, 6, -7]);
    assert_eq!(f.channel(7), -7);
    assert_eq!(f.channel(2), 2);
}
