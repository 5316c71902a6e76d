use vidcast::codec::frame;
use vidcast::codec::is_chunk_header;
use vidcast::codec::is_final_chunk;
use vidcast::codec::parse_envelope;
use vidcast::codec::timestamp_from_be_bytes;
use vidcast::codec::timestamp_to_be_bytes;

#[test]
fn timestamp_serialization_is_big_endian() {
    let t: u128 = 0x0102030405060708090a0b0c0d0e0f10;
    let bytes = timestamp_to_be_bytes(t);
    assert_eq!(bytes, t.to_be_bytes().to_vec());
    assert_eq!(timestamp_from_be_bytes(&bytes), t);
}

#[test]
fn unfragmented_round_trip() {
    let t: u128 = 1_700_000_000_123;
    let payload: Vec<u8> = vec![7, 8, 9, 10, 11];
    let buffers = frame(t, &payload, 50000);
    assert_eq!(buffers.len(), 1);
    assert_eq!(buffers[0].len(), 16 + payload.len());
    assert!(!is_chunk_header(&buffers[0]));
    let (t2, p2) = parse_envelope(&buffers[0]).ok().unwrap();
    assert_eq!(t2, t);
    assert_eq!(p2, payload);
}

#[test]
fn chunk_round_trip_concrete() {
    // 119984-byte payload: the envelope is 120000 bytes, which splits at a
    // 50000-byte datagram limit into two continuation chunks of 50000
    // payload bytes and one final chunk of 20000, each behind a 4-byte
    // sentinel header.
    let t: u128 = 1_700_000_000_456;
    let payload: Vec<u8> = (0..119984u32).map(|i| (i % 251) as u8).collect();
    let buffers = frame(t, &payload, 50000);
    assert_eq!(buffers.len(), 3);
    assert_eq!(buffers[0].len(), 50004);
    assert_eq!(buffers[1].len(), 50004);
    assert_eq!(buffers[2].len(), 20004);
    assert_eq!(&buffers[0][..4], &[0x01, 0x01, 0x01, 0x0F]);
    assert_eq!(&buffers[1][..4], &[0x01, 0x01, 0x01, 0x0F]);
    assert_eq!(&buffers[2][..4], &[0x01, 0x01, 0x01, 0xFF]);
    for b in &buffers {
        assert!(is_chunk_header(b));
    }
    assert!(!is_final_chunk(&buffers[0]));
    assert!(!is_final_chunk(&buffers[1]));
    assert!(is_final_chunk(&buffers[2]));

    let mut env: Vec<u8> = Vec::new();
    for b in &buffers {
        env.extend_from_slice(&b[4..]);
    }
    assert_eq!(env.len(), 120000);
    let (t2, p2) = parse_envelope(&env).ok().unwrap();
    assert_eq!(t2, t);
    assert_eq!(p2, payload);
}

#[test]
fn exact_multiple_of_limit_gets_final_chunk_of_full_size() {
    // Envelope of exactly twice the limit: one continuation of the full
    // size, then a final chunk also of the full size.
    let t: u128 = 42;
    let payload: Vec<u8> = vec![1; 2 * 100 - 16];
    let buffers = frame(t, &payload, 100);
    assert_eq!(buffers.len(), 2);
    assert_eq!(buffers[0].len(), 104);
    assert_eq!(buffers[1].len(), 104);
    assert_eq!(&buffers[0][..4], &[0x01, 0x01, 0x01, 0x0F]);
    assert_eq!(&buffers[1][..4], &[0x01, 0x01, 0x01, 0xFF]);
}

#[test]
fn malformed_envelope_rejected_for_every_short_length() {
    for len in 0..16usize {
        let buffer = vec![0xAAu8; len];
        assert!(parse_envelope(&buffer).is_err());
    }
    let buffer = vec![0u8; 16];
    assert!(parse_envelope(&buffer).is_ok());
}

#[test]
fn chunk_header_checks() {
    assert!(is_chunk_header(&[0x01, 0x01, 0x01, 0x0F, 0x55]));
    assert!(is_chunk_header(&[0x01, 0x01, 0x01, 0xFF]));
    assert!(is_chunk_header(&[0x01, 0x01, 0x01]));
    assert!(!is_chunk_header(&[0x01, 0x01]));
    assert!(!is_chunk_header(&[0x00, 0x01, 0x01, 0x0F]));
    assert!(!is_final_chunk(&[0x01, 0x01, 0x01, 0x0F]));
    assert!(is_final_chunk(&[0x01, 0x01, 0x01, 0xFF]));
    assert!(!is_final_chunk(&[0x01, 0x01, 0x01]));
}
