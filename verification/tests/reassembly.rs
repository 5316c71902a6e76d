use vidcast::buffer::ReceiveBuffer;
use vidcast::codec::frame;
use vidcast::reassembly::Reassembler;

#[test]
fn standalone_envelope_is_delivered() {
    let mut reassembler = Reassembler::new();
    let mut buffer = ReceiveBuffer::new(60);
    let t: u128 = 777;
    let payload: Vec<u8> = vec![0x42; 100];
    let buffers = frame(t, &payload, 50000);
    assert_eq!(buffers.len(), 1);

    let signal = reassembler.receive_packet(&buffers[0], &mut buffer).ok().unwrap();
    assert!(!signal);
    assert_eq!(buffer.len(), 1);
}

#[test]
fn chunked_envelope_is_reassembled() {
    let mut reassembler = Reassembler::new();
    let mut buffer = ReceiveBuffer::new(60);
    let t: u128 = 888;
    let payload: Vec<u8> = (0..120_000u32).map(|i| (i % 256) as u8).collect();
    let buffers = frame(t, &payload, 50000);
    assert!(buffers.len() > 1);

    for (i, datagram) in buffers.iter().enumerate() {
        let r = reassembler.receive_packet(datagram, &mut buffer);
        assert!(r.is_ok());
        if i + 1 < buffers.len() {
            // Continuations deliver nothing.
            assert_eq!(buffer.len(), 0);
        }
    }
    assert_eq!(buffer.len(), 1);
}

#[test]
fn malformed_datagram_is_rejected_and_the_loop_goes_on() {
    let mut reassembler = Reassembler::new();
    let mut buffer = ReceiveBuffer::new(60);

    // Too short for a timestamp and carrying no sentinel: rejected.
    let r = reassembler.receive_packet(&[0x05, 0x06, 0x07], &mut buffer);
    assert!(r.is_err());
    assert_eq!(buffer.len(), 0);

    // The reassembler still accepts the next datagram.
    let buffers = frame(9, &vec![1, 2, 3], 50000);
    let signal = reassembler.receive_packet(&buffers[0], &mut buffer).ok().unwrap();
    assert!(!signal);
    assert_eq!(buffer.len(), 1);
}

#[test]
fn signal_raised_once_threshold_is_exceeded() {
    let mut reassembler = Reassembler::new();
    let mut buffer = ReceiveBuffer::new(2);
    let mut signals = 0;
    for i in 0..3u8 {
        let buffers = frame(i as u128, &vec![i], 50000);
        let signal = reassembler.receive_packet(&buffers[0], &mut buffer).ok().unwrap();
        if signal {
            signals += 1;
        }
    }
    // Only the third append pushes the length past the threshold of two.
    assert_eq!(signals, 1);
    assert_eq!(buffer.len(), 3);
}
