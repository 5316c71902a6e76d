use vidcast::ReceiveEntry;
use vidcast::driver::ACCESS_UNIT_DELIMITER_TAG;
use vidcast::driver::DecodeOutcome;
use vidcast::driver::EntryAction;
use vidcast::driver::TickFlow;
use vidcast::driver::after_decode;
use vidcast::driver::copy_len;
use vidcast::driver::is_access_unit_delimiter;
use vidcast::driver::next_tick_entry;
use vidcast::driver::payload_tag;
use vidcast::sorter::SortedQueue;
use vidcast::sorter::drain_cycle;
use vidcast::buffer::ReceiveBuffer;

// A payload whose fifth byte carries the given unit type in its low five
// bits, as the encoder emits it behind a start code.
fn payload_with_tag(tag: u8) -> Vec<u8> {
    vec![0x00, 0x00, 0x00, 0x01, tag & 0x1F, 0xAB, 0xCD]
}

#[test]
fn payload_tag_reads_the_fifth_byte() {
    assert_eq!(payload_tag(&payload_with_tag(9)), Some(9));
    assert_eq!(payload_tag(&payload_with_tag(1)), Some(1));
    // The tag is only the low five bits.
    assert_eq!(payload_tag(&[0, 0, 0, 1, 0xE9]), Some(9));
    // Too short to carry a tag.
    assert_eq!(payload_tag(&[0, 0, 0, 1]), None);
    assert_eq!(payload_tag(&[]), None);
}

#[test]
fn access_unit_delimiter_is_discarded_without_decoding() {
    // The front of the sorted queue carries the delimiter tag: the driver
    // pops it, decides to discard it — never invoking the decoder — and
    // consumption stops for the tick.
    let mut buffer = ReceiveBuffer::new(1);
    let mut queue = SortedQueue::new();
    buffer.push(ReceiveEntry { timestamp: 5, payload: payload_with_tag(ACCESS_UNIT_DELIMITER_TAG) });
    buffer.push(ReceiveEntry { timestamp: 6, payload: payload_with_tag(1) });
    assert!(drain_cycle(&mut buffer, &mut queue));
    assert_eq!(queue.len(), 2);

    let (entry, action) = next_tick_entry(&mut queue).unwrap();
    assert_eq!(action, EntryAction::Discard);
    assert_eq!(entry.timestamp, 5);
    // The delimiter left the queue; the next entry is ordinary media.
    assert_eq!(queue.len(), 1);
    let (entry, action) = next_tick_entry(&mut queue).unwrap();
    assert_eq!(action, EntryAction::Decode);
    assert_eq!(entry.timestamp, 6);
    assert!(next_tick_entry(&mut queue).is_none());
}

#[test]
fn delimiter_predicate() {
    assert!(is_access_unit_delimiter(&payload_with_tag(9)));
    assert!(!is_access_unit_delimiter(&payload_with_tag(1)));
    assert!(!is_access_unit_delimiter(&[0, 0, 0, 1]));
}

#[test]
fn decode_outcomes_drive_the_tick() {
    assert_eq!(after_decode(DecodeOutcome::FrameReady), TickFlow::Stop);
    assert_eq!(after_decode(DecodeOutcome::NoFrame), TickFlow::Continue);
    assert_eq!(after_decode(DecodeOutcome::Failed), TickFlow::Continue);
}

#[test]
fn copy_len_never_overruns_either_buffer() {
    assert_eq!(copy_len(100, 50), 50);
    assert_eq!(copy_len(50, 100), 50);
    assert_eq!(copy_len(64, 64), 64);
    assert_eq!(copy_len(0, 10), 0);
}
