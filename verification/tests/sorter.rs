use vidcast::ReceiveEntry;
use vidcast::buffer::ReceiveBuffer;
use vidcast::sorter::SortedQueue;
use vidcast::sorter::drain_cycle;
use vidcast::sorter::sort_batch;

fn entry(ts: u128, tag: u8) -> ReceiveEntry {
    ReceiveEntry { timestamp: ts, payload: vec![tag] }
}

fn drain_all(queue: &mut SortedQueue) -> Vec<(u128, Vec<u8>)> {
    let mut out = Vec::new();
    while let Some(e) = queue.pop_front() {
        out.push((e.timestamp, e.payload));
    }
    out
}

#[test]
fn sort_batch_orders_by_timestamp() {
    let batch = vec![entry(30, 0), entry(10, 1), entry(20, 2), entry(10, 3)];
    let sorted = sort_batch(batch);
    let keys: Vec<u128> = sorted.iter().map(|e| e.timestamp).collect();
    assert_eq!(keys, vec![10, 10, 20, 30]);
    // Stability: the two entries with timestamp 10 keep arrival order.
    assert_eq!(sorted[0].payload, vec![1]);
    assert_eq!(sorted[1].payload, vec![3]);
}

#[test]
fn batch_sort_correctness() {
    // Threshold 5: one drain moves the first six entries, sorted; the
    // entries beyond the drained prefix stay in the buffer untouched.
    let mut buffer = ReceiveBuffer::new(5);
    let mut queue = SortedQueue::new();
    let timestamps: Vec<u128> = vec![50, 10, 40, 20, 60, 30, 99, 98];
    for (i, ts) in timestamps.iter().enumerate() {
        buffer.push(entry(*ts, i as u8));
    }
    let drained = drain_cycle(&mut buffer, &mut queue);
    assert!(drained);
    assert_eq!(buffer.len(), 2);
    assert_eq!(queue.len(), 6);
    let delivered = drain_all(&mut queue);
    let keys: Vec<u128> = delivered.iter().map(|d| d.0).collect();
    assert_eq!(keys, vec![10, 20, 30, 40, 50, 60]);

    // The remainder is still there, in arrival order.
    let mut rest_queue = SortedQueue::new();
    let drained_rest = drain_cycle(&mut buffer, &mut rest_queue);
    assert!(!drained_rest);
    assert_eq!(buffer.len(), 2);
}

#[test]
fn threshold_crossing_drains_exactly_one_batch() {
    // Threshold 60: the sixty-first push raises the one signal, and the
    // drain removes threshold-plus-one entries, leaving the buffer empty.
    let mut buffer = ReceiveBuffer::new(60);
    let mut queue = SortedQueue::new();
    let mut signals = 0;
    for i in 0..61u128 {
        // Push in descending timestamp order to give the sort work.
        if buffer.push(entry(1000 - i, i as u8)) {
            signals += 1;
        }
    }
    assert_eq!(signals, 1);
    let drained = drain_cycle(&mut buffer, &mut queue);
    assert!(drained);
    assert_eq!(buffer.len(), 0);
    assert_eq!(queue.len(), 61);
    let delivered = drain_all(&mut queue);
    for w in delivered.windows(2) {
        assert!(w[0].0 <= w[1].0);
    }
}

#[test]
fn cross_batch_order_is_not_guaranteed() {
    // A high-timestamp entry drains in the first batch; a lower-timestamp
    // entry arrives only afterwards and drains in the second. The queue is
    // then not globally sorted across the batch boundary — the accepted
    // consequence of batched local sorting.
    let mut buffer = ReceiveBuffer::new(2);
    let mut queue = SortedQueue::new();
    for ts in [100u128, 300, 200] {
        buffer.push(entry(ts, 0));
    }
    assert!(drain_cycle(&mut buffer, &mut queue));
    for ts in [5u128, 6, 7] {
        buffer.push(entry(ts, 1));
    }
    assert!(drain_cycle(&mut buffer, &mut queue));

    let delivered = drain_all(&mut queue);
    let keys: Vec<u128> = delivered.iter().map(|d| d.0).collect();
    assert_eq!(keys, vec![100, 200, 300, 5, 6, 7]);
    let mut globally_sorted = true;
    for w in keys.windows(2) {
        if w[0] > w[1] {
            globally_sorted = false;
        }
    }
    assert!(!globally_sorted);
}

#[test]
fn drain_does_nothing_below_threshold() {
    let mut buffer = ReceiveBuffer::new(5);
    let mut queue = SortedQueue::new();
    for ts in [3u128, 1, 2] {
        buffer.push(entry(ts, 0));
    }
    let drained = drain_cycle(&mut buffer, &mut queue);
    assert!(!drained);
    assert_eq!(buffer.len(), 3);
    assert_eq!(queue.len(), 0);
}

#[test]
fn stable_sort_keeps_arrival_order_of_equal_timestamps() {
    let batch = vec![entry(7, 0), entry(7, 1), entry(3, 2), entry(7, 3), entry(3, 4)];
    let sorted = sort_batch(batch);
    let tags: Vec<u8> = sorted.iter().map(|e| e.payload[0]).collect();
    assert_eq!(tags, vec![2, 4, 0, 1, 3]);
}
