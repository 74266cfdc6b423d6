use jepa::window::{RingBuffer, SampleRing, Window, RING_BUFFER_CAPACITY};

#[test]
fn window_drops_the_oldest() {
    let mut w: Window<u8> = Window::new(3);
    for i in 0..5u8 {
        w.push(i);
    }
    assert_eq!(w.len(), 3);
    assert_eq!(w.get(0), Some(&2));
    assert_eq!(w.last(), Some(&4));
    assert_eq!(w.tail(2), vec![3, 4]);
    assert_eq!(w.tail(10), vec![2, 3, 4]);
    w.push_all(&[7, 8]);
    assert_eq!(w.tail(3), vec![4, 7, 8]);
    w.clear();
    assert!(w.is_empty());
}

#[test]
fn ring_buffer_keeps_capacity_and_sequence_numbers() {
    let mut rb: RingBuffer<&str> = RingBuffer::new(3);
    for (i, name) in ["a", "b", "c", "d", "e"].iter().enumerate() {
        rb.push_frame(*name, i as u64);
    }
    assert_eq!(rb.len(), 3);
    let latest = rb.latest().unwrap();
    assert_eq!(latest.sequence, 5);
    assert_eq!(latest.timestamp_ms, 4);
    assert_eq!(latest.payload, "e");
    assert_eq!(rb.get(0).unwrap().sequence, 3);
    assert_eq!(rb.sequence(), 5);
    rb.clear();
    assert!(rb.is_empty());
    rb.push_frame("f", 9);
    assert_eq!(rb.latest().unwrap().sequence, 6);
}

#[test]
fn zero_capacity_ring_uses_the_default() {
    let rb: RingBuffer<u8> = RingBuffer::new(0);
    assert_eq!(rb.window_len(), RING_BUFFER_CAPACITY as u64);
}

#[test]
fn sample_ring_keeps_twelve_seconds_and_restarts_on_rate_change() {
    let mut ring: SampleRing<i16> = SampleRing::new(10);
    let chunk: Vec<i16> = (0..100).collect();
    ring.push_samples(&chunk, 10);
    assert_eq!(ring.len(), 120.min(100));
    ring.push_samples(&chunk, 10);
    assert_eq!(ring.len(), 120);
    assert_eq!(ring.tail(2), vec![98, 99]);
    ring.push_samples(&[1, 2, 3], 20);
    assert_eq!(ring.sample_rate(), 20);
    assert_eq!(ring.tail(10), vec![1, 2, 3]);
    ring.restart(5);
    assert!(ring.is_empty());
}
