use flowrt::ring::StreamBuffer;

#[test]
fn elements_come_out_in_commit_order() {
    let mut buf: StreamBuffer<u64> = StreamBuffer::new(8, 0);
    assert!(buf.produce(10));
    assert!(buf.produce(20));
    assert!(buf.produce(30));
    assert_eq!(buf.consume(), Some(10));
    assert_eq!(buf.consume(), Some(20));
    assert!(buf.produce(40));
    assert_eq!(buf.consume(), Some(30));
    assert_eq!(buf.consume(), Some(40));
    assert_eq!(buf.consume(), None);
}

#[test]
fn a_full_buffer_refuses_the_commit() {
    let mut buf: StreamBuffer<u64> = StreamBuffer::new(2, 0);
    assert!(buf.produce(1));
    assert!(buf.produce(2));
    assert!(!buf.produce(3));
    assert_eq!(buf.committed_count(), 2);
    assert_eq!(buf.consume(), Some(1));
    assert!(buf.produce(3));
    assert_eq!(buf.consume(), Some(2));
    assert_eq!(buf.consume(), Some(3));
}

#[test]
fn wrap_around_keeps_the_order() {
    let mut buf: StreamBuffer<u64> = StreamBuffer::new(4, 0);
    for round in 0..10u64 {
        assert!(buf.produce(2 * round));
        assert!(buf.produce(2 * round + 1));
        assert_eq!(buf.consume(), Some(2 * round));
        assert_eq!(buf.consume(), Some(2 * round + 1));
    }
    assert_eq!(buf.committed_count(), 20);
    assert_eq!(buf.consumed_count(), 20);
}

#[test]
fn the_consumer_drains_a_closed_stream() {
    let mut buf: StreamBuffer<u64> = StreamBuffer::new(4, 0);
    assert!(buf.produce(7));
    assert!(buf.produce(8));
    buf.close();
    assert!(!buf.produce(9));
    assert!(!buf.end_of_stream());
    assert_eq!(buf.consume(), Some(7));
    assert_eq!(buf.consume(), Some(8));
    assert!(buf.end_of_stream());
}

#[test]
fn drain_drops_what_is_pending() {
    let mut buf: StreamBuffer<u64> = StreamBuffer::new(4, 0);
    assert!(buf.produce(1));
    assert!(buf.produce(2));
    buf.drain();
    assert_eq!(buf.readable(), 0);
    assert_eq!(buf.committed_count(), 2);
    assert_eq!(buf.consumed_count(), 2);
}

#[test]
fn counters_track_windows() {
    let mut buf: StreamBuffer<u64> = StreamBuffer::new(4, 0);
    assert_eq!(buf.free_slots(), 4);
    assert_eq!(buf.readable(), 0);
    assert!(buf.produce(5));
    assert_eq!(buf.free_slots(), 3);
    assert_eq!(buf.readable(), 1);
}
