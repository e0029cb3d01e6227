use ballista_map_partition::monitor::store::RingBuffer;

#[test]
fn test_ring_buffer_basic() {
    let mut buf: RingBuffer<i32> = RingBuffer::new(3);
    buf.push(1);
    buf.push(2);
    buf.push(3);
    assert_eq!(buf.to_vec().into_iter().copied().collect::<Vec<_>>(), vec![1, 2, 3]);

    buf.push(4);
    assert_eq!(buf.to_vec().into_iter().copied().collect::<Vec<_>>(), vec![2, 3, 4]);
    assert_eq!(buf.last(), Some(&4));
}

#[test]
fn test_ring_buffer_recent() {
    let mut buf: RingBuffer<i32> = RingBuffer::new(5);
    for i in 1..=8 {
        buf.push(i);
    }
    let recent: Vec<i32> = buf.recent(3).into_iter().copied().collect();
    assert_eq!(recent, vec![6, 7, 8]);
}

#[test]
fn ring_buffer_keeps_the_newest_in_order() {
    let mut buf: RingBuffer<u32> = RingBuffer::new(4);
    assert!(buf.is_empty());
    assert_eq!(buf.last(), None);
    for i in 0..11 {
        buf.push(i);
        assert!(buf.len() <= 4);
    }
    assert_eq!(buf.to_vec(), vec![&7, &8, &9, &10]);
    assert_eq!(buf.recent(0), Vec::<&u32>::new());
    assert_eq!(buf.recent(9), vec![&7, &8, &9, &10]);
    assert_eq!(buf.recent(2), vec![&9, &10]);
    assert_eq!(buf.len(), 4);
}
