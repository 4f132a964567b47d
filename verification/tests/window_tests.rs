use textutils::window::RingBuffer;

#[test]
fn ring_buffer_evicts_oldest_in_arrival_order() {
    let mut ring: RingBuffer<u32> = RingBuffer::new(2);
    assert_eq!(ring.len(), 0);
    assert_eq!(ring.push_evict(1), None);
    assert_eq!(ring.push_evict(2), None);
    assert_eq!(ring.len(), 2);
    assert_eq!(ring.push_evict(3), Some(1));
    assert_eq!(ring.push_evict(4), Some(2));
    assert_eq!(ring.push_evict(5), Some(3));
    assert_eq!(ring.len(), 2);
}

#[test]
fn ring_buffer_of_one_keeps_only_the_newest() {
    let mut ring: RingBuffer<u8> = RingBuffer::new(1);
    assert_eq!(ring.push_evict(b'a'), None);
    assert_eq!(ring.push_evict(b'b'), Some(b'a'));
    assert_eq!(ring.push_evict(b'c'), Some(b'b'));
}
