use smart_brain::ring::{FixedRingBuffer, RingError, SharedRing};

#[test]
fn fifo_order() {
    let mut r = FixedRingBuffer::new(3).unwrap();
    r.push(1);
    r.push(2);
    r.push(3);
    assert_eq!(r.pop_oldest(), Some(1));
    assert_eq!(r.pop_oldest(), Some(2));
    assert_eq!(r.pop_oldest(), Some(3));
    assert!(r.is_empty());
}

#[test]
fn overwrite_oldest() {
    let mut r = FixedRingBuffer::new(2).unwrap();
    r.push(1);
    r.push(2);
    let evicted = r.push(3);
    assert_eq!(evicted, Some(1));
    assert_eq!(r.len(), 2);
    assert_eq!(r.get(0), Some(&2));
    assert_eq!(r.get(1), Some(&3));
}

#[test]
fn invalid_capacity() {
    assert!(matches!(
        FixedRingBuffer::<u8>::new(0),
        Err(RingError::InvalidCapacity)
    ));
}

#[test]
fn iter_yields_oldest_to_newest() {
    let mut r = FixedRingBuffer::new(3).unwrap();
    r.push(10);
    r.push(20);
    r.push(30);
    r.push(40);
    let got: Vec<i32> = r.iter().copied().collect();
    assert_eq!(got, vec![20, 30, 40]);
}

#[test]
fn shared_ring_exposes_read_api() {
    let ring = SharedRing::new(3).unwrap();
    assert!(ring.is_empty());
    assert_eq!(ring.capacity(), 3);
    ring.push("a".to_string());
    ring.push("b".to_string());
    assert_eq!(ring.len(), 2);
    assert_eq!(ring.get(0), Some("a".to_string()));
    assert_eq!(ring.get(1), Some("b".to_string()));
    assert_eq!(ring.iter(), vec!["a".to_string(), "b".to_string()]);
    assert_eq!(ring.pop_oldest(), Some("a".to_string()));
}

#[test]
fn shared_ring_full_and_evict() {
    let ring = SharedRing::new(2).unwrap();
    ring.push(1);
    ring.push(2);
    assert!(ring.is_full());
    let evicted = ring.push(3);
    assert_eq!(evicted, Some(1));
    assert_eq!(ring.iter(), vec![2, 3]);
}

#[test]
fn shared_ring_rejects_zero_capacity() {
    assert!(matches!(SharedRing::<u8>::new(0), Err(RingError::InvalidCapacity)));
}

#[test]
fn pop_on_empty_is_none_and_len_stays() {
    let mut r = FixedRingBuffer::<u32>::new(2).unwrap();
    assert_eq!(r.pop_oldest(), None);
    assert_eq!(r.len(), 0);
    assert_eq!(r.get(0), None);
}

#[test]
fn wraparound_keeps_fifo_order() {
    let mut r = FixedRingBuffer::new(3).unwrap();
    for i in 0..10u32 {
        r.push(i);
        if i % 2 == 0 {
            r.pop_oldest();
        }
    }
    let got: Vec<u32> = r.iter().copied().collect();
    assert_eq!(got, vec![7, 8, 9]);
    assert!(r.is_full());
    assert_eq!(r.capacity(), 3);
}

#[test]
fn clear_empties_and_allows_reuse() {
    let mut r = FixedRingBuffer::new(2).unwrap();
    r.push(5);
    r.push(6);
    r.clear();
    assert!(r.is_empty());
    assert_eq!(r.push(7), None);
    assert_eq!(r.get(0), Some(&7));
    assert_eq!(r.capacity(), 2);
}

#[test]
fn len_never_exceeds_capacity() {
    let mut r = FixedRingBuffer::new(4).unwrap();
    for i in 0..100u8 {
        r.push(i);
        assert!(r.len() <= r.capacity());
    }
    assert!(r.is_full());
}

#[test]
fn full_exactly_after_capacity_pushes() {
    let mut r = FixedRingBuffer::new(4).unwrap();
    for k in 1..=6 {
        r.push(k);
        assert_eq!(r.len(), std::cmp::min(k, 4));
        assert_eq!(r.is_full(), k >= 4);
    }
}
