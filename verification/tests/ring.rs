use phosphor::ring::RingBuffer;

#[test]
fn starts_zero_filled() {
    let rb = RingBuffer::new(4);
    let mut out = vec![7i64; 4];
    rb.copy_ordered_into(&mut out);
    assert_eq!(out, vec![0, 0, 0, 0]);
}

#[test]
fn keeps_last_capacity_samples_in_order() {
    // Pushing N + k samples into a store of capacity N keeps exactly the
    // last N, oldest first.
    let mut rb = RingBuffer::new(4);
    for s in 1..=7i64 {
        rb.push(s);
    }
    let mut out = vec![0i64; 4];
    rb.copy_ordered_into(&mut out);
    assert_eq!(out, vec![4, 5, 6, 7]);
}

#[test]
fn partial_fill_keeps_leading_zeros() {
    let mut rb = RingBuffer::new(3);
    rb.push(9);
    let mut out = vec![0i64; 3];
    rb.copy_ordered_into(&mut out);
    assert_eq!(out, vec![0, 0, 9]);
}

#[test]
fn wraps_many_times() {
    let mut rb = RingBuffer::new(2);
    for s in 0..101i64 {
        rb.push(s);
    }
    let mut out = vec![0i64; 2];
    rb.copy_ordered_into(&mut out);
    assert_eq!(out, vec![99, 100]);
}
