use remote_mic::buffers::{fill_buffer, read_payload, AudioBufferPool, DEFAULT_BUFFER_SIZE};

#[test]
fn pops_are_exclusive_and_round_trip() {
    for n in [1usize, 2, 5, 64] {
        let mut pool = AudioBufferPool::new(n);
        assert_eq!(pool.len(), n);
        let mut seen = vec![false; n];
        for _ in 0..n {
            let idx = pool.pop().expect("a free buffer");
            assert!(idx < n);
            assert!(!seen[idx]);
            seen[idx] = true;
        }
        assert_eq!(pool.pop(), None);
        let back = n / 2;
        pool.push(back);
        assert_eq!(pool.pop(), Some(back));
        assert_eq!(pool.pop(), None);
    }
}

#[test]
fn free_indices_leave_in_order_of_return() {
    let mut pool = AudioBufferPool::new(3);
    assert_eq!(pool.pop(), Some(0));
    assert_eq!(pool.pop(), Some(1));
    pool.push(1);
    pool.push(0);
    assert_eq!(pool.pop(), Some(2));
    assert_eq!(pool.pop(), Some(1));
    assert_eq!(pool.pop(), Some(0));
}

#[test]
fn push_into_full_queue_is_ignored() {
    let mut pool = AudioBufferPool::new(2);
    pool.push(7);
    assert_eq!(pool.pop(), Some(0));
    assert_eq!(pool.pop(), Some(1));
    assert_eq!(pool.pop(), None);
}

#[test]
fn empty_pool_has_nothing_to_give() {
    let mut pool = AudioBufferPool::new(0);
    assert_eq!(pool.pop(), None);
    pool.push(0);
    assert_eq!(pool.pop(), None);
    assert_eq!(pool.payload(0), None);
}

#[test]
fn capture_writes_length_and_bytes() {
    let mut pool = AudioBufferPool::new(2);
    assert_eq!(pool.payload(0), None);
    let idx = pool.capture(&[10, 20, 30]).unwrap();
    assert_eq!(idx, 0);
    assert_eq!(pool.payload(0), Some(vec![10, 20, 30]));
    assert_eq!(pool.capture(&[1]), Some(1));
    assert_eq!(pool.capture(&[2]), None);
    assert_eq!(pool.payload(1), Some(vec![1]));
    assert_eq!(pool.payload(2), None);
}

#[test]
fn oversized_chunk_is_cut_to_the_buffer() {
    let mut pool = AudioBufferPool::new(1);
    let chunk = vec![7u8; DEFAULT_BUFFER_SIZE + 100];
    pool.capture(&chunk).unwrap();
    let payload = pool.payload(0).unwrap();
    assert_eq!(payload.len(), DEFAULT_BUFFER_SIZE - 4);
    assert!(payload.iter().all(|b| *b == 7));
}

#[test]
fn length_prefix_is_little_endian() {
    let mut buf = vec![0xffu8; 600];
    let chunk: Vec<u8> = (0..300u16).map(|i| (i % 256) as u8).collect();
    fill_buffer(&mut buf, &chunk);
    assert_eq!(&buf[..4], &[0x2c, 0x01, 0, 0]);
    assert_eq!(&buf[4..304], &chunk[..]);
    assert!(buf[304..].iter().all(|b| *b == 0xff));
    assert_eq!(read_payload(&buf), Some(chunk));
}

#[test]
fn inconsistent_length_prefix_is_rejected() {
    assert_eq!(read_payload(&vec![1, 0, 0]), None);
    assert_eq!(read_payload(&vec![0, 0, 0, 0, 9]), None);
    assert_eq!(read_payload(&vec![2, 0, 0, 0, 9]), None);
    assert_eq!(read_payload(&vec![1, 0, 0, 0, 9]), Some(vec![9]));
    assert_eq!(read_payload(&vec![1, 0, 0, 1, 9]), None);
    let mut tiny = vec![5u8; 4];
    fill_buffer(&mut tiny, &[1, 2]);
    assert_eq!(tiny, vec![5u8; 4]);
}
