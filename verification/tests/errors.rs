use bip_buffer::{BipBuffer, BipBufferError};

#[test]
fn reserve_beyond_capacity_overflows() {
    let mut buf = BipBuffer::new(100);
    assert_eq!(
        buf.reserve(101).map(|region| region.len()),
        Err(BipBufferError::BufferOverflow { size: 101, capacity: 100 })
    );
    assert_eq!(buf.reserve(100).map(|region| region.len()), Ok(100));
}

#[test]
fn overflow_keeps_the_pending_reservation() {
    let mut buf = BipBuffer::new(8);
    buf.reserve(4).unwrap().copy_from_slice(b"abcd");
    assert!(matches!(
        buf.reserve(9),
        Err(BipBufferError::BufferOverflow { size: 9, capacity: 8 })
    ));
    buf.commit(4).unwrap();
    assert_eq!(buf.read(), b"abcd");
}

#[test]
fn reserve_without_contiguous_gap_is_full() {
    let mut buf = BipBuffer::new(10);
    buf.write(b"12345678").unwrap();
    buf.consume(3).unwrap();
    assert_eq!(buf.free_space(), 5);
    assert!(matches!(
        buf.reserve(5),
        Err(BipBufferError::BufferFull { requested: 5 })
    ));
    assert_eq!(buf.read_all(), b"45678");

    buf.write(b"ABC").unwrap();
    assert_eq!(buf.free_space(), 2);
    assert!(matches!(
        buf.reserve(5),
        Err(BipBufferError::BufferFull { requested: 5 })
    ));
    assert_eq!(buf.read_all(), b"45678ABC");
}

#[test]
fn full_reserve_drops_the_pending_reservation() {
    let mut buf = BipBuffer::new(10);
    buf.write(b"12345678").unwrap();
    assert_eq!(buf.reserve(2).unwrap().len(), 2);
    assert_eq!(buf.free_space(), 0);
    assert!(matches!(
        buf.reserve(3),
        Err(BipBufferError::BufferFull { requested: 3 })
    ));
    assert_eq!(buf.free_space(), 2);
    assert_eq!(
        buf.commit(2),
        Err(BipBufferError::InvalidCommitSize { size: 2, max: 0 })
    );
}

#[test]
fn second_reserve_replaces_the_first() {
    let mut buf = BipBuffer::new(20);
    assert_eq!(buf.reserve(10).unwrap().len(), 10);
    assert_eq!(buf.reserve(5).unwrap().len(), 5);
    assert_eq!(buf.free_space(), 15);
    assert_eq!(
        buf.commit(10),
        Err(BipBufferError::InvalidCommitSize { size: 10, max: 5 })
    );
}

#[test]
fn failed_commit_keeps_the_reservation() {
    let mut buf = BipBuffer::new(20);
    buf.reserve(5).unwrap().copy_from_slice(b"hello");
    assert_eq!(
        buf.commit(6),
        Err(BipBufferError::InvalidCommitSize { size: 6, max: 5 })
    );
    assert_eq!(buf.len(), 0);
    buf.commit(5).unwrap();
    assert_eq!(buf.read(), b"hello");
    assert_eq!(
        buf.commit(1),
        Err(BipBufferError::InvalidCommitSize { size: 1, max: 0 })
    );
}

#[test]
fn consume_beyond_first_block_is_refused() {
    let mut buf = BipBuffer::new(10);
    buf.write(b"12345678").unwrap();
    buf.consume(3).unwrap();
    buf.write(b"ABC").unwrap();
    // Eight bytes are stored, but the first block holds five.
    assert_eq!(
        buf.consume(6),
        Err(BipBufferError::InvalidCommitSize { size: 6, max: 5 })
    );
    assert_eq!(buf.read_all(), b"45678ABC");

    let mut empty = BipBuffer::new(4);
    assert_eq!(
        empty.consume(1),
        Err(BipBufferError::InvalidCommitSize { size: 1, max: 0 })
    );
}

#[test]
fn read_and_consume_without_enough_data() {
    let mut buf = BipBuffer::new(10);
    assert_eq!(buf.read_and_consume(1), Err(BipBufferError::NoData));

    buf.write(b"12345678").unwrap();
    buf.consume(3).unwrap();
    buf.write(b"ABC").unwrap();
    assert_eq!(buf.read_and_consume(9), Err(BipBufferError::NoData));
    // What was there has been taken out.
    assert!(buf.is_empty());
    assert_eq!(buf.b_end(), 0);
}

#[test]
fn write_beyond_capacity_overflows() {
    let mut buf = BipBuffer::new(4);
    assert_eq!(
        buf.write(b"12345"),
        Err(BipBufferError::BufferOverflow { size: 5, capacity: 4 })
    );
    assert!(buf.is_empty());
    assert!(buf.write(b"").is_ok());
}
