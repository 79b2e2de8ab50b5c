use bip_buffer::{BipBuffer, BipBufferError};

#[test]
fn test_basic_operations() {
    let mut buf = BipBuffer::new(100);
    assert_eq!(buf.capacity(), 100);
    assert_eq!(buf.len(), 0);
    assert!(buf.is_empty());

    buf.write(b"hello").unwrap();
    assert_eq!(buf.len(), 5);
    assert!(!buf.is_empty());

    let data = buf.read();
    assert_eq!(data, b"hello");

    buf.consume(5).unwrap();
    assert!(buf.is_empty());
}

#[test]
fn test_reserve_commit() {
    let mut buf = BipBuffer::new(100);

    let space = buf.reserve(10).unwrap();
    assert_eq!(space.len(), 10);

    space.copy_from_slice(b"1234567890");

    // Not visible until committed.
    assert!(buf.read().is_empty());

    buf.commit(10).unwrap();

    assert_eq!(buf.read(), b"1234567890");
}

#[test]
fn test_wrapping() {
    let mut buf = BipBuffer::new(10);

    buf.write(b"12345678").unwrap();

    buf.consume(3).unwrap();

    // Three bytes are free at the front: this write wraps into region B.
    buf.write(b"ABC").unwrap();

    assert_eq!(buf.read(), b"45678");
    buf.consume(5).unwrap();

    assert_eq!(buf.read(), b"ABC");
}

#[test]
fn test_compact() {
    let mut buf = BipBuffer::new(10);

    buf.write(b"12345").unwrap();
    buf.consume(2).unwrap();
    buf.write(b"ABC").unwrap();

    println!("Before compact: {}", buf.debug_info());
    buf.compact();
    println!("After compact: {}", buf.debug_info());

    assert_eq!(buf.b_end(), 0);
    assert_eq!(buf.read_all(), b"345ABC");
}

#[test]
fn test_peek() {
    let mut buf = BipBuffer::new(10);
    buf.write(b"hello wo").unwrap();

    let peeked = buf.peek(5);
    assert_eq!(peeked, b"hello");
    assert_eq!(buf.len(), 8);

    assert_eq!(buf.read(), b"hello wo");
}

#[test]
fn test_space_limitations() {
    let mut buf = BipBuffer::new(10);

    buf.write(b"12345678").unwrap();
    buf.consume(3).unwrap();

    // Five bytes are free, but in gaps of three and two.
    assert!(matches!(
        buf.write(b"ABCDE"),
        Err(BipBufferError::BufferFull { requested: 5 })
    ));

    buf.write(b"ABC").unwrap();
    assert_eq!(buf.len(), 8);

    buf.write(b"XY").unwrap();
    assert_eq!(buf.len(), 10);

    assert_eq!(buf.read(), b"45678XY");
    buf.consume(7).unwrap();
    assert_eq!(buf.read(), b"ABC");
}

#[test]
fn test_iterator() {
    let mut buf = BipBuffer::new(10);
    buf.write(b"test").unwrap();

    let collected: Vec<u8> = buf.iter().into_iter().collect();
    assert_eq!(collected, b"test");
}

#[test]
fn test_find() {
    let mut buf = BipBuffer::new(20);
    buf.write(b"hello world test").unwrap();

    assert_eq!(buf.find(b"world"), Some(6));
    assert_eq!(buf.find(b"xyz"), None);
    assert_eq!(buf.find(b"hello"), Some(0));
}
