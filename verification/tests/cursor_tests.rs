use uringy::cursor::BufferTooSmall;
use uringy::cursor::Cursor;

#[test]
fn sequentially_writes_bytes() {
    let buffer = vec![0; 6];
    let mut cursor = Cursor::new(buffer);

    cursor.put(b"abc").unwrap();
    cursor.put(b"xyz").unwrap();

    assert_eq!(cursor.into_inner()[..6], b"abcxyz"[..]);
}

#[test]
fn keeps_track_of_position() {
    let buffer = vec![0; 6];
    let mut cursor = Cursor::new(buffer);

    assert_eq!(cursor.position(), 0);
    cursor.put(b"abc").unwrap();
    assert_eq!(cursor.position(), 3);
    cursor.put(b"xyz").unwrap();
    assert_eq!(cursor.position(), 6);
}

#[test]
fn fails_with_insufficient_buffer_size() {
    let buffer = vec![0; 5];
    let mut cursor = Cursor::new(buffer);

    assert!(cursor.put(b"abc").is_ok());
    assert_eq!(cursor.put(b"xyz"), Err(BufferTooSmall));
}

#[test]
fn failed_put_leaves_buffer_untouched() {
    let buffer = vec![7; 4];
    let mut cursor = Cursor::new(buffer);

    cursor.put(b"ab").unwrap();
    assert_eq!(cursor.put(b"cde"), Err(BufferTooSmall));
    assert_eq!(cursor.position(), 2);
    assert_eq!(cursor.into_inner(), vec![b'a', b'b', 7, 7]);
}
