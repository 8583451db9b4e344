use dns_forwarder::buf::{BufRead, BufWrite, DirectAccessBuf, WireBuffer};

#[test]
fn read_u16_and_u32_big_endian() {
    let mut b = WireBuffer::new(vec![0x12, 0x34, 0xde, 0xad, 0xbe, 0xef]);
    assert_eq!(b.next_u16(), Some(0x1234));
    assert_eq!(b.pos(), 2);
    assert_eq!(b.next_u32(), Some(0xdeadbeef));
    assert_eq!(b.pos(), 6);
    assert_eq!(b.next_u8(), None);
}

#[test]
fn short_reads_leave_cursor() {
    let mut b = WireBuffer::new(vec![1, 2, 3]);
    assert_eq!(b.next_u32(), None);
    assert_eq!(b.pos(), 0);
    assert!(b.seek(2));
    assert_eq!(b.next_u16(), None);
    assert_eq!(b.pos(), 2);
    assert_eq!(b.next_u8(), Some(3));
    assert_eq!(b.pos(), 3);
    assert_eq!(b.peek_u8(), None);
}

#[test]
fn seek_and_advance_bounds() {
    let mut b = WireBuffer::new(vec![1, 2, 3, 4]);
    assert!(!b.seek(5));
    assert_eq!(b.pos(), 0);
    assert!(b.seek(4));
    assert!(!b.advance(1));
    assert_eq!(b.pos(), 4);
    b.reset();
    assert_eq!(b.pos(), 0);
    assert!(b.advance(3));
    assert_eq!(b.peek_u8(), Some(4));
    assert_eq!(b.len(), 4);
    assert!(!b.is_empty());
    assert!(WireBuffer::new(vec![]).is_empty());
}

#[test]
fn next_bytes_is_greedy() {
    let mut b = WireBuffer::new(vec![1, 2, 3, 4, 5]);
    assert!(b.seek(1));
    assert_eq!(b.next_bytes(2), vec![2, 3]);
    assert_eq!(b.next_bytes(10), vec![4, 5]);
    assert_eq!(b.pos(), 5);
    assert_eq!(b.next_bytes(3), Vec::<u8>::new());
}

#[test]
fn writes_are_atomic() {
    let mut b = WireBuffer::zeroed(5);
    assert!(b.seek(2));
    assert!(!b.write_u32(0x01020304));
    assert_eq!(b.pos(), 2);
    assert!(b.write_u16(0xabcd));
    assert_eq!(b.pos(), 4);
    assert!(!b.write_u16(0x1111));
    assert_eq!(b.pos(), 4);
    assert!(b.write_u8(7));
    assert!(!b.write_u8(8));
    assert_eq!(b.into_bytes(), vec![0, 0, 0xab, 0xcd, 7]);
}

#[test]
fn write_bytes_all_or_nothing() {
    let mut b = WireBuffer::zeroed(4);
    assert!(b.advance(1));
    assert!(!b.write_bytes(&[9, 9, 9, 9]));
    assert_eq!(b.pos(), 1);
    assert!(b.write_bytes(&[5, 6, 7]));
    assert_eq!(b.pos(), 4);
    assert_eq!(b.buf().to_vec(), vec![0, 5, 6, 7]);
}

#[test]
fn u32_round_trip() {
    for v in [0u32, 1, 255, 256, 0x00ff00ff, 0x80000000, u32::MAX] {
        let mut b = WireBuffer::zeroed(7);
        assert!(b.seek(3));
        assert!(b.write_u32(v));
        assert!(b.seek(3));
        assert_eq!(b.next_u32(), Some(v));
    }
}

#[test]
fn u16_written_big_endian() {
    let mut b = WireBuffer::zeroed(2);
    assert!(b.write_u16(0x0102));
    assert_eq!(b.into_bytes(), vec![1, 2]);
}

#[test]
fn set_byte_keeps_cursor() {
    let mut b = WireBuffer::zeroed(3);
    b.set_byte(1, 42);
    b.set_pos(2);
    assert_eq!(b.pos(), 2);
    assert!(b.seek(1));
    assert_eq!(b.next_u8(), Some(42));
}
