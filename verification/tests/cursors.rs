use bytes::Bytes;
use xb::reader::XBRead;
use xb::writer::XBWrite;

#[test]
fn write_cursor_starts_empty() {
    let w = XBWrite::new();
    assert_eq!(w.len(), 0);
    assert_eq!(w.get_position(), 0);
    assert_eq!(w.to_vec(), Vec::<u8>::new());
}

#[test]
fn write_string_bit7_len_abc() {
    let mut w = XBWrite::new();
    w.write_string_bit7_len("abc");
    assert_eq!(w.to_vec(), vec![0x03, 0x61, 0x62, 0x63]);
    assert_eq!(w.get_position(), 4);
}

#[test]
fn write_string_u32_le_len_ab() {
    let mut w = XBWrite::new();
    w.write_string_u32_le_len("ab");
    assert_eq!(w.to_vec(), vec![0x02, 0x00, 0x00, 0x00, 0x61, 0x62]);
}

#[test]
fn write_plain_string_has_no_prefix() {
    let mut w = XBWrite::new();
    w.write_string("hi");
    assert_eq!(w.to_vec(), vec![0x68, 0x69]);
}

#[test]
fn write_bit7_len_prefixes_raw_bytes() {
    let mut w = XBWrite::new();
    w.write_bit7_len(&[9, 8, 7]);
    assert_eq!(w.to_vec(), vec![0x03, 9, 8, 7]);
}

#[test]
fn write_u32_len_prefixes_raw_bytes() {
    let mut w = XBWrite::new();
    w.write_u32_len(&[5, 6]);
    assert_eq!(w.to_vec(), vec![0x02, 0x00, 0x00, 0x00, 5, 6]);
}

#[test]
fn bit7_writes_use_varint_encoding() {
    let mut w = XBWrite::new();
    w.bit7_write_u16(300);
    assert_eq!(w.to_vec(), vec![0xAC, 0x02]);

    let mut w = XBWrite::new();
    w.bit7_write_i16(-1);
    assert_eq!(w.to_vec(), vec![0x01]);

    let mut w = XBWrite::new();
    w.bit7_write_u32(300);
    w.bit7_write_i32(1);
    assert_eq!(w.to_vec(), vec![0xAC, 0x02, 0x02]);

    let mut w = XBWrite::new();
    w.bit7_write_u64(u64::MAX);
    assert_eq!(w.to_vec().len(), 10);

    let mut w = XBWrite::new();
    w.bit7_write_i64(-2);
    assert_eq!(w.to_vec(), vec![0x03]);
}

#[test]
fn put_u32_le_writes_four_bytes() {
    let mut w = XBWrite::new();
    w.put_u32_le(0x12345678);
    assert_eq!(w.to_vec(), vec![0x78, 0x56, 0x34, 0x12]);
}

#[test]
fn set_position_succeeds_iff_within_length() {
    let mut w = XBWrite::new();
    w.write(&[1, 2, 3, 4]);
    assert!(w.set_position(0));
    assert!(w.set_position(4));
    assert_eq!(w.get_position(), 4);
    assert!(!w.set_position(5));
    assert_eq!(w.get_position(), 4);
    assert_eq!(w.len(), 4);
}

#[test]
fn write_growth_is_exact() {
    let mut w = XBWrite::new();
    w.write(&[1, 2, 3, 4]);
    assert_eq!(w.len(), 4);
    assert!(w.set_position(2));
    w.write(&[9, 9, 9]);
    assert_eq!(w.len(), 5);
    assert_eq!(w.get_position(), 5);
    assert_eq!(w.to_vec(), vec![1, 2, 9, 9, 9]);
}

#[test]
fn check_resize_zero_fills() {
    let mut w = XBWrite::new();
    assert_eq!(w.check_resize(3), 3);
    assert_eq!(w.len(), 3);
    assert_eq!(w.get_position(), 0);
    assert_eq!(w.to_vec(), vec![0, 0, 0]);
}

#[test]
fn backpatch_length_after_rewind() {
    let mut w = XBWrite::new();
    w.put_u32_le(0);
    w.write_string("ab");
    assert!(w.set_position(0));
    w.put_u32_le(2);
    assert_eq!(w.to_vec(), vec![0x02, 0x00, 0x00, 0x00, 0x61, 0x62]);
}

#[test]
fn reset_empties_and_allows_reuse() {
    let mut w = XBWrite::new();
    w.write(&[1, 2, 3]);
    w.reset();
    assert_eq!(w.len(), 0);
    assert_eq!(w.get_position(), 0);
    w.write(&[7]);
    assert_eq!(w.to_vec(), vec![7]);
}

#[test]
fn flush_hands_over_the_buffer() {
    let mut w = XBWrite::new();
    w.write(&[1, 2, 3]);
    let b = w.flush();
    assert_eq!(&b[..], &[1, 2, 3]);
}

#[test]
fn read_string_bit7_len_abc() {
    let mut r = XBRead::new(Bytes::copy_from_slice(&[0x03, 0x61, 0x62, 0x63]));
    assert_eq!(r.remaining(), 4);
    assert_eq!(r.read_string_bit7_len(), Some(String::from("abc")));
    assert_eq!(r.remaining(), 0);
}

#[test]
fn read_vec_bit7_len_payload() {
    let mut r = XBRead::new(Bytes::copy_from_slice(&[0x02, 9, 8, 77]));
    assert_eq!(r.read_vec_bit7_len(), Some(vec![9, 8]));
    assert_eq!(r.remaining(), 1);
}

#[test]
fn empty_buffer_varint_reads_consume_nothing() {
    let r = XBRead::new(Bytes::new());
    assert_eq!(r.read_bit7_u16(), (0, 0));
    assert_eq!(r.read_bit7_u32(), (0, 0));
    assert_eq!(r.read_bit7_u64(), (0, 0));
    assert_eq!(r.read_bit7_i16(), (0, 0));
    assert_eq!(r.read_bit7_i32(), (0, 0));
    assert_eq!(r.read_bit7_i64(), (0, 0));
}

#[test]
fn bytes_views_the_unconsumed_tail() {
    let mut r = XBRead::new(Bytes::copy_from_slice(&[1, 2, 3]));
    assert_eq!(r.bytes(), &[1, 2, 3]);
    r.advance(1);
    assert_eq!(r.bytes(), &[2, 3]);
}

#[test]
fn varint_reads_peek_without_consuming() {
    let mut r = XBRead::new(Bytes::copy_from_slice(&[0xAC, 0x02]));
    assert_eq!(r.read_bit7_u32(), (2, 300));
    assert_eq!(r.read_bit7_u32(), (2, 300));
    assert_eq!(r.remaining(), 2);
    r.advance(2);
    assert_eq!(r.remaining(), 0);
}

#[test]
fn signed_varint_reads_apply_zigzag() {
    let r = XBRead::new(Bytes::copy_from_slice(&[0x01]));
    assert_eq!(r.read_bit7_i16(), (1, -1));
    assert_eq!(r.read_bit7_i32(), (1, -1));
    assert_eq!(r.read_bit7_i64(), (1, -1));
    let r = XBRead::new(Bytes::copy_from_slice(&[0x04]));
    assert_eq!(r.read_bit7_i32(), (1, 2));
}

#[test]
fn zero_length_bit7_prefix_yields_none_without_consuming() {
    let mut r = XBRead::new(Bytes::copy_from_slice(&[0x00, 0x61]));
    assert_eq!(r.read_string_bit7_len(), None);
    assert_eq!(r.remaining(), 2);
    assert_eq!(r.read_vec_bit7_len(), None);
    assert_eq!(r.remaining(), 2);
}

#[test]
fn truncated_bit7_prefix_yields_none() {
    let mut r = XBRead::new(Bytes::copy_from_slice(&[0x80]));
    assert_eq!(r.read_string_bit7_len(), None);
    assert_eq!(r.remaining(), 1);
}

#[test]
fn read_string_u32_le_round() {
    let mut r = XBRead::new(Bytes::copy_from_slice(&[0x02, 0x00, 0x00, 0x00, 0x61, 0x62]));
    assert_eq!(r.read_string_u32_le(), Some(String::from("ab")));
    assert_eq!(r.remaining(), 0);
}

#[test]
fn read_vec_u32_le_round() {
    let mut r = XBRead::new(Bytes::copy_from_slice(&[0x02, 0x00, 0x00, 0x00, 5, 6, 7]));
    assert_eq!(r.read_vec_u32_le(), Some(vec![5, 6]));
    assert_eq!(r.remaining(), 1);
}

#[test]
fn zero_u32_le_prefix_yields_none_after_prefix() {
    let mut r = XBRead::new(Bytes::copy_from_slice(&[0x00, 0x00, 0x00, 0x00, 0x61]));
    assert_eq!(r.read_string_u32_le(), None);
    assert_eq!(r.remaining(), 1);
}

#[test]
fn get_u32_le_is_little_endian() {
    let mut r = XBRead::new(Bytes::copy_from_slice(&[0x78, 0x56, 0x34, 0x12]));
    assert_eq!(r.get_u32_le(), 0x12345678);
    assert_eq!(r.remaining(), 0);
}

#[test]
fn read_string_substitutes_invalid_utf8() {
    let mut r = XBRead::new(Bytes::copy_from_slice(&[0xFF, 0x61]));
    assert_eq!(r.read_string(2), String::from("\u{FFFD}a"));
    assert_eq!(r.remaining(), 0);
}

#[test]
fn read_fixed_length_pieces() {
    let mut r = XBRead::new(Bytes::copy_from_slice(&[0x61, 0x62, 1, 2, 3]));
    assert_eq!(r.read_string(2), String::from("ab"));
    assert_eq!(r.read_vec(3), vec![1, 2, 3]);
    assert_eq!(r.remaining(), 0);
}

#[test]
fn writer_output_reads_back() {
    let mut w = XBWrite::new();
    w.bit7_write_u32(7);
    w.write_string_bit7_len("hello");
    w.bit7_write_i64(-300);
    let bytes = w.to_vec();

    let mut r = XBRead::new(Bytes::copy_from_slice(&bytes));
    let (n, v) = r.read_bit7_u32();
    assert_eq!((n, v), (1, 7));
    r.advance(n);
    assert_eq!(r.read_string_bit7_len(), Some(String::from("hello")));
    let (n, v) = r.read_bit7_i64();
    assert_eq!(v, -300);
    r.advance(n);
    assert_eq!(r.remaining(), 0);
}
