use xb::varint::{
    decode_varint_u16, decode_varint_u32, decode_varint_u64, encode_varint_u16, encode_varint_u32,
    encode_varint_u64,
};
use xb::zigzag::{
    zig_zag_decode_i16, zig_zag_decode_i32, zig_zag_decode_i64, zig_zag_encode_u16,
    zig_zag_encode_u32, zig_zag_encode_u64,
};

#[test]
fn varint_300_encodes_to_two_bytes() {
    assert_eq!(encode_varint_u16(300), vec![0xAC, 0x02]);
    assert_eq!(encode_varint_u32(300), vec![0xAC, 0x02]);
    assert_eq!(encode_varint_u64(300), vec![0xAC, 0x02]);
}

#[test]
fn varint_300_decodes_from_two_bytes() {
    assert_eq!(decode_varint_u16(&[0xAC, 0x02]), (2, 300));
    assert_eq!(decode_varint_u32(&[0xAC, 0x02]), (2, 300));
    assert_eq!(decode_varint_u64(&[0xAC, 0x02]), (2, 300));
}

#[test]
fn varint_zero_is_one_byte() {
    assert_eq!(encode_varint_u64(0), vec![0x00]);
    assert_eq!(decode_varint_u64(&[0x00]), (1, 0));
}

#[test]
fn varint_group_boundary() {
    assert_eq!(encode_varint_u32(127), vec![0x7F]);
    assert_eq!(encode_varint_u32(128), vec![0x80, 0x01]);
    assert_eq!(decode_varint_u32(&[0x7F]), (1, 127));
    assert_eq!(decode_varint_u32(&[0x80, 0x01]), (2, 128));
}

#[test]
fn varint_round_trips_width_maxima() {
    let e16 = encode_varint_u16(u16::MAX);
    assert_eq!(e16, vec![0xFF, 0xFF, 0x03]);
    assert_eq!(decode_varint_u16(&e16), (3, u16::MAX));

    let e32 = encode_varint_u32(u32::MAX);
    assert_eq!(e32.len(), 5);
    assert_eq!(decode_varint_u32(&e32), (5, u32::MAX));

    let e64 = encode_varint_u64(u64::MAX);
    assert_eq!(e64.len(), 10);
    assert_eq!(decode_varint_u64(&e64), (10, u64::MAX));
}

#[test]
fn varint_round_trips_sweep() {
    for v in (0u64..3000).chain((0..64).map(|s| 1u64 << s)) {
        let e = encode_varint_u64(v);
        assert!(e.len() >= 1 && e.len() <= 10);
        assert_eq!(decode_varint_u64(&e), (e.len(), v));
    }
}

#[test]
fn varint_encoding_is_minimal() {
    for v in [0u64, 1, 127, 128, 300, 16383, 16384, u64::MAX] {
        let e = encode_varint_u64(v);
        let last = *e.last().unwrap();
        assert!(last < 0x80);
        if e.len() > 1 {
            assert_ne!(last, 0);
        }
    }
}

#[test]
fn varint_truncated_input_consumes_nothing() {
    assert_eq!(decode_varint_u16(&[]), (0, 0));
    assert_eq!(decode_varint_u32(&[]), (0, 0));
    assert_eq!(decode_varint_u64(&[]), (0, 0));
    assert_eq!(decode_varint_u32(&[0x80]), (0, 0));
    assert_eq!(decode_varint_u32(&[0xAC | 0x80]), (0, 0));
    let e = encode_varint_u64(u64::MAX);
    for k in 0..e.len() {
        assert_eq!(decode_varint_u64(&e[..k]), (0, 0));
    }
}

#[test]
fn varint_unterminated_max_groups_consumes_nothing() {
    assert_eq!(decode_varint_u16(&[0xFF, 0xFF, 0xFF, 0x01]), (0, 0));
    assert_eq!(decode_varint_u32(&[0x80, 0x80, 0x80, 0x80, 0x80, 0x01]), (0, 0));
    assert_eq!(decode_varint_u64(&[0x80; 11]), (0, 0));
}

#[test]
fn varint_decode_ignores_trailing_bytes() {
    assert_eq!(decode_varint_u32(&[0xAC, 0x02, 0xFF, 0xFF]), (2, 300));
}

#[test]
fn zigzag_small_examples() {
    assert_eq!(zig_zag_encode_u16(-1), 1);
    assert_eq!(zig_zag_encode_u16(0), 0);
    assert_eq!(zig_zag_encode_u16(1), 2);
    assert_eq!(zig_zag_encode_u32(-2), 3);
    assert_eq!(zig_zag_encode_u64(2), 4);
    assert_eq!(zig_zag_decode_i16(1), -1);
    assert_eq!(zig_zag_decode_i16(0), 0);
    assert_eq!(zig_zag_decode_i16(2), 1);
}

#[test]
fn zigzag_round_trips_extremes() {
    for v in [i16::MIN, i16::MIN + 1, -1, 0, 1, i16::MAX] {
        assert_eq!(zig_zag_decode_i16(zig_zag_encode_u16(v)), v);
    }
    assert_eq!(zig_zag_encode_u16(i16::MIN), u16::MAX);
    for v in [i32::MIN, -1, 0, 1, i32::MAX] {
        assert_eq!(zig_zag_decode_i32(zig_zag_encode_u32(v)), v);
    }
    for v in [i64::MIN, -1, 0, 1, i64::MAX] {
        assert_eq!(zig_zag_decode_i64(zig_zag_encode_u64(v)), v);
    }
}

#[test]
fn zigzag_round_trips_sweep() {
    for v in -3000i64..3000 {
        assert_eq!(zig_zag_decode_i64(zig_zag_encode_u64(v)), v);
        assert_eq!(zig_zag_decode_i32(zig_zag_encode_u32(v as i32)), v as i32);
        assert_eq!(zig_zag_decode_i16(zig_zag_encode_u16(v as i16)), v as i16);
    }
}

#[test]
fn zigzag_codes_are_onto() {
    for u in 0u16..=1000 {
        assert_eq!(zig_zag_encode_u16(zig_zag_decode_i16(u)), u);
    }
    assert_eq!(zig_zag_encode_u16(zig_zag_decode_i16(u16::MAX)), u16::MAX);
}
