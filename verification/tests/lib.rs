use bitsparrow::{Decoder, Encoder};

#[test]
fn size_check_len_1() {
    assert_eq!(Encoder::encode(0x7Fusize).len(), 1);
}

#[test]
fn size_check_len_2() {
    assert_eq!(Encoder::encode(0x3FFFusize).len(), 2);
}

#[test]
fn size_check_len_3() {
    assert_eq!(Encoder::encode(0x1FFFFFusize).len(), 3);
}

#[test]
fn size_check_len_4() {
    assert_eq!(Encoder::encode(0x0FFFFFFFusize).len(), 4);
}

#[test]
fn size_check_len_5() {
    assert_eq!(Encoder::encode(0x07FFFFFFFFusize).len(), 5);
}

#[test]
fn size_check_len_6() {
    assert_eq!(Encoder::encode(0x03FFFFFFFFFFusize).len(), 6);
}

#[test]
fn size_check_len_7() {
    assert_eq!(Encoder::encode(0x01FFFFFFFFFFFFusize).len(), 7);
}

#[test]
fn size_check_len_8() {
    assert_eq!(Encoder::encode(0x00FFFFFFFFFFFFFFusize).len(), 8);
}

#[test]
fn size_check_len_9() {
    assert_eq!(Encoder::encode(0xFFFFFFFFFFFFFFFFusize).len(), 9);
}

#[test]
fn stacking_bools() {
    let mut encoder = Encoder::new();
    encoder.bool(true);
    encoder.bool(false);
    encoder.bool(true);
    encoder.bool(false);
    encoder.bool(false);
    encoder.bool(false);
    encoder.bool(true);
    encoder.bool(true);
    encoder.bool(false);
    encoder.uint8(10);
    encoder.bool(true);
    let buffer = encoder.end();

    assert_eq!(buffer.len(), 4);

    let mut decoder = Decoder::new(&buffer);
    assert_eq!(decoder.bool().unwrap(), true);
    assert_eq!(decoder.bool().unwrap(), false);
    assert_eq!(decoder.bool().unwrap(), true);
    assert_eq!(decoder.bool().unwrap(), false);
    assert_eq!(decoder.bool().unwrap(), false);
    assert_eq!(decoder.bool().unwrap(), false);
    assert_eq!(decoder.bool().unwrap(), true);
    assert_eq!(decoder.bool().unwrap(), true);
    assert_eq!(decoder.bool().unwrap(), false);
    assert_eq!(decoder.uint8().unwrap(), 10);
    assert_eq!(decoder.bool().unwrap(), true);
    assert_eq!(decoder.end(), true);
}

#[test]
fn bool_true() {
    let mut e = Encoder::new();
    e.bool(true);
    let buffer = e.end();
    let mut decoder = Decoder::new(&buffer);
    assert_eq!(decoder.bool().unwrap(), true);
    assert!(decoder.end());
}

#[test]
fn bool_false() {
    let mut e = Encoder::new();
    e.bool(false);
    let buffer = e.end();
    let mut decoder = Decoder::new(&buffer);
    assert_eq!(decoder.bool().unwrap(), false);
    assert!(decoder.end());
}

#[test]
fn size_zero() {
    let mut e = Encoder::new();
    e.size(0usize);
    let buffer = e.end();
    let mut decoder = Decoder::new(&buffer);
    assert_eq!(decoder.size().unwrap(), 0usize);
    assert!(decoder.end());
}

#[test]
fn size_1() {
    let mut e = Encoder::new();
    e.size(0x7Fusize);
    let buffer = e.end();
    let mut decoder = Decoder::new(&buffer);
    assert_eq!(decoder.size().unwrap(), 0x7Fusize);
    assert!(decoder.end());
}

#[test]
fn size_2() {
    let mut e = Encoder::new();
    e.size(0x3FFFusize);
    let buffer = e.end();
    let mut decoder = Decoder::new(&buffer);
    assert_eq!(decoder.size().unwrap(), 0x3FFFusize);
    assert!(decoder.end());
}

#[test]
fn size_3() {
    let mut e = Encoder::new();
    e.size(0x1FFFFFusize);
    let buffer = e.end();
    let mut decoder = Decoder::new(&buffer);
    assert_eq!(decoder.size().unwrap(), 0x1FFFFFusize);
    assert!(decoder.end());
}

#[test]
fn size_4() {
    let mut e = Encoder::new();
    e.size(0x0FFFFFFFusize);
    let buffer = e.end();
    let mut decoder = Decoder::new(&buffer);
    assert_eq!(decoder.size().unwrap(), 0x0FFFFFFFusize);
    assert!(decoder.end());
}

#[test]
fn size_5() {
    let mut e = Encoder::new();
    e.size(0x07FFFFFFFFusize);
    let buffer = e.end();
    let mut decoder = Decoder::new(&buffer);
    assert_eq!(decoder.size().unwrap(), 0x07FFFFFFFFusize);
    assert!(decoder.end());
}

#[test]
fn size_6() {
    let mut e = Encoder::new();
    e.size(0x03FFFFFFFFFFusize);
    let buffer = e.end();
    let mut decoder = Decoder::new(&buffer);
    assert_eq!(decoder.size().unwrap(), 0x03FFFFFFFFFFusize);
    assert!(decoder.end());
}

#[test]
fn size_7() {
    let mut e = Encoder::new();
    e.size(0x01FFFFFFFFFFFFusize);
    let buffer = e.end();
    let mut decoder = Decoder::new(&buffer);
    assert_eq!(decoder.size().unwrap(), 0x01FFFFFFFFFFFFusize);
    assert!(decoder.end());
}

#[test]
fn size_8() {
    let mut e = Encoder::new();
    e.size(0x00FFFFFFFFFFFFFFusize);
    let buffer = e.end();
    let mut decoder = Decoder::new(&buffer);
    assert_eq!(decoder.size().unwrap(), 0x00FFFFFFFFFFFFFFusize);
    assert!(decoder.end());
}

#[test]
fn size_9() {
    let mut e = Encoder::new();
    e.size(0xFFFFFFFFFFFFFFFFusize);
    let buffer = e.end();
    let mut decoder = Decoder::new(&buffer);
    assert_eq!(decoder.size().unwrap(), 0xFFFFFFFFFFFFFFFFusize);
    assert!(decoder.end());
}

#[test]
fn size_max() {
    let mut e = Encoder::new();
    e.size(usize::MAX);
    let buffer = e.end();
    let mut decoder = Decoder::new(&buffer);
    assert_eq!(decoder.size().unwrap(), usize::MAX);
    assert!(decoder.end());
}

#[test]
fn uint8_zero() {
    let mut e = Encoder::new();
    e.uint8(0u8);
    let buffer = e.end();
    let mut decoder = Decoder::new(&buffer);
    assert_eq!(decoder.uint8().unwrap(), 0u8);
    assert!(decoder.end());
}

#[test]
fn uint8_max() {
    let mut e = Encoder::new();
    e.uint8(u8::MAX);
    let buffer = e.end();
    let mut decoder = Decoder::new(&buffer);
    assert_eq!(decoder.uint8().unwrap(), u8::MAX);
    assert!(decoder.end());
}

#[test]
fn uint16_zero() {
    let mut e = Encoder::new();
    e.uint16(0u16);
    let buffer = e.end();
    let mut decoder = Decoder::new(&buffer);
    assert_eq!(decoder.uint16().unwrap(), 0u16);
    assert!(decoder.end());
}

#[test]
fn uint16_max() {
    let mut e = Encoder::new();
    e.uint16(u16::MAX);
    let buffer = e.end();
    let mut decoder = Decoder::new(&buffer);
    assert_eq!(decoder.uint16().unwrap(), u16::MAX);
    assert!(decoder.end());
}

#[test]
fn uint32_zero() {
    let mut e = Encoder::new();
    e.uint32(0u32);
    let buffer = e.end();
    let mut decoder = Decoder::new(&buffer);
    assert_eq!(decoder.uint32().unwrap(), 0u32);
    assert!(decoder.end());
}

#[test]
fn uint32_max() {
    let mut e = Encoder::new();
    e.uint32(u32::MAX);
    let buffer = e.end();
    let mut decoder = Decoder::new(&buffer);
    assert_eq!(decoder.uint32().unwrap(), u32::MAX);
    assert!(decoder.end());
}

#[test]
fn uint64_zero() {
    let mut e = Encoder::new();
    e.uint64(0u64);
    let buffer = e.end();
    let mut decoder = Decoder::new(&buffer);
    assert_eq!(decoder.uint64().unwrap(), 0u64);
    assert!(decoder.end());
}

#[test]
fn uint64_max() {
    let mut e = Encoder::new();
    e.uint64(u64::MAX);
    let buffer = e.end();
    let mut decoder = Decoder::new(&buffer);
    assert_eq!(decoder.uint64().unwrap(), u64::MAX);
    assert!(decoder.end());
}

#[test]
fn int8_zero() {
    let mut e = Encoder::new();
    e.int8(0i8);
    let buffer = e.end();
    let mut decoder = Decoder::new(&buffer);
    assert_eq!(decoder.int8().unwrap(), 0i8);
    assert!(decoder.end());
}

#[test]
fn int8_max() {
    let mut e = Encoder::new();
    e.int8(i8::MAX);
    let buffer = e.end();
    let mut decoder = Decoder::new(&buffer);
    assert_eq!(decoder.int8().unwrap(), i8::MAX);
    assert!(decoder.end());
}

#[test]
fn int8_min() {
    let mut e = Encoder::new();
    e.int8(i8::MIN);
    let buffer = e.end();
    let mut decoder = Decoder::new(&buffer);
    assert_eq!(decoder.int8().unwrap(), i8::MIN);
    assert!(decoder.end());
}

#[test]
fn int16_zero() {
    let mut e = Encoder::new();
    e.int16(0i16);
    let buffer = e.end();
    let mut decoder = Decoder::new(&buffer);
    assert_eq!(decoder.int16().unwrap(), 0i16);
    assert!(decoder.end());
}

#[test]
fn int16_max() {
    let mut e = Encoder::new();
    e.int16(i16::MAX);
    let buffer = e.end();
    let mut decoder = Decoder::new(&buffer);
    assert_eq!(decoder.int16().unwrap(), i16::MAX);
    assert!(decoder.end());
}

#[test]
fn int16_min() {
    let mut e = Encoder::new();
    e.int16(i16::MIN);
    let buffer = e.end();
    let mut decoder = Decoder::new(&buffer);
    assert_eq!(decoder.int16().unwrap(), i16::MIN);
    assert!(decoder.end());
}

#[test]
fn int32_zero() {
    let mut e = Encoder::new();
    e.int32(0i32);
    let buffer = e.end();
    let mut decoder = Decoder::new(&buffer);
    assert_eq!(decoder.int32().unwrap(), 0i32);
    assert!(decoder.end());
}

#[test]
fn int32_max() {
    let mut e = Encoder::new();
    e.int32(i32::MAX);
    let buffer = e.end();
    let mut decoder = Decoder::new(&buffer);
    assert_eq!(decoder.int32().unwrap(), i32::MAX);
    assert!(decoder.end());
}

#[test]
fn int32_min() {
    let mut e = Encoder::new();
    e.int32(i32::MIN);
    let buffer = e.end();
    let mut decoder = Decoder::new(&buffer);
    assert_eq!(decoder.int32().unwrap(), i32::MIN);
    assert!(decoder.end());
}

#[test]
fn int64_zero() {
    let mut e = Encoder::new();
    e.int64(0i64);
    let buffer = e.end();
    let mut decoder = Decoder::new(&buffer);
    assert_eq!(decoder.int64().unwrap(), 0i64);
    assert!(decoder.end());
}

#[test]
fn int64_max() {
    let mut e = Encoder::new();
    e.int64(i64::MAX);
    let buffer = e.end();
    let mut decoder = Decoder::new(&buffer);
    assert_eq!(decoder.int64().unwrap(), i64::MAX);
    assert!(decoder.end());
}

#[test]
fn int64_min() {
    let mut e = Encoder::new();
    e.int64(i64::MIN);
    let buffer = e.end();
    let mut decoder = Decoder::new(&buffer);
    assert_eq!(decoder.int64().unwrap(), i64::MIN);
    assert!(decoder.end());
}

#[test]
fn string() {
    let mut e = Encoder::new();
    e.string("Foobar 🐦");
    let buffer = e.end();
    let mut decoder = Decoder::new(&buffer);
    assert_eq!(decoder.string().unwrap(), "Foobar 🐦");
    assert!(decoder.end());
}

#[test]
fn bytes() {
    let payload: &[u8] = &[
        0, 10, 20, 30, 40, 50, 60, 70, 80, 90, 100, 110, 120, 130, 140, 150, 160, 170, 180, 190,
        200, 210, 220, 230, 240, 250, 255,
    ];
    let mut e = Encoder::new();
    e.bytes(payload);
    let buffer = e.end();
    let mut decoder = Decoder::new(&buffer);
    assert_eq!(decoder.bytes().unwrap(), payload);
    assert!(decoder.end());
}
