//! Wire-format and failure-path checks: exact byte patterns, the
//! documented hazards of an untagged format, and each error condition.

use bitsparrow::{Decoder, Encoder, Error};

#[test]
fn doc_example() {
    let mut e = Encoder::new();
    e.uint8(100);
    e.string("Foo");
    let buffer = e.end();

    assert_eq!(buffer, &[0x64, 0x03, 0x46, 0x6F, 0x6F]);

    let mut decoder = Decoder::new(&buffer);
    assert_eq!(100u8, decoder.uint8().unwrap());
    assert_eq!("Foo", decoder.string().unwrap());
    assert_eq!(true, decoder.end());
}

#[test]
fn bool_packing_byte_pattern() {
    let mut e = Encoder::new();
    e.bool(true);
    e.bool(false);
    e.bool(false);
    e.bool(false);
    e.bool(false);
    e.bool(true);
    e.bool(true);
    e.bool(true);
    let buffer = e.end();

    // Eight consecutive booleans share one byte, bit 0 first.
    assert_eq!(buffer, &[0b1110_0001]);

    let mut d = Decoder::new(&buffer);
    for expected in [true, false, false, false, false, true, true, true] {
        assert_eq!(d.bool().unwrap(), expected);
    }
    assert!(d.end());
}

#[test]
fn bool_run_broken_by_write() {
    let mut e = Encoder::new();
    e.bool(true);
    e.uint8(0xAB);
    e.bool(true);
    let buffer = e.end();

    // The intervening write forces the second boolean onto a new byte.
    assert_eq!(buffer, &[0x01, 0xAB, 0x01]);
}

#[test]
fn size_wire_patterns() {
    let mut e = Encoder::new();
    e.size(0x7F);
    let buffer = e.end();
    assert_eq!(buffer, &[0x7F]);

    let mut e = Encoder::new();
    e.size(0x80);
    let buffer = e.end();
    assert_eq!(buffer, &[0x80, 0x80]);

    let mut e = Encoder::new();
    e.size(0x3FFF);
    let buffer = e.end();
    assert_eq!(buffer, &[0xBF, 0xFF]);

    let mut e = Encoder::new();
    e.size(0x4000);
    let buffer = e.end();
    assert_eq!(buffer, &[0xC0, 0x40, 0x00]);

    let mut e = Encoder::new();
    e.size(usize::MAX);
    let buffer = e.end();
    assert_eq!(buffer, &[0xFF, 0xFF, 0xFF, 0xFF, 0xFF, 0xFF, 0xFF, 0xFF, 0xFF]);
}

#[test]
fn blob_framing_cost() {
    // A blob of length L costs exactly sizeCodecLength(L) + L bytes,
    // whatever the bytes hold.
    let zeros = vec![0u8; 200];
    let mut e = Encoder::new();
    e.bytes(&zeros);
    let framed_zeros = e.end();

    let ones = vec![0xFFu8; 200];
    let mut e = Encoder::new();
    e.bytes(&ones);
    let framed_ones = e.end();

    assert_eq!(framed_zeros.len(), 2 + 200);
    assert_eq!(framed_ones.len(), framed_zeros.len());
}

#[test]
fn concrete_scenario() {
    let mut e = Encoder::new();
    e.uint8(200);
    e.uint16(9001);
    e.string("ab");
    let buffer = e.end();

    let mut d = Decoder::new(&buffer);
    assert_eq!(d.uint8().unwrap(), 200);
    assert_eq!(d.uint16().unwrap(), 9001);
    assert_eq!(d.string().unwrap(), "ab");
    assert!(d.end());

    // Reading in the wrong order must not panic: the format carries no
    // type tags, so a uint32 read simply reinterprets the first four
    // bytes.
    let mut wrong = Decoder::new(&buffer);
    assert_eq!(wrong.uint32().unwrap(), 0xC823_2902);
}

#[test]
fn malformed_utf8() {
    let mut e = Encoder::new();
    e.bytes(&[0xFF, 0xFE]);
    let buffer = e.end();

    let mut d = Decoder::new(&buffer);
    assert_eq!(d.string().unwrap_err(), Error::Utf8Encoding);
}

#[test]
fn truncated_fixed_width() {
    let mut d = Decoder::new(&[1, 2]);
    assert_eq!(d.uint32().unwrap_err(), Error::ReadingOutOfBounds);

    let mut d = Decoder::new(&[]);
    assert_eq!(d.uint8().unwrap_err(), Error::ReadingOutOfBounds);

    let mut d = Decoder::new(&[1, 2, 3, 4, 5, 6, 7]);
    assert_eq!(d.int64().unwrap_err(), Error::ReadingOutOfBounds);
}

#[test]
fn truncated_size_framed() {
    // The blob announces five bytes but only two follow.
    let mut d = Decoder::new(&[5, 1, 2]);
    assert_eq!(d.bytes().unwrap_err(), Error::ReadingOutOfBounds);

    // The size prefix announces an extension byte that is missing.
    let mut d = Decoder::new(&[0xC0]);
    assert_eq!(d.size().unwrap_err(), Error::ReadingOutOfBounds);

    let mut d = Decoder::new(&[]);
    assert_eq!(d.size().unwrap_err(), Error::ReadingOutOfBounds);
}

#[test]
fn whole_buffer_decode() {
    let mut e = Encoder::new();
    e.uint16(9001);
    let buffer = e.end();

    let value: u16 = Decoder::decode(&buffer).unwrap();
    assert_eq!(value, 9001);

    // Trailing bytes fail the whole-buffer entry point.
    let mut e = Encoder::new();
    e.uint16(9001);
    e.uint8(1);
    let buffer = e.end();
    let result: Result<u16, Error> = Decoder::decode(&buffer);
    assert_eq!(result.unwrap_err(), Error::BufferNotEmpty);
}

#[test]
fn encode_tuple_mixed() {
    let buffer = Encoder::encode(("foo", 9001u16, true));

    let mut decoder = Decoder::new(&buffer);
    assert_eq!(decoder.string().unwrap(), "foo");
    assert_eq!(decoder.uint16().unwrap(), 9001);
    assert_eq!(decoder.bool().unwrap(), true);
    assert_eq!(decoder.end(), true);
}

#[test]
fn decode_tuple_mixed() {
    let mut e = Encoder::new();
    e.string("foo");
    e.uint16(9001);
    e.bool(true);
    let buffer = e.end();

    let tuple: (String, u16, bool) = Decoder::decode(&buffer).unwrap();
    assert_eq!(tuple, ("foo".into(), 9001, true));
}

#[test]
fn encode_sequence() {
    let buffer = Encoder::encode(vec![300u16, 200u16, 100u16]);

    let mut decoder = Decoder::new(&buffer);
    assert_eq!(decoder.size().unwrap(), 3);
    assert_eq!(decoder.uint16().unwrap(), 300);
    assert_eq!(decoder.uint16().unwrap(), 200);
    assert_eq!(decoder.uint16().unwrap(), 100);
    assert_eq!(decoder.end(), true);
}

#[test]
fn decode_sequence() {
    let mut e = Encoder::new();
    e.size(3);
    e.uint16(300);
    e.uint16(200);
    e.uint16(100);
    let buffer = e.end();

    let values: Vec<u16> = Decoder::decode(&buffer).unwrap();
    assert_eq!(values, vec![300, 200, 100]);
}

#[test]
fn read_and_write_generic() {
    let mut e = Encoder::new();
    e.write(42u32);
    e.write("ab");
    e.write(vec![1u16, 2u16]);
    let buffer = e.end();

    let mut d = Decoder::new(&buffer);
    let n: u32 = d.read().unwrap();
    let s: String = d.read().unwrap();
    let v: Vec<u16> = d.read().unwrap();
    assert_eq!(n, 42);
    assert_eq!(s, "ab");
    assert_eq!(v, vec![1, 2]);
    assert!(d.end());
}

#[test]
fn owned_blob_decode() {
    let mut e = Encoder::new();
    e.bytes(&[7, 8, 9]);
    let buffer = e.end();

    let blob: Vec<u8> = Decoder::decode(&buffer).unwrap();
    assert_eq!(blob, vec![7, 8, 9]);
}

#[test]
fn borrowed_blob_decode() {
    let mut e = Encoder::new();
    e.bytes(&[7, 8, 9]);
    e.string("tail");
    let buffer = e.end();

    let mut d = Decoder::new(&buffer);
    let blob: &[u8] = d.read().unwrap();
    assert_eq!(blob, &[7, 8, 9]);
    let tail: &str = d.read().unwrap();
    assert_eq!(tail, "tail");
    assert!(d.end());
}

#[test]
fn encoder_reuse_after_end() {
    let mut e = Encoder::new();
    e.bool(true);
    let first = e.end();
    assert_eq!(first, &[0x01]);

    // After `end` the boolean run starts fresh: the next boolean opens
    // a new byte in a new buffer.
    e.bool(true);
    e.bool(true);
    let second = e.end();
    assert_eq!(second, &[0x03]);
}

#[test]
fn sequence_element_failure() {
    // Three elements announced, but the bytes run out inside the third.
    let mut e = Encoder::new();
    e.size(3);
    e.uint16(1);
    e.uint16(2);
    e.uint8(9);
    let buffer = e.end();

    let result: Result<Vec<u16>, Error> = Decoder::decode(&buffer);
    assert_eq!(result.unwrap_err(), Error::ReadingOutOfBounds);
}

#[test]
fn encode_by_reference() {
    let value: u32 = 77;
    let buffer = Encoder::encode(&value);
    assert_eq!(buffer, &[0, 0, 0, 77]);
}

#[test]
fn encode_fixed_arrays() {
    // A byte array is framed like a blob.
    let buffer = Encoder::encode([1u8, 2, 3]);
    assert_eq!(buffer, &[3, 1, 2, 3]);

    // A fixed array of any encodable type is framed like a sequence.
    let buffer = Encoder::encode([300u16, 400u16]);
    assert_eq!(buffer, &[2, 0x01, 0x2C, 0x01, 0x90]);
}
