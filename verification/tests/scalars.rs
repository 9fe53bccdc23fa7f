use cbor_codec::de::Decoder;
use cbor_codec::error::{DecodeError, EncodeError, Error};
use cbor_codec::ser::Encoder;
use cbor_codec::value::Value;

fn encode_u64(v: u64) -> Vec<u8> {
    let mut e = Encoder::new();
    e.serialize_u64(v);
    e.into_bytes()
}

fn encode_i64(v: i64) -> Vec<u8> {
    let mut e = Encoder::new();
    e.serialize_i64(v);
    e.into_bytes()
}

#[test]
fn round_trip_bools() {
    for v in [false, true] {
        let mut e = Encoder::new();
        e.serialize_bool(v);
        let bytes = e.into_bytes();
        assert_eq!(bytes, vec![if v { 0xF5 } else { 0xF4 }]);
        let mut d = Decoder::new(bytes);
        assert_eq!(d.deserialize_bool(), Ok(v));
        assert_eq!(d.remaining_len(), 0);
    }
}

#[test]
fn round_trip_unsigned_boundaries() {
    let cases: [u64; 12] = [
        0,
        1,
        23,
        24,
        255,
        256,
        65535,
        65536,
        4294967295,
        4294967296,
        9223372036854775807,
        18446744073709551615,
    ];
    for v in cases {
        let mut d = Decoder::new(encode_u64(v));
        assert_eq!(d.deserialize_u64(), Ok(v));
        assert_eq!(d.remaining_len(), 0);
    }
}

#[test]
fn round_trip_signed_boundaries() {
    let cases: [i64; 13] = [
        -1,
        0,
        23,
        24,
        255,
        256,
        65535,
        65536,
        -24,
        -25,
        -256,
        9223372036854775807,
        -9223372036854775808,
    ];
    for v in cases {
        let mut d = Decoder::new(encode_i64(v));
        assert_eq!(d.deserialize_i64(), Ok(v));
        assert_eq!(d.remaining_len(), 0);
    }
}

#[test]
fn round_trip_narrow_widths() {
    for v in [0u8, 23, 24, 255] {
        let mut e = Encoder::new();
        e.serialize_u8(v);
        let mut d = Decoder::new(e.into_bytes());
        assert_eq!(d.deserialize_u8(), Ok(v));
    }
    for v in [-128i8, -1, 0, 127] {
        let mut e = Encoder::new();
        e.serialize_i8(v);
        let mut d = Decoder::new(e.into_bytes());
        assert_eq!(d.deserialize_i8(), Ok(v));
    }
    for v in [-32768i16, -129, 128, 32767] {
        let mut e = Encoder::new();
        e.serialize_i16(v);
        let mut d = Decoder::new(e.into_bytes());
        assert_eq!(d.deserialize_i16(), Ok(v));
    }
    for v in [-2147483648i32, -32769, 32768, 2147483647] {
        let mut e = Encoder::new();
        e.serialize_i32(v);
        let mut d = Decoder::new(e.into_bytes());
        assert_eq!(d.deserialize_i32(), Ok(v));
    }
    for v in [256u16, 65535] {
        let mut e = Encoder::new();
        e.serialize_u16(v);
        let mut d = Decoder::new(e.into_bytes());
        assert_eq!(d.deserialize_u16(), Ok(v));
    }
    for v in [65536u32, 4294967295] {
        let mut e = Encoder::new();
        e.serialize_u32(v);
        let mut d = Decoder::new(e.into_bytes());
        assert_eq!(d.deserialize_u32(), Ok(v));
    }
}

#[test]
fn minimal_encoding_lengths() {
    assert_eq!(encode_u64(0), vec![0x00]);
    assert_eq!(encode_u64(23), vec![0x17]);
    assert_eq!(encode_u64(24), vec![0x18, 24]);
    assert_eq!(encode_u64(255), vec![0x18, 0xFF]);
    assert_eq!(encode_u64(256), vec![0x19, 0x01, 0x00]);
    assert_eq!(encode_u64(65535), vec![0x19, 0xFF, 0xFF]);
    assert_eq!(encode_u64(65536), vec![0x1A, 0x00, 0x01, 0x00, 0x00]);
    assert_eq!(
        encode_u64(4294967295),
        vec![0x1A, 0xFF, 0xFF, 0xFF, 0xFF]
    );
    assert_eq!(
        encode_u64(4294967296),
        vec![0x1B, 0x00, 0x00, 0x00, 0x01, 0x00, 0x00, 0x00, 0x00]
    );
}

#[test]
fn negative_magnitudes() {
    // -1 has magnitude 0, -24 magnitude 23 (still direct), -25 magnitude 24
    assert_eq!(encode_i64(-1), vec![0x20]);
    assert_eq!(encode_i64(-24), vec![0x37]);
    assert_eq!(encode_i64(-25), vec![0x38, 24]);
    assert_eq!(encode_i64(-256), vec![0x38, 0xFF]);
    assert_eq!(encode_i64(-257), vec![0x39, 0x01, 0x00]);
}

#[test]
fn width_rejection() {
    // magnitude 128 into an 8-bit signed target: overflow
    let mut d = Decoder::new(vec![0x18, 0x80]);
    assert_eq!(d.deserialize_i8(), Err(DecodeError::IntegerOverflow));
    // magnitude 255 into an 8-bit unsigned target: fine
    let mut d = Decoder::new(vec![0x18, 0xFF]);
    assert_eq!(d.deserialize_u8(), Ok(255));
    // magnitude 256 into an 8-bit unsigned target: overflow
    let mut d = Decoder::new(vec![0x19, 0x01, 0x00]);
    assert_eq!(d.deserialize_u8(), Err(DecodeError::IntegerOverflow));
    // negative magnitude 128 (value -129) into an 8-bit signed target
    let mut d = Decoder::new(vec![0x38, 0x80]);
    assert_eq!(d.deserialize_i8(), Err(DecodeError::IntegerUnderflow));
    // value -129 does fit a 16-bit signed target
    let mut d = Decoder::new(vec![0x38, 0x80]);
    assert_eq!(d.deserialize_i16(), Ok(-129));
}

#[test]
fn signed_bounds_helper() {
    assert_eq!(
        Decoder::decode_signed_integer_with_bounds(5, 127),
        Ok(-6)
    );
    assert_eq!(
        Decoder::decode_signed_integer_with_bounds(127, 127),
        Ok(-128)
    );
    assert_eq!(
        Decoder::decode_signed_integer_with_bounds(128, 127),
        Err(DecodeError::IntegerUnderflow)
    );
}

#[test]
fn reads_are_big_endian() {
    let mut d = Decoder::new(vec![0x12, 0x34, 0x56, 0x78, 0x9A, 0xBC, 0xDE, 0xF0]);
    assert_eq!(d.read_u16(), Ok(0x1234));
    let mut d = Decoder::new(vec![0x12, 0x34, 0x56, 0x78, 0x9A, 0xBC, 0xDE, 0xF0]);
    assert_eq!(d.read_u32(), Ok(0x12345678));
    let mut d = Decoder::new(vec![0x12, 0x34, 0x56, 0x78, 0x9A, 0xBC, 0xDE, 0xF0]);
    assert_eq!(d.read_u64(), Ok(0x123456789ABCDEF0));
    let mut d = Decoder::new(vec![0x12]);
    assert_eq!(d.read_u8(), Ok(0x12));
    assert_eq!(d.read_u8(), Err(DecodeError::Io));
}

#[test]
fn malformed_additional_info() {
    for b in [0x1Cu8, 0x1D, 0x1E] {
        let mut d = Decoder::new(vec![b]);
        assert_eq!(d.deserialize_u8(), Err(DecodeError::MalformedHeader));
        let mut d = Decoder::new(vec![b]);
        assert_eq!(d.decode_value(), Err(DecodeError::MalformedHeader));
    }
}

#[test]
fn unexpected_major_types() {
    // an unsigned integer where a boolean is expected
    let mut d = Decoder::new(vec![0x01]);
    assert_eq!(d.deserialize_bool(), Err(DecodeError::UnexpectedMajorType));
    // a negative integer where an unsigned target is expected
    let mut d = Decoder::new(vec![0x20]);
    assert_eq!(d.deserialize_u8(), Err(DecodeError::UnexpectedMajorType));
    // a tag is outside the supported subset
    let mut d = Decoder::new(vec![0xC1, 0x00]);
    assert_eq!(d.decode_value(), Err(DecodeError::UnexpectedMajorType));
    // the simple value 23 is outside the supported subset
    let mut d = Decoder::new(vec![0xF7]);
    assert_eq!(d.decode_value(), Err(DecodeError::UnexpectedMajorType));
    // null where a boolean is expected
    let mut d = Decoder::new(vec![0xF6]);
    assert_eq!(d.deserialize_bool(), Err(DecodeError::UnexpectedMajorType));
}

#[test]
fn truncated_inputs_fail_with_io() {
    // empty input
    let mut d = Decoder::new(vec![]);
    assert_eq!(d.deserialize_u8(), Err(DecodeError::Io));
    // header announces one extension byte that never comes
    let mut d = Decoder::new(vec![0x18]);
    assert_eq!(d.deserialize_u8(), Err(DecodeError::Io));
    // header announces eight extension bytes, only three arrive
    let mut d = Decoder::new(vec![0x1B, 1, 2, 3]);
    assert_eq!(d.deserialize_u64(), Err(DecodeError::Io));
}

#[test]
fn null_round_trip() {
    let mut e = Encoder::new();
    e.serialize_unit();
    let bytes = e.into_bytes();
    assert_eq!(bytes, vec![0xF6]);
    let mut d = Decoder::new(bytes);
    assert_eq!(d.deserialize_unit(), Ok(()));
    // none and unit struct encode identically
    let mut e = Encoder::new();
    e.serialize_none();
    assert_eq!(e.as_bytes(), &[0xF6]);
    let mut e = Encoder::new();
    e.serialize_unit_struct();
    assert_eq!(e.as_bytes(), &[0xF6]);
}

#[test]
fn decoder_leaves_unconsumed_bytes() {
    let mut d = Decoder::new(vec![0x18, 0x05, 0xAA]);
    assert_eq!(d.deserialize_u8(), Ok(5));
    assert_eq!(d.remaining_len(), 1);
    // a failed decode leaves the cursor where it was
    let mut d = Decoder::new(vec![0x20, 0xAA]);
    assert_eq!(d.deserialize_u8(), Err(DecodeError::UnexpectedMajorType));
    assert_eq!(d.remaining_len(), 2);
}

#[test]
fn flush_is_always_clean() {
    let mut e = Encoder::new();
    e.serialize_u8(7);
    assert_eq!(e.flush(), Ok(()));
    assert_eq!(e.into_bytes(), vec![0x07]);
}

#[test]
fn error_conversions() {
    assert_eq!(
        Error::from(DecodeError::Io),
        Error::Decode(DecodeError::Io)
    );
    assert_eq!(
        Error::from(EncodeError::LengthOutOfBounds),
        Error::Encode(EncodeError::LengthOutOfBounds)
    );
}

#[test]
fn scalar_values_through_dispatcher() {
    let mut d = Decoder::new(vec![0x17]);
    assert_eq!(d.decode_value(), Ok(Value::Unsigned(23)));
    let mut d = Decoder::new(vec![0x38, 0x63]);
    assert_eq!(d.decode_value(), Ok(Value::Negative(99)));
    let mut d = Decoder::new(vec![0xF5]);
    assert_eq!(d.decode_value(), Ok(Value::Bool(true)));
    let mut d = Decoder::new(vec![0xF6]);
    assert_eq!(d.decode_value(), Ok(Value::Null));
}
