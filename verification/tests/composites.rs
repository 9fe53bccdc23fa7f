use cbor_codec::de::Decoder;
use cbor_codec::error::DecodeError;
use cbor_codec::ser::Encoder;
use cbor_codec::value::Value;

fn round_trip(v: Value) -> Value {
    let mut e = Encoder::new();
    e.serialize_value(&v);
    let mut d = Decoder::new(e.into_bytes());
    let back = d.decode_value().expect("decode failed");
    assert_eq!(d.remaining_len(), 0);
    back
}

#[test]
fn string_fidelity() {
    // 0, 23, 24 and 300 byte strings use 1-, 1-, 2- and 3-byte headers
    let s0 = String::new();
    let s23: String = "abcdefghijklmnopqrstuvw".to_string();
    let s24: String = "abcdefghijklmnopqrstuvwx".to_string();
    let s300: String = "x".repeat(300);
    assert_eq!(s23.len(), 23);
    assert_eq!(s24.len(), 24);
    for (s, header_len) in [(s0, 1), (s23, 1), (s24, 2), (s300, 3)] {
        let mut e = Encoder::new();
        e.serialize_str(s.as_str());
        let bytes = e.into_bytes();
        assert_eq!(bytes.len(), header_len + s.len());
        let mut d = Decoder::new(bytes);
        assert_eq!(d.decode_value(), Ok(Value::Text(s)));
    }
}

#[test]
fn string_header_bytes_exact() {
    let mut e = Encoder::new();
    e.serialize_str("abc");
    assert_eq!(e.as_bytes(), &[0x63, b'a', b'b', b'c']);
    let mut e = Encoder::new();
    e.serialize_bytes(&[1, 2, 3]);
    assert_eq!(e.as_bytes(), &[0x43, 1, 2, 3]);
}

#[test]
fn char_encodings() {
    for (c, expect) in [
        ('A', vec![0x61, 0x41]),
        ('\u{e9}', vec![0x62, 0xC3, 0xA9]),
        ('\u{20ac}', vec![0x63, 0xE2, 0x82, 0xAC]),
        ('\u{1d11e}', vec![0x64, 0xF0, 0x9D, 0x84, 0x9E]),
    ] {
        let mut e = Encoder::new();
        e.serialize_char(c);
        let bytes = e.into_bytes();
        assert_eq!(bytes, expect);
        let mut d = Decoder::new(bytes);
        assert_eq!(d.decode_value(), Ok(Value::Text(c.to_string())));
    }
}

#[test]
fn bytes_round_trip() {
    for len in [0usize, 23, 24, 300] {
        let payload: Vec<u8> = (0..len).map(|i| (i % 251) as u8).collect();
        let back = round_trip(Value::Bytes(payload.clone()));
        assert_eq!(back, Value::Bytes(payload));
    }
}

#[test]
fn nested_value_round_trip() {
    let v = Value::Array(vec![
        Value::Unsigned(1),
        Value::Negative(41),
        Value::Text("hello".to_string()),
        Value::Bytes(vec![0xDE, 0xAD]),
        Value::Bool(false),
        Value::Null,
        Value::Mapping(vec![
            (Value::Text("k".to_string()), Value::Unsigned(7)),
            (Value::Unsigned(2), Value::Array(vec![Value::Bool(true)])),
        ]),
    ]);
    let back = round_trip(v);
    // compare against a freshly built copy
    let expect = Value::Array(vec![
        Value::Unsigned(1),
        Value::Negative(41),
        Value::Text("hello".to_string()),
        Value::Bytes(vec![0xDE, 0xAD]),
        Value::Bool(false),
        Value::Null,
        Value::Mapping(vec![
            (Value::Text("k".to_string()), Value::Unsigned(7)),
            (Value::Unsigned(2), Value::Array(vec![Value::Bool(true)])),
        ]),
    ]);
    assert_eq!(back, expect);
}

#[test]
fn indefinite_array_equals_definite() {
    // three elements from a streaming producer, length unknown up front
    let enc = Encoder::new();
    let mut seq = enc.serialize_seq(None);
    seq.serialize_element(&Value::Unsigned(1));
    seq.serialize_element(&Value::Unsigned(2));
    seq.serialize_element(&Value::Unsigned(3));
    let indefinite = seq.end().into_bytes();
    assert_eq!(indefinite, vec![0x9F, 0x01, 0x02, 0x03, 0xFF]);

    let enc = Encoder::new();
    let mut seq = enc.serialize_seq(Some(3));
    seq.serialize_element(&Value::Unsigned(1));
    seq.serialize_element(&Value::Unsigned(2));
    seq.serialize_element(&Value::Unsigned(3));
    let definite = seq.end().into_bytes();
    assert_eq!(definite, vec![0x83, 0x01, 0x02, 0x03]);

    let mut d1 = Decoder::new(indefinite);
    let mut d2 = Decoder::new(definite);
    let v1 = d1.decode_value().unwrap();
    let v2 = d2.decode_value().unwrap();
    assert_eq!(v1, v2);
    assert_eq!(
        v1,
        Value::Array(vec![Value::Unsigned(1), Value::Unsigned(2), Value::Unsigned(3)])
    );
}

#[test]
fn indefinite_map_round_trip() {
    let enc = Encoder::new();
    let mut map = enc.serialize_map(None);
    map.serialize_key(&Value::Text("a".to_string()));
    map.serialize_value(&Value::Unsigned(1));
    let bytes = map.end().into_bytes();
    assert_eq!(bytes, vec![0xBF, 0x61, b'a', 0x01, 0xFF]);
    let mut d = Decoder::new(bytes);
    assert_eq!(
        d.decode_value(),
        Ok(Value::Mapping(vec![(
            Value::Text("a".to_string()),
            Value::Unsigned(1)
        )]))
    );
}

#[test]
fn definite_map_counts_pairs_not_items() {
    let enc = Encoder::new();
    let mut map = enc.serialize_map(Some(2));
    map.serialize_key(&Value::Unsigned(1));
    map.serialize_value(&Value::Unsigned(10));
    map.serialize_key(&Value::Unsigned(2));
    map.serialize_value(&Value::Unsigned(20));
    let bytes = map.end().into_bytes();
    // the declared count is 2 pairs, not 4 sub-items
    assert_eq!(bytes[0], 0xA2);
    let mut d = Decoder::new(bytes);
    assert_eq!(
        d.decode_value(),
        Ok(Value::Mapping(vec![
            (Value::Unsigned(1), Value::Unsigned(10)),
            (Value::Unsigned(2), Value::Unsigned(20)),
        ]))
    );
}

#[test]
fn map_with_equal_keys_is_accepted() {
    let mut d = Decoder::new(vec![0xA2, 0x01, 0x02, 0x01, 0x03]);
    assert_eq!(
        d.decode_value(),
        Ok(Value::Mapping(vec![
            (Value::Unsigned(1), Value::Unsigned(2)),
            (Value::Unsigned(1), Value::Unsigned(3)),
        ]))
    );
}

#[test]
fn tuple_encoders() {
    let enc = Encoder::new();
    let mut t = enc.serialize_tuple(2);
    t.serialize_element(&Value::Unsigned(4));
    t.serialize_element(&Value::Unsigned(5));
    assert_eq!(t.end().into_bytes(), vec![0x82, 0x04, 0x05]);

    let enc = Encoder::new();
    let mut t = enc.serialize_tuple_struct(1);
    t.serialize_field(&Value::Bool(true));
    assert_eq!(t.end().into_bytes(), vec![0x81, 0xF5]);
}

#[test]
fn struct_encoder_writes_text_keys() {
    let enc = Encoder::new();
    let mut st = enc.serialize_struct(2);
    st.serialize_field("x", &Value::Unsigned(1));
    st.serialize_field("y", &Value::Unsigned(2));
    let bytes = st.end().into_bytes();
    assert_eq!(bytes, vec![0xA2, 0x61, b'x', 0x01, 0x61, b'y', 0x02]);
    let mut d = Decoder::new(bytes);
    assert_eq!(
        d.decode_value(),
        Ok(Value::Mapping(vec![
            (Value::Text("x".to_string()), Value::Unsigned(1)),
            (Value::Text("y".to_string()), Value::Unsigned(2)),
        ]))
    );
}

#[test]
fn unit_variant_shape() {
    // a unit variant is the two-item array [selector, null]
    let mut e = Encoder::new();
    e.serialize_unit_variant(1);
    let bytes = e.into_bytes();
    assert_eq!(bytes, vec![0x82, 0x01, 0xF6]);
    let mut d = Decoder::new(bytes);
    assert_eq!(
        d.decode_value(),
        Ok(Value::Array(vec![Value::Unsigned(1), Value::Null]))
    );
    // opening it as a variant yields the selector, then the null payload
    let mut e = Encoder::new();
    e.serialize_unit_variant(1);
    let mut d = Decoder::new(e.into_bytes());
    assert_eq!(d.decode_variant_selector(), Ok(Value::Unsigned(1)));
    assert_eq!(d.deserialize_unit(), Ok(()));
    assert_eq!(d.remaining_len(), 0);
}

#[test]
fn newtype_variant_shape() {
    let mut e = Encoder::new();
    e.serialize_newtype_variant(3, &Value::Text("v".to_string()));
    let bytes = e.into_bytes();
    assert_eq!(bytes, vec![0x82, 0x03, 0x61, b'v']);
    let mut d = Decoder::new(bytes);
    assert_eq!(d.decode_variant_selector(), Ok(Value::Unsigned(3)));
    assert_eq!(d.decode_value(), Ok(Value::Text("v".to_string())));
}

#[test]
fn tuple_variant_shape() {
    let enc = Encoder::new();
    let mut tv = enc.serialize_tuple_variant(2, 2);
    tv.serialize_field(&Value::Unsigned(8));
    tv.serialize_field(&Value::Unsigned(9));
    let bytes = tv.end().into_bytes();
    assert_eq!(bytes, vec![0x82, 0x02, 0x82, 0x08, 0x09]);
    let mut d = Decoder::new(bytes);
    assert_eq!(d.decode_variant_selector(), Ok(Value::Unsigned(2)));
    assert_eq!(
        d.decode_value(),
        Ok(Value::Array(vec![Value::Unsigned(8), Value::Unsigned(9)]))
    );
}

#[test]
fn struct_variant_payload_field_count() {
    let enc = Encoder::new();
    let mut sv = enc.serialize_struct_variant(4, 2);
    sv.serialize_field("a", &Value::Unsigned(1));
    sv.serialize_field("b", &Value::Unsigned(2));
    let bytes = sv.end().into_bytes();
    let mut d = Decoder::new(bytes);
    assert_eq!(d.decode_variant_selector(), Ok(Value::Unsigned(4)));
    match d.decode_value() {
        Ok(Value::Mapping(pairs)) => assert_eq!(pairs.len(), 2),
        other => panic!("expected a map payload, got {:?}", other),
    }
}

#[test]
fn variant_selector_by_name_is_accepted() {
    // [ "Red", null ]: a name selector decodes too
    let bytes = vec![0x82, 0x63, b'R', b'e', b'd', 0xF6];
    let mut d = Decoder::new(bytes);
    assert_eq!(
        d.decode_variant_selector(),
        Ok(Value::Text("Red".to_string()))
    );
    assert_eq!(d.deserialize_unit(), Ok(()));
}

#[test]
fn malformed_variants() {
    // an indefinite-length array cannot carry a variant
    let mut d = Decoder::new(vec![0x9F, 0x01, 0xF6, 0xFF]);
    assert_eq!(
        d.decode_variant_selector(),
        Err(DecodeError::MalformedVariant)
    );
    // a three-item array is not a variant
    let mut d = Decoder::new(vec![0x83, 0x01, 0xF6, 0xF6]);
    assert_eq!(
        d.decode_variant_selector(),
        Err(DecodeError::MalformedVariant)
    );
    // a selector must be an ordinal or a name
    let mut d = Decoder::new(vec![0x82, 0xF5, 0xF6]);
    assert_eq!(
        d.decode_variant_selector(),
        Err(DecodeError::MalformedVariant)
    );
}

#[test]
fn invalid_utf8_rejected() {
    // text of length 2 whose payload is not valid UTF-8
    let mut d = Decoder::new(vec![0x62, 0xC3, 0x28]);
    assert_eq!(d.decode_value(), Err(DecodeError::InvalidUtf8));
    // an overlong encoding of '/' is rejected
    let mut d = Decoder::new(vec![0x62, 0xC0, 0xAF]);
    assert_eq!(d.decode_value(), Err(DecodeError::InvalidUtf8));
    // a surrogate codepoint is rejected
    let mut d = Decoder::new(vec![0x63, 0xED, 0xA0, 0x80]);
    assert_eq!(d.decode_value(), Err(DecodeError::InvalidUtf8));
}

#[test]
fn truncated_payload_is_io() {
    // header declares length 10 but only 3 bytes remain
    let mut d = Decoder::new(vec![0x6A, b'a', b'b', b'c']);
    assert_eq!(d.decode_value(), Err(DecodeError::Io));
    let mut d = Decoder::new(vec![0x4A, 1, 2, 3]);
    assert_eq!(d.decode_value(), Err(DecodeError::Io));
    // an array that announces more elements than the input holds
    let mut d = Decoder::new(vec![0x83, 0x01]);
    assert_eq!(d.decode_value(), Err(DecodeError::Io));
    // an unterminated indefinite array
    let mut d = Decoder::new(vec![0x9F, 0x01]);
    assert_eq!(d.decode_value(), Err(DecodeError::Io));
}

#[test]
fn chunked_indefinite_strings() {
    // (_ "ab", "c") concatenates to "abc"
    let mut d = Decoder::new(vec![0x7F, 0x62, b'a', b'b', 0x61, b'c', 0xFF]);
    assert_eq!(d.decode_value(), Ok(Value::Text("abc".to_string())));
    // (_ h'0102', h'03')
    let mut d = Decoder::new(vec![0x5F, 0x42, 1, 2, 0x41, 3, 0xFF]);
    assert_eq!(d.decode_value(), Ok(Value::Bytes(vec![1, 2, 3])));
    // a chunk of the wrong major type is rejected
    let mut d = Decoder::new(vec![0x7F, 0x42, 1, 2, 0xFF]);
    assert_eq!(d.decode_value(), Err(DecodeError::UnexpectedMajorType));
    // a nested indefinite chunk is rejected
    let mut d = Decoder::new(vec![0x7F, 0x7F, 0xFF, 0xFF]);
    assert_eq!(d.decode_value(), Err(DecodeError::MalformedHeader));
}

#[test]
fn break_marker_where_a_value_is_expected() {
    // inside a definite array, a break byte is a malformed value
    let mut d = Decoder::new(vec![0x81, 0xFF]);
    assert_eq!(d.decode_value(), Err(DecodeError::MalformedHeader));
    // a break after a key, where the value should follow
    let mut d = Decoder::new(vec![0xBF, 0x01, 0xFF]);
    assert_eq!(d.decode_value(), Err(DecodeError::MalformedHeader));
    // a bare break byte is not a value
    let mut d = Decoder::new(vec![0xFF]);
    assert_eq!(d.decode_value(), Err(DecodeError::MalformedHeader));
}

#[test]
fn empty_composites() {
    assert_eq!(round_trip(Value::Array(vec![])), Value::Array(vec![]));
    assert_eq!(round_trip(Value::Mapping(vec![])), Value::Mapping(vec![]));
    let mut d = Decoder::new(vec![0x9F, 0xFF]);
    assert_eq!(d.decode_value(), Ok(Value::Array(vec![])));
    let mut d = Decoder::new(vec![0xBF, 0xFF]);
    assert_eq!(d.decode_value(), Ok(Value::Mapping(vec![])));
}

#[test]
fn typed_string_and_bytes_decoders() {
    let mut e = Encoder::new();
    e.serialize_str("hello");
    let mut d = Decoder::new(e.into_bytes());
    assert_eq!(d.deserialize_string(), Ok("hello".to_string()));
    assert_eq!(d.remaining_len(), 0);

    let mut e = Encoder::new();
    e.serialize_bytes(&[9, 8, 7]);
    let mut d = Decoder::new(e.into_bytes());
    assert_eq!(d.deserialize_bytes(), Ok(vec![9, 8, 7]));

    // chunked forms work through the typed decoders too
    let mut d = Decoder::new(vec![0x7F, 0x62, b'h', b'i', 0x61, b'!', 0xFF]);
    assert_eq!(d.deserialize_string(), Ok("hi!".to_string()));
    let mut d = Decoder::new(vec![0x5F, 0x41, 1, 0x41, 2, 0xFF]);
    assert_eq!(d.deserialize_bytes(), Ok(vec![1, 2]));

    // the major types must match the requested kind
    let mut d = Decoder::new(vec![0x43, 1, 2, 3]);
    assert_eq!(
        d.deserialize_string(),
        Err(DecodeError::UnexpectedMajorType)
    );
    let mut d = Decoder::new(vec![0x63, b'a', b'b', b'c']);
    assert_eq!(d.deserialize_bytes(), Err(DecodeError::UnexpectedMajorType));
    // invalid UTF-8 through the typed decoder
    let mut d = Decoder::new(vec![0x62, 0xC3, 0x28]);
    assert_eq!(d.deserialize_string(), Err(DecodeError::InvalidUtf8));
}

#[test]
fn option_decoder() {
    let mut d = Decoder::new(vec![0xF6]);
    assert_eq!(d.deserialize_option(), Ok(None));
    let mut d = Decoder::new(vec![0x05]);
    assert_eq!(d.deserialize_option(), Ok(Some(Value::Unsigned(5))));
}
