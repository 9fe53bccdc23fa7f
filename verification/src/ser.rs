//! The CBOR encoder: writes canonically encoded data items into an
//! in-memory byte buffer owned by the encoder and drained by the caller.

use crate::error::EncodeError;
use crate::value::{
    lemma_encode_pairs_take_snoc, lemma_encode_seq_take_snoc, lemma_encode_two, pair_models_of,
    models_of, spec_encode, spec_encode_pairs, spec_encode_seq, Value, ValueModel,
};
use crate::wire::{header_bytes, indef_header_byte, indefinite_legal, Major, BREAK_BYTE};
use vstd::prelude::*;
use vstd::string::StringSliceAdditionalSpecFns;
use vstd::utf8::encode_utf8;

verus! {

broadcast use vstd::std_specs::vec::group_vec_axioms;

/// The encoder type; accumulates encoded CBOR data in an in-memory
/// buffer.  Its view is the byte sequence produced so far.
pub struct Encoder {
    buf: Vec<u8>,
}

impl View for Encoder {
    type V = Seq<u8>;

    closed spec fn view(&self) -> Seq<u8> {
        self.buf@
    }
}

impl Encoder {
    /// Constructs a new encoder with an empty output buffer.
    pub fn new() -> (e: Encoder)
        ensures
            e@ == Seq::<u8>::empty(),
    {
        Encoder { buf: Vec::new() }
    }

    /// The bytes encoded so far, without giving up the encoder.
    pub fn as_bytes(&self) -> (r: &[u8])
        ensures
            r@ == self@,
    {
        self.buf.as_slice()
    }

    /// Consumes the encoder and hands back the encoded bytes.
    pub fn into_bytes(self) -> (r: Vec<u8>)
        ensures
            r@ == self@,
    {
        self.buf
    }

    /// The in-memory buffer never holds data beyond the bytes themselves,
    /// so there is nothing pending to push out; the method is kept so that
    /// callers draining the encoder into a buffered sink have a single
    /// point at which all encoded data is guaranteed visible.
    pub fn flush(&mut self) -> (r: Result<(), EncodeError>)
        ensures
            *final(self) == *old(self),
            r == Ok::<(), EncodeError>(()),
    {
        Ok(())
    }

    /// Writes the canonical header for major type `m` carrying the length
    /// or value `v`: the smallest of the direct, 1-, 2-, 4- or 8-byte
    /// extended forms that can represent `v`, with closed tier bounds.
    pub fn write_header(&mut self, m: Major, v: u64)
        ensures
            final(self)@ == old(self)@ + header_bytes(m, v),
    {
        let mb = crate::wire::major_to_bits(m);
        if v < 24 {
            self.buf.push(mb + v as u8);
        } else if v <= 0xFF {
            self.buf.push(mb + 24);
            self.buf.push((v & 0xFF) as u8);
        } else if v <= 0xFFFF {
            self.buf.push(mb + 25);
            self.buf.push(((v >> 8) & 0xFF) as u8);
            self.buf.push((v & 0xFF) as u8);
        } else if v <= 0xFFFF_FFFF {
            self.buf.push(mb + 26);
            self.buf.push(((v >> 24) & 0xFF) as u8);
            self.buf.push(((v >> 16) & 0xFF) as u8);
            self.buf.push(((v >> 8) & 0xFF) as u8);
            self.buf.push((v & 0xFF) as u8);
        } else {
            self.buf.push(mb + 27);
            self.buf.push(((v >> 56) & 0xFF) as u8);
            self.buf.push(((v >> 48) & 0xFF) as u8);
            self.buf.push(((v >> 40) & 0xFF) as u8);
            self.buf.push(((v >> 32) & 0xFF) as u8);
            self.buf.push(((v >> 24) & 0xFF) as u8);
            self.buf.push(((v >> 16) & 0xFF) as u8);
            self.buf.push(((v >> 8) & 0xFF) as u8);
            self.buf.push((v & 0xFF) as u8);
        }
        proof {
            assert(self@ =~= old(self)@ + header_bytes(m, v));
        }
    }

    /// Encodes a boolean as the simple value false (0xF4) or true (0xF5).
    pub fn serialize_bool(&mut self, v: bool)
        ensures
            final(self)@ == old(self)@ + header_bytes(Major::Simple, if v {
                21u64
            } else {
                20u64
            }),
    {
        self.write_header(Major::Simple, if v {
            21
        } else {
            20
        });
    }

    /// Encodes null/unit as the simple value 0xF6.
    pub fn serialize_unit(&mut self)
        ensures
            final(self)@ == old(self)@ + header_bytes(Major::Simple, 22u64),
    {
        self.write_header(Major::Simple, 22);
    }

    /// Encodes `None` the same way as unit: the simple value null.
    pub fn serialize_none(&mut self)
        ensures
            final(self)@ == old(self)@ + header_bytes(Major::Simple, 22u64),
    {
        self.write_header(Major::Simple, 22);
    }

    /// Encodes a unit struct the same way as unit: the simple value null.
    pub fn serialize_unit_struct(&mut self)
        ensures
            final(self)@ == old(self)@ + header_bytes(Major::Simple, 22u64),
    {
        self.write_header(Major::Simple, 22);
    }

    /// Encodes an unsigned 8-bit integer with a minimal-width header.
    pub fn serialize_u8(&mut self, v: u8)
        ensures
            final(self)@ == old(self)@ + header_bytes(Major::Unsigned, v as u64),
    {
        self.write_header(Major::Unsigned, v as u64);
    }

    /// Encodes an unsigned 16-bit integer with a minimal-width header.
    pub fn serialize_u16(&mut self, v: u16)
        ensures
            final(self)@ == old(self)@ + header_bytes(Major::Unsigned, v as u64),
    {
        self.write_header(Major::Unsigned, v as u64);
    }

    /// Encodes an unsigned 32-bit integer with a minimal-width header.
    pub fn serialize_u32(&mut self, v: u32)
        ensures
            final(self)@ == old(self)@ + header_bytes(Major::Unsigned, v as u64),
    {
        self.write_header(Major::Unsigned, v as u64);
    }

    /// Encodes an unsigned 64-bit integer with a minimal-width header.
    pub fn serialize_u64(&mut self, v: u64)
        ensures
            final(self)@ == old(self)@ + header_bytes(Major::Unsigned, v),
    {
        self.write_header(Major::Unsigned, v);
    }

    /// Encodes a signed 8-bit integer: non-negative values use the
    /// unsigned major type; a negative value `v` becomes the negative
    /// major type with magnitude `-1 - v`.
    pub fn serialize_i8(&mut self, v: i8)
        ensures
            v >= 0 ==> final(self)@ == old(self)@ + header_bytes(Major::Unsigned, v as u64),
            v < 0 ==> final(self)@ == old(self)@ + header_bytes(Major::Negative, (-1 - v as int) as u64),
    {
        if v < 0 {
            let magnitude: u8 = (-1 - v) as u8;
            self.write_header(Major::Negative, magnitude as u64);
        } else {
            self.write_header(Major::Unsigned, v as u64);
        }
    }

    /// Encodes a signed 16-bit integer under the same sign rule.
    pub fn serialize_i16(&mut self, v: i16)
        ensures
            v >= 0 ==> final(self)@ == old(self)@ + header_bytes(Major::Unsigned, v as u64),
            v < 0 ==> final(self)@ == old(self)@ + header_bytes(Major::Negative, (-1 - v as int) as u64),
    {
        if v < 0 {
            let magnitude: u16 = (-1 - v) as u16;
            self.write_header(Major::Negative, magnitude as u64);
        } else {
            self.write_header(Major::Unsigned, v as u64);
        }
    }

    /// Encodes a signed 32-bit integer under the same sign rule.
    pub fn serialize_i32(&mut self, v: i32)
        ensures
            v >= 0 ==> final(self)@ == old(self)@ + header_bytes(Major::Unsigned, v as u64),
            v < 0 ==> final(self)@ == old(self)@ + header_bytes(Major::Negative, (-1 - v as int) as u64),
    {
        if v < 0 {
            let magnitude: i64 = -1 - (v as i64);
            self.write_header(Major::Negative, magnitude as u64);
        } else {
            self.write_header(Major::Unsigned, v as u64);
        }
    }

    /// Encodes a signed 64-bit integer under the same sign rule.
    pub fn serialize_i64(&mut self, v: i64)
        ensures
            v >= 0 ==> final(self)@ == old(self)@ + header_bytes(Major::Unsigned, v as u64),
            v < 0 ==> final(self)@ == old(self)@ + header_bytes(Major::Negative, (-1 - v as int) as u64),
    {
        if v < 0 {
            let magnitude: u64 = (-1i128 - (v as i128)) as u64;
            self.write_header(Major::Negative, magnitude);
        } else {
            self.write_header(Major::Unsigned, v as u64);
        }
    }

    /// Encodes a raw byte string: a byte-string header carrying the
    /// length, then the payload verbatim.
    pub fn serialize_bytes(&mut self, v: &[u8])
        ensures
            final(self)@ == old(self)@ + header_bytes(Major::Bytes, v@.len() as u64) + v@,
    {
        self.write_header(Major::Bytes, v.len() as u64);
        self.buf.extend_from_slice(v);
        proof {
            assert(self@ =~= old(self)@ + header_bytes(Major::Bytes, v@.len() as u64) + v@);
        }
    }

    /// Writes the break marker that terminates an indefinite-length
    /// composite.
    pub fn write_break(&mut self)
        ensures
            final(self)@ == old(self)@ + seq![BREAK_BYTE],
    {
        self.buf.push(0xFF);
        proof {
            assert(self@ =~= old(self)@ + seq![BREAK_BYTE]);
        }
    }

    /// Writes the one-byte header opening an indefinite-length item;
    /// only the string and composite major types may omit their length,
    /// so any other major type is rejected up front.
    pub fn write_indefinite_header(&mut self, m: Major)
        requires
            indefinite_legal(m),
        ensures
            final(self)@ == old(self)@ + seq![indef_header_byte(m)],
    {
        let mb = crate::wire::major_to_bits(m);
        self.buf.push(mb + 31);
        proof {
            assert(self@ =~= old(self)@ + seq![indef_header_byte(m)]);
        }
    }

    /// Encodes a UTF-8 text string: a text-string header carrying the
    /// byte length, then the string's UTF-8 bytes.
    pub fn serialize_str(&mut self, v: &str)
        ensures
            final(self)@ == old(self)@ + header_bytes(Major::Text, encode_utf8(v@).len() as u64)
                + encode_utf8(v@),
    {
        let bytes = v.as_bytes();
        let len = bytes.len();
        self.write_header(Major::Text, len as u64);
        self.buf.extend_from_slice(bytes);
        proof {
            assert(self@ =~= old(self)@ + header_bytes(Major::Text, encode_utf8(v@).len() as u64)
                + encode_utf8(v@));
        }
    }

    /// Encodes a character as a one-character text string: a text-string
    /// header carrying the UTF-8 byte length (1 to 4), then those bytes.
    pub fn serialize_char(&mut self, v: char)
        ensures
            final(self)@ == old(self)@ + header_bytes(
                Major::Text,
                encode_utf8(seq![v]).len() as u64,
            ) + encode_utf8(seq![v]),
    {
        let s = v as u32;
        proof {
            vstd::utf8::char_is_scalar(v);
            assert(seq![v][0] == v);
            assert(seq![v].drop_first() =~= Seq::<char>::empty());
            assert(encode_utf8(Seq::<char>::empty()) =~= Seq::<u8>::empty());
            assert(encode_utf8(seq![v]) =~= vstd::utf8::encode_scalar(v as u32));
        }
        if s <= 0x7F {
            self.write_header(Major::Text, 1);
            self.buf.push((s & 0x7F) as u8);
        } else if s <= 0x7FF {
            self.write_header(Major::Text, 2);
            self.buf.push(0xC0 | (((s >> 6) & 0x1F) as u8));
            self.buf.push(0x80 | ((s & 0x3F) as u8));
        } else if s <= 0xFFFF {
            self.write_header(Major::Text, 3);
            self.buf.push(0xE0 | (((s >> 12) & 0x0F) as u8));
            self.buf.push(0x80 | (((s >> 6) & 0x3F) as u8));
            self.buf.push(0x80 | ((s & 0x3F) as u8));
        } else {
            self.write_header(Major::Text, 4);
            self.buf.push(0xF0 | (((s >> 18) & 0x7) as u8));
            self.buf.push(0x80 | (((s >> 12) & 0x3F) as u8));
            self.buf.push(0x80 | (((s >> 6) & 0x3F) as u8));
            self.buf.push(0x80 | ((s & 0x3F) as u8));
        }
        proof {
            assert(self@ =~= old(self)@ + header_bytes(
                Major::Text,
                encode_utf8(seq![v]).len() as u64,
            ) + encode_utf8(seq![v]));
        }
    }

    /// Encodes `Some(value)` as the value itself, transparently.
    pub fn serialize_some(&mut self, value: &Value)
        ensures
            final(self)@ == old(self)@ + spec_encode(value@),
    {
        self.serialize_value(value);
    }

    /// Encodes a newtype struct as its inner value, transparently.
    pub fn serialize_newtype_struct(&mut self, value: &Value)
        ensures
            final(self)@ == old(self)@ + spec_encode(value@),
    {
        self.serialize_value(value);
    }

    /// Encodes a unit variant as the two-element array
    /// `[selector, null]`; the canonical selector is the variant's
    /// ordinal index (decoding also accepts a name selector).
    pub fn serialize_unit_variant(&mut self, variant_index: u32)
        ensures
            final(self)@ == old(self)@ + spec_encode(
                ValueModel::Array(
                    seq![ValueModel::Unsigned(variant_index as u64), ValueModel::Null],
                ),
            ),
    {
        self.write_header(Major::Array, 2);
        self.serialize_u32(variant_index);
        self.serialize_unit();
        proof {
            lemma_encode_two(
                ValueModel::Unsigned(variant_index as u64),
                ValueModel::Null,
            );
        }
    }

    /// Encodes a newtype variant as the two-element array
    /// `[selector, value]`, with the ordinal index as the selector.
    pub fn serialize_newtype_variant(&mut self, variant_index: u32, value: &Value)
        ensures
            final(self)@ == old(self)@ + spec_encode(
                ValueModel::Array(seq![ValueModel::Unsigned(variant_index as u64), value@]),
            ),
    {
        self.write_header(Major::Array, 2);
        self.serialize_u32(variant_index);
        self.serialize_value(value);
        proof {
            lemma_encode_two(ValueModel::Unsigned(variant_index as u64), value@);
        }
    }

    /// Encodes one structured value canonically: definite lengths and
    /// minimal-width headers throughout.
    #[verifier::loop_isolation(false)]
    pub fn serialize_value(&mut self, v: &Value)
        ensures
            final(self)@ == old(self)@ + spec_encode(v@),
        decreases v,
    {
        match v {
            Value::Bool(b) => self.serialize_bool(*b),
            Value::Unsigned(x) => self.serialize_u64(*x),
            Value::Negative(g) => self.write_header(Major::Negative, *g),
            Value::Bytes(b) => self.serialize_bytes(b.as_slice()),
            Value::Text(t) => self.serialize_str(t.as_str()),
            Value::Null => self.serialize_unit(),
            Value::Array(es) => {
                self.write_header(Major::Array, es.len() as u64);
                let ghost mid = self@;
                let n = es.len();
                let mut i: usize = 0;
                proof {
                    assert(models_of(es@).take(0) =~= Seq::<ValueModel>::empty());
                    assert(mid + Seq::<u8>::empty() =~= mid);
                }
                while i < n
                    invariant
                        i <= n,
                        n == es@.len(),
                        mid == old(self)@ + header_bytes(Major::Array, es@.len() as u64),
                        self@ == mid + spec_encode_seq(models_of(es@).take(i as int)),
                    decreases n - i,
                {
                    proof {
                        assert(decreases_to!(*v => *es));
                        assert(decreases_to!(*es => es@));
                        assert(decreases_to!(es@ => es@[i as int]));
                    }
                    self.serialize_value(&es[i]);
                    i = i + 1;
                    proof {
                        lemma_encode_seq_take_snoc(models_of(es@), i - 1);
                    }
                }
                proof {
                    assert(models_of(es@).take(n as int) =~= models_of(es@));
                }
            },
            Value::Mapping(ps) => {
                self.write_header(Major::Mapping, ps.len() as u64);
                let ghost mid = self@;
                let n = ps.len();
                let mut i: usize = 0;
                proof {
                    assert(pair_models_of(ps@).take(0) =~= Seq::<(ValueModel, ValueModel)>::empty());
                    assert(mid + Seq::<u8>::empty() =~= mid);
                }
                while i < n
                    invariant
                        i <= n,
                        n == ps@.len(),
                        mid == old(self)@ + header_bytes(Major::Mapping, ps@.len() as u64),
                        self@ == mid + spec_encode_pairs(pair_models_of(ps@).take(i as int)),
                    decreases n - i,
                {
                    proof {
                        assert(decreases_to!(*v => *ps));
                        assert(decreases_to!(*ps => ps@));
                        assert(decreases_to!(ps@ => ps@[i as int]));
                        assert(decreases_to!(ps@[i as int] => ps@[i as int].0));
                        assert(decreases_to!(ps@[i as int] => ps@[i as int].1));
                    }
                    self.serialize_value(&ps[i].0);
                    self.serialize_value(&ps[i].1);
                    i = i + 1;
                    proof {
                        lemma_encode_pairs_take_snoc(pair_models_of(ps@), i - 1);
                    }
                }
                proof {
                    assert(pair_models_of(ps@).take(n as int) =~= pair_models_of(ps@));
                }
            },
        }
    }

    /// Opens an array: with `Some(n)`, a definite-length array of `n`
    /// declared elements; with `None`, an indefinite-length array that
    /// `end` closes with the break marker.
    pub fn serialize_seq(self, len: Option<usize>) -> (r: SeqEncoder)
        ensures
            match len {
                Some(n) => !r.is_indefinite() && r.owed() == n && r.buffered() == self@
                    + header_bytes(Major::Array, n as u64),
                None => r.is_indefinite() && r.buffered() == self@ + seq![
                    indef_header_byte(Major::Array),
                ],
            },
    {
        let mut enc = self;
        match len {
            Some(n) => {
                enc.write_header(Major::Array, n as u64);
                SeqEncoder { enc, indefinite: false, owed: n as u64 }
            },
            None => {
                enc.write_indefinite_header(Major::Array);
                SeqEncoder { enc, indefinite: true, owed: 0 }
            },
        }
    }

    /// Opens a definite-length array for a tuple of `len` elements.
    pub fn serialize_tuple(self, len: usize) -> (r: TupleEncoder)
        ensures
            r.owed() == len && r.buffered() == self@ + header_bytes(Major::Array, len as u64),
    {
        let mut enc = self;
        enc.write_header(Major::Array, len as u64);
        TupleEncoder { enc, owed: len as u64 }
    }

    /// Opens a definite-length array for a tuple struct of `len` fields.
    pub fn serialize_tuple_struct(self, len: usize) -> (r: TupleStructEncoder)
        ensures
            r.owed() == len && r.buffered() == self@ + header_bytes(Major::Array, len as u64),
    {
        let mut enc = self;
        enc.write_header(Major::Array, len as u64);
        TupleStructEncoder { enc, owed: len as u64 }
    }

    /// Opens a tuple variant: the two-element variant array, the ordinal
    /// selector, then a definite-length array for the `len` fields.
    pub fn serialize_tuple_variant(self, variant_index: u32, len: usize) -> (r: TupleVariantEncoder)
        ensures
            r.owed() == len,
            r.buffered() == self@ + header_bytes(Major::Array, 2) + header_bytes(
                Major::Unsigned,
                variant_index as u64,
            ) + header_bytes(Major::Array, len as u64),
    {
        let mut enc = self;
        enc.write_header(Major::Array, 2);
        enc.serialize_u32(variant_index);
        enc.write_header(Major::Array, len as u64);
        TupleVariantEncoder { enc, owed: len as u64 }
    }

    /// Opens a map: with `Some(n)`, a definite-length map of `n` declared
    /// key/value pairs; with `None`, an indefinite-length map that `end`
    /// closes with the break marker.
    pub fn serialize_map(self, len: Option<usize>) -> (r: MapEncoder)
        ensures
            !r.awaiting_value(),
            match len {
                Some(n) => !r.is_indefinite() && r.owed() == n && r.buffered() == self@
                    + header_bytes(Major::Mapping, n as u64),
                None => r.is_indefinite() && r.buffered() == self@ + seq![
                    indef_header_byte(Major::Mapping),
                ],
            },
    {
        let mut enc = self;
        match len {
            Some(n) => {
                enc.write_header(Major::Mapping, n as u64);
                MapEncoder { enc, indefinite: false, owed: n as u64, awaiting: false }
            },
            None => {
                enc.write_indefinite_header(Major::Mapping);
                MapEncoder { enc, indefinite: true, owed: 0, awaiting: false }
            },
        }
    }

    /// Opens a definite-length map for a struct of `len` fields, each a
    /// text key followed by its value.
    pub fn serialize_struct(self, len: usize) -> (r: StructEncoder)
        ensures
            r.owed() == len && r.buffered() == self@ + header_bytes(Major::Mapping, len as u64),
    {
        let mut enc = self;
        enc.write_header(Major::Mapping, len as u64);
        StructEncoder { enc, owed: len as u64 }
    }

    /// Opens a struct variant: the two-element variant array, the
    /// ordinal selector, then a definite-length map for the `len` fields.
    pub fn serialize_struct_variant(self, variant_index: u32, len: usize) -> (r:
        StructVariantEncoder)
        ensures
            r.owed() == len,
            r.buffered() == self@ + header_bytes(Major::Array, 2) + header_bytes(
                Major::Unsigned,
                variant_index as u64,
            ) + header_bytes(Major::Mapping, len as u64),
    {
        let mut enc = self;
        enc.write_header(Major::Array, 2);
        enc.serialize_u32(variant_index);
        enc.write_header(Major::Mapping, len as u64);
        StructVariantEncoder { enc, owed: len as u64 }
    }
}

/// The sequence encoder helper type: a short-lived builder that owns the
/// encoder while one array is written, definite or indefinite.
pub struct SeqEncoder {
    enc: Encoder,
    indefinite: bool,
    owed: u64,
}

impl SeqEncoder {
    /// The bytes produced so far, the opening header included.
    pub closed spec fn buffered(&self) -> Seq<u8> {
        self.enc@
    }

    /// Whether the array was opened without a declared count.
    pub closed spec fn is_indefinite(&self) -> bool {
        self.indefinite
    }

    /// How many declared elements are still owed (definite form only).
    pub closed spec fn owed(&self) -> u64 {
        self.owed
    }

    /// Encodes one element.
    pub fn serialize_element(&mut self, value: &Value)
        requires
            old(self).is_indefinite() || old(self).owed() > 0,
        ensures
            final(self).buffered() == old(self).buffered() + spec_encode(value@),
            final(self).is_indefinite() == old(self).is_indefinite(),
            old(self).is_indefinite() ==> final(self).owed() == old(self).owed(),
            !old(self).is_indefinite() ==> final(self).owed() == old(self).owed() - 1,
    {
        self.enc.serialize_value(value);
        if !self.indefinite {
            self.owed = self.owed - 1;
        }
    }

    /// Closes the array, writing the break marker if the length was
    /// indefinite, and hands the encoder back; a definite array must
    /// have received exactly its declared count of elements.
    pub fn end(self) -> (r: Encoder)
        requires
            self.is_indefinite() || self.owed() == 0,
        ensures
            self.is_indefinite() ==> r@ == self.buffered() + seq![BREAK_BYTE],
            !self.is_indefinite() ==> r@ == self.buffered(),
    {
        let SeqEncoder { mut enc, indefinite, owed: _ } = self;
        if indefinite {
            enc.write_break();
        }
        enc
    }
}

/// The tuple encoder helper type: a definite-length array builder.
pub struct TupleEncoder {
    enc: Encoder,
    owed: u64,
}

impl TupleEncoder {
    /// The bytes produced so far, the opening header included.
    pub closed spec fn buffered(&self) -> Seq<u8> {
        self.enc@
    }

    /// How many declared elements are still owed.
    pub closed spec fn owed(&self) -> u64 {
        self.owed
    }

    /// Encodes one element.
    pub fn serialize_element(&mut self, value: &Value)
        requires
            old(self).owed() > 0,
        ensures
            final(self).buffered() == old(self).buffered() + spec_encode(value@),
            final(self).owed() == old(self).owed() - 1,
    {
        self.enc.serialize_value(value);
        self.owed = self.owed - 1;
    }

    /// Closes the tuple after exactly the declared count of elements.
    pub fn end(self) -> (r: Encoder)
        requires
            self.owed() == 0,
        ensures
            r@ == self.buffered(),
    {
        self.enc
    }
}

/// The tuple struct encoder helper type: a definite-length array builder.
pub struct TupleStructEncoder {
    enc: Encoder,
    owed: u64,
}

impl TupleStructEncoder {
    /// The bytes produced so far, the opening header included.
    pub closed spec fn buffered(&self) -> Seq<u8> {
        self.enc@
    }

    /// How many declared fields are still owed.
    pub closed spec fn owed(&self) -> u64 {
        self.owed
    }

    /// Encodes one field.
    pub fn serialize_field(&mut self, value: &Value)
        requires
            old(self).owed() > 0,
        ensures
            final(self).buffered() == old(self).buffered() + spec_encode(value@),
            final(self).owed() == old(self).owed() - 1,
    {
        self.enc.serialize_value(value);
        self.owed = self.owed - 1;
    }

    /// Closes the tuple struct after exactly the declared field count.
    pub fn end(self) -> (r: Encoder)
        requires
            self.owed() == 0,
        ensures
            r@ == self.buffered(),
    {
        self.enc
    }
}

/// The tuple variant encoder helper type: fields of the array payload of
/// a two-element variant array.
pub struct TupleVariantEncoder {
    enc: Encoder,
    owed: u64,
}

impl TupleVariantEncoder {
    /// The bytes produced so far, variant array and selector included.
    pub closed spec fn buffered(&self) -> Seq<u8> {
        self.enc@
    }

    /// How many declared fields are still owed.
    pub closed spec fn owed(&self) -> u64 {
        self.owed
    }

    /// Encodes one field.
    pub fn serialize_field(&mut self, value: &Value)
        requires
            old(self).owed() > 0,
        ensures
            final(self).buffered() == old(self).buffered() + spec_encode(value@),
            final(self).owed() == old(self).owed() - 1,
    {
        self.enc.serialize_value(value);
        self.owed = self.owed - 1;
    }

    /// Closes the variant after exactly the declared field count.
    pub fn end(self) -> (r: Encoder)
        requires
            self.owed() == 0,
        ensures
            r@ == self.buffered(),
    {
        self.enc
    }
}

/// The map encoder helper type: alternating keys and values, definite or
/// indefinite, with the alternation tracked so that every key is
/// followed by exactly one value.
pub struct MapEncoder {
    enc: Encoder,
    indefinite: bool,
    owed: u64,
    awaiting: bool,
}

impl MapEncoder {
    /// The bytes produced so far, the opening header included.
    pub closed spec fn buffered(&self) -> Seq<u8> {
        self.enc@
    }

    /// Whether the map was opened without a declared pair count.
    pub closed spec fn is_indefinite(&self) -> bool {
        self.indefinite
    }

    /// How many declared pairs are still owed (definite form only).
    pub closed spec fn owed(&self) -> u64 {
        self.owed
    }

    /// Whether a key has been written whose value is still owed.
    pub closed spec fn awaiting_value(&self) -> bool {
        self.awaiting
    }

    /// Encodes one key; the matching value must follow before the next
    /// key or the end of the map.
    pub fn serialize_key(&mut self, key: &Value)
        requires
            !old(self).awaiting_value(),
            old(self).is_indefinite() || old(self).owed() > 0,
        ensures
            final(self).buffered() == old(self).buffered() + spec_encode(key@),
            final(self).is_indefinite() == old(self).is_indefinite(),
            final(self).owed() == old(self).owed(),
            final(self).awaiting_value(),
    {
        self.enc.serialize_value(key);
        self.awaiting = true;
    }

    /// Encodes the value belonging to the key written last.
    pub fn serialize_value(&mut self, value: &Value)
        requires
            old(self).awaiting_value(),
            old(self).is_indefinite() || old(self).owed() > 0,
        ensures
            final(self).buffered() == old(self).buffered() + spec_encode(value@),
            final(self).is_indefinite() == old(self).is_indefinite(),
            !final(self).awaiting_value(),
            old(self).is_indefinite() ==> final(self).owed() == old(self).owed(),
            !old(self).is_indefinite() ==> final(self).owed() == old(self).owed() - 1,
    {
        self.enc.serialize_value(value);
        self.awaiting = false;
        if !self.indefinite {
            self.owed = self.owed - 1;
        }
    }

    /// Closes the map, writing the break marker if the pair count was
    /// indefinite; every key must have received its value, and a
    /// definite map exactly its declared pair count.
    pub fn end(self) -> (r: Encoder)
        requires
            !self.awaiting_value(),
            self.is_indefinite() || self.owed() == 0,
        ensures
            self.is_indefinite() ==> r@ == self.buffered() + seq![BREAK_BYTE],
            !self.is_indefinite() ==> r@ == self.buffered(),
    {
        let MapEncoder { mut enc, indefinite, owed: _, awaiting: _ } = self;
        if indefinite {
            enc.write_break();
        }
        enc
    }
}

/// The struct encoder helper type: a definite-length map whose keys are
/// the field names as text strings.
pub struct StructEncoder {
    enc: Encoder,
    owed: u64,
}

impl StructEncoder {
    /// The bytes produced so far, the opening header included.
    pub closed spec fn buffered(&self) -> Seq<u8> {
        self.enc@
    }

    /// How many declared fields are still owed.
    pub closed spec fn owed(&self) -> u64 {
        self.owed
    }

    /// Encodes one field: the name as a text key, then the value.
    pub fn serialize_field(&mut self, key: &str, value: &Value)
        requires
            old(self).owed() > 0,
        ensures
            final(self).buffered() == old(self).buffered() + header_bytes(
                Major::Text,
                encode_utf8(key@).len() as u64,
            ) + encode_utf8(key@) + spec_encode(value@),
            final(self).owed() == old(self).owed() - 1,
    {
        self.enc.serialize_str(key);
        self.enc.serialize_value(value);
        self.owed = self.owed - 1;
    }

    /// Closes the struct after exactly the declared field count.
    pub fn end(self) -> (r: Encoder)
        requires
            self.owed() == 0,
        ensures
            r@ == self.buffered(),
    {
        self.enc
    }
}

/// The struct variant encoder helper type: fields of the map payload of
/// a two-element variant array.
pub struct StructVariantEncoder {
    enc: Encoder,
    owed: u64,
}

impl StructVariantEncoder {
    /// The bytes produced so far, variant array and selector included.
    pub closed spec fn buffered(&self) -> Seq<u8> {
        self.enc@
    }

    /// How many declared fields are still owed.
    pub closed spec fn owed(&self) -> u64 {
        self.owed
    }

    /// Encodes one field: the name as a text key, then the value.
    pub fn serialize_field(&mut self, key: &str, value: &Value)
        requires
            old(self).owed() > 0,
        ensures
            final(self).buffered() == old(self).buffered() + header_bytes(
                Major::Text,
                encode_utf8(key@).len() as u64,
            ) + encode_utf8(key@) + spec_encode(value@),
            final(self).owed() == old(self).owed() - 1,
    {
        self.enc.serialize_str(key);
        self.enc.serialize_value(value);
        self.owed = self.owed - 1;
    }

    /// Closes the variant after exactly the declared field count.
    pub fn end(self) -> (r: Encoder)
        requires
            self.owed() == 0,
        ensures
            r@ == self.buffered(),
    {
        self.enc
    }
}

} // verus!
