//! Structured values: what one decoded data item materializes as, the
//! mathematical model of such values, and the spec-level encode and
//! decode engines that the executable codec is proved against.

use crate::error::DecodeError;
use crate::wire::{
    header_bytes, indef_header_byte, spec_header, HeaderValue, Major, BREAK_BYTE,
};
use vstd::prelude::*;
use vstd::utf8::{decode_utf8, encode_utf8, valid_utf8};

verus! {

/// A structured value of the supported data model: booleans, 64-bit
/// integers in both sign directions, byte strings, UTF-8 text, null,
/// arrays and key/value maps.
///
/// A negative integer is carried as its wire magnitude `g`, standing for
/// the value `-1 - g`; this covers the full wire range down to `-2^64`.
#[derive(Debug, PartialEq)]
pub enum Value {
    /// A boolean (simple values false / true).
    Bool(bool),
    /// A non-negative integer.
    Unsigned(u64),
    /// A negative integer of value `-1 - magnitude`.
    Negative(u64),
    /// A raw byte string.
    Bytes(Vec<u8>),
    /// A UTF-8 text string.
    Text(String),
    /// The simple value null (also standing for unit).
    Null,
    /// A sequence of values.
    Array(Vec<Value>),
    /// A sequence of key/value pairs; no ordering or uniqueness of keys
    /// is imposed by the codec itself.
    Mapping(Vec<(Value, Value)>),
}

/// The mathematical model of a [`Value`]: the same shape over `Seq`.
pub enum ValueModel {
    /// A boolean.
    Bool(bool),
    /// A non-negative integer.
    Unsigned(u64),
    /// A negative integer of value `-1 - magnitude`.
    Negative(u64),
    /// A raw byte string.
    Bytes(Seq<u8>),
    /// A text string, as the characters it decodes to.
    Text(Seq<char>),
    /// The simple value null.
    Null,
    /// A sequence of values.
    Array(Seq<ValueModel>),
    /// A sequence of key/value pairs.
    Mapping(Seq<(ValueModel, ValueModel)>),
}

/// The model of a structured value.
pub open spec fn model_of(v: Value) -> ValueModel
    decreases v,
{
    match v {
        Value::Bool(b) => ValueModel::Bool(b),
        Value::Unsigned(x) => ValueModel::Unsigned(x),
        Value::Negative(g) => ValueModel::Negative(g),
        Value::Bytes(b) => ValueModel::Bytes(b@),
        Value::Text(t) => ValueModel::Text(t@),
        Value::Null => ValueModel::Null,
        Value::Array(es) => ValueModel::Array(models_of(es@)),
        Value::Mapping(ps) => ValueModel::Mapping(pair_models_of(ps@)),
    }
}

/// The models of a sequence of values, element by element.  (Outside the
/// sequence's domain the defining closure's value is immaterial; the
/// guard only serves the termination argument.)
pub open spec fn models_of(es: Seq<Value>) -> Seq<ValueModel>
    decreases es,
{
    Seq::new(
        es.len(),
        |i: int|
            if 0 <= i < es.len() {
                model_of(es[i])
            } else {
                ValueModel::Null
            },
    )
}

/// The models of a sequence of key/value pairs, pair by pair.
pub open spec fn pair_models_of(ps: Seq<(Value, Value)>) -> Seq<(ValueModel, ValueModel)>
    decreases ps,
{
    Seq::new(
        ps.len(),
        |i: int|
            if 0 <= i < ps.len() {
                (model_of(ps[i].0), model_of(ps[i].1))
            } else {
                (ValueModel::Null, ValueModel::Null)
            },
    )
}

/// Pushing a value onto a vector extends its model sequence by the
/// value's model.
pub proof fn lemma_models_of_push(es: Seq<Value>, v: Value)
    ensures
        models_of(es.push(v)) == models_of(es) + seq![model_of(v)],
{
    assert(models_of(es.push(v)) =~= models_of(es) + seq![model_of(v)]);
}

/// Pushing a pair onto a vector extends its model sequence by the
/// pair's models.
pub proof fn lemma_pair_models_of_push(ps: Seq<(Value, Value)>, k: Value, v: Value)
    ensures
        pair_models_of(ps.push((k, v))) == pair_models_of(ps) + seq![
            (model_of(k), model_of(v)),
        ],
{
    assert(pair_models_of(ps.push((k, v))) =~= pair_models_of(ps) + seq![
        (model_of(k), model_of(v)),
    ]);
}

impl View for Value {
    type V = ValueModel;

    open spec fn view(&self) -> ValueModel {
        model_of(*self)
    }
}

/// Whether a model value can be carried by the wire format: every length
/// must be representable in an item header, that is, fit 64 bits.
pub open spec fn model_wf(m: ValueModel) -> bool
    decreases m,
{
    match m {
        ValueModel::Bool(_) => true,
        ValueModel::Unsigned(_) => true,
        ValueModel::Negative(_) => true,
        ValueModel::Bytes(b) => b.len() <= u64::MAX,
        ValueModel::Text(t) => encode_utf8(t).len() <= u64::MAX,
        ValueModel::Null => true,
        ValueModel::Array(es) => es.len() <= u64::MAX && (forall|i: int|
            0 <= i < es.len() ==> model_wf(#[trigger] es[i])),
        ValueModel::Mapping(ps) => ps.len() <= u64::MAX && (forall|i: int|
            0 <= i < ps.len() ==> model_wf(#[trigger] ps[i].0) && model_wf(ps[i].1)),
    }
}

/// The canonical encoding of a model value: definite lengths everywhere
/// and minimal-width headers.
pub open spec fn spec_encode(m: ValueModel) -> Seq<u8>
    decreases m, 0nat,
{
    match m {
        ValueModel::Bool(b) => header_bytes(Major::Simple, if b {
            21u64
        } else {
            20u64
        }),
        ValueModel::Unsigned(v) => header_bytes(Major::Unsigned, v),
        ValueModel::Negative(g) => header_bytes(Major::Negative, g),
        ValueModel::Bytes(b) => header_bytes(Major::Bytes, b.len() as u64) + b,
        ValueModel::Text(t) => header_bytes(Major::Text, encode_utf8(t).len() as u64)
            + encode_utf8(t),
        ValueModel::Null => header_bytes(Major::Simple, 22u64),
        ValueModel::Array(es) => header_bytes(Major::Array, es.len() as u64) + spec_encode_seq(es),
        ValueModel::Mapping(ps) => header_bytes(Major::Mapping, ps.len() as u64)
            + spec_encode_pairs(ps),
    }
}

/// The concatenated canonical encodings of a sequence of values.
pub open spec fn spec_encode_seq(es: Seq<ValueModel>) -> Seq<u8>
    decreases es, 1nat,
{
    if es.len() == 0 {
        Seq::empty()
    } else {
        spec_encode(es[0]) + spec_encode_seq(es.drop_first())
    }
}

/// The concatenated canonical encodings of a sequence of key/value
/// pairs, each key directly followed by its value.
pub open spec fn spec_encode_pairs(ps: Seq<(ValueModel, ValueModel)>) -> Seq<u8>
    decreases ps, 1nat,
{
    if ps.len() == 0 {
        Seq::empty()
    } else {
        spec_encode(ps[0].0) + spec_encode(ps[0].1) + spec_encode_pairs(ps.drop_first())
    }
}

/// The indefinite-length encoding of an array: an opening header without
/// a count, the elements, and the break marker.
pub open spec fn spec_encode_array_indef(es: Seq<ValueModel>) -> Seq<u8> {
    seq![indef_header_byte(Major::Array)] + spec_encode_seq(es) + seq![BREAK_BYTE]
}

/// The indefinite-length encoding of a map: an opening header without a
/// pair count, the alternating keys and values, and the break marker.
pub open spec fn spec_encode_mapping_indef(ps: Seq<(ValueModel, ValueModel)>) -> Seq<u8> {
    seq![indef_header_byte(Major::Mapping)] + spec_encode_pairs(ps) + seq![BREAK_BYTE]
}

/// What decoding one structured value from the front of `s` yields: the
/// model value and the bytes consumed.  This is the decode dispatcher's
/// model: the header's major type selects the route; strings pull their
/// payload; composites pull sub-items, definite ones by count and
/// indefinite ones until a break marker; a break anywhere a value is
/// expected is malformed; tags and the unsupported simple values (among
/// them all float forms) are an unexpected major type.
pub open spec fn spec_value(s: Seq<u8>) -> Result<(ValueModel, int), DecodeError>
    decreases s.len(), 0nat,
{
    match spec_header(s) {
        Err(e) => Err(e),
        Ok((m, hv, h)) => match m {
            Major::Unsigned => match hv {
                HeaderValue::Num(v) => Ok((ValueModel::Unsigned(v), h)),
                HeaderValue::Indefinite => Err(DecodeError::MalformedHeader),
            },
            Major::Negative => match hv {
                HeaderValue::Num(g) => Ok((ValueModel::Negative(g), h)),
                HeaderValue::Indefinite => Err(DecodeError::MalformedHeader),
            },
            Major::Bytes => match hv {
                HeaderValue::Num(len) => {
                    if s.len() - h < len {
                        Err(DecodeError::Io)
                    } else {
                        Ok((ValueModel::Bytes(s.subrange(h, h + len)), h + len))
                    }
                },
                HeaderValue::Indefinite => match spec_chunks(s.skip(h), Major::Bytes) {
                    Err(e) => Err(e),
                    Ok((payload, k)) => Ok((ValueModel::Bytes(payload), h + k)),
                },
            },
            Major::Text => match hv {
                HeaderValue::Num(len) => {
                    if s.len() - h < len {
                        Err(DecodeError::Io)
                    } else {
                        let payload = s.subrange(h, h + len);
                        if valid_utf8(payload) {
                            Ok((ValueModel::Text(decode_utf8(payload)), h + len))
                        } else {
                            Err(DecodeError::InvalidUtf8)
                        }
                    }
                },
                HeaderValue::Indefinite => match spec_chunks(s.skip(h), Major::Text) {
                    Err(e) => Err(e),
                    Ok((payload, k)) => {
                        if valid_utf8(payload) {
                            Ok((ValueModel::Text(decode_utf8(payload)), h + k))
                        } else {
                            Err(DecodeError::InvalidUtf8)
                        }
                    },
                },
            },
            Major::Array => match hv {
                HeaderValue::Num(n) => match spec_elems(s.skip(h), n) {
                    Err(e) => Err(e),
                    Ok((vs, k)) => Ok((ValueModel::Array(vs), h + k)),
                },
                HeaderValue::Indefinite => match spec_elems_indef(s.skip(h)) {
                    Err(e) => Err(e),
                    Ok((vs, k)) => Ok((ValueModel::Array(vs), h + k)),
                },
            },
            Major::Mapping => match hv {
                HeaderValue::Num(n) => match spec_pairs(s.skip(h), n) {
                    Err(e) => Err(e),
                    Ok((vs, k)) => Ok((ValueModel::Mapping(vs), h + k)),
                },
                HeaderValue::Indefinite => match spec_pairs_indef(s.skip(h)) {
                    Err(e) => Err(e),
                    Ok((vs, k)) => Ok((ValueModel::Mapping(vs), h + k)),
                },
            },
            Major::Tag => Err(DecodeError::UnexpectedMajorType),
            Major::Simple => match hv {
                HeaderValue::Num(v) => {
                    if v == 20 {
                        Ok((ValueModel::Bool(false), h))
                    } else if v == 21 {
                        Ok((ValueModel::Bool(true), h))
                    } else if v == 22 {
                        Ok((ValueModel::Null, h))
                    } else {
                        Err(DecodeError::UnexpectedMajorType)
                    }
                },
                HeaderValue::Indefinite => Err(DecodeError::MalformedHeader),
            },
        },
    }
}

/// What decoding the chunks of an indefinite-length string item of major
/// type `mt` yields: the concatenated payload and the bytes consumed,
/// break marker included.  Every chunk must be a definite-length string
/// of the same major type.
pub open spec fn spec_chunks(s: Seq<u8>, mt: Major) -> Result<(Seq<u8>, int), DecodeError>
    decreases s.len(), 1nat,
{
    if s.len() == 0 {
        Err(DecodeError::Io)
    } else if s[0] == BREAK_BYTE {
        Ok((Seq::empty(), 1))
    } else {
        match spec_header(s) {
            Err(e) => Err(e),
            Ok((m, hv, h)) => {
                if m != mt {
                    Err(DecodeError::UnexpectedMajorType)
                } else {
                    match hv {
                        HeaderValue::Indefinite => Err(DecodeError::MalformedHeader),
                        HeaderValue::Num(len) => {
                            if s.len() - h < len {
                                Err(DecodeError::Io)
                            } else {
                                match spec_chunks(s.skip(h + len), mt) {
                                    Err(e) => Err(e),
                                    Ok((rest, k)) => Ok(
                                        (s.subrange(h, h + len) + rest, h + len + k),
                                    ),
                                }
                            }
                        },
                    }
                }
            },
        }
    }
}

/// What decoding exactly `n` consecutive values yields: the values and
/// the bytes consumed.
pub open spec fn spec_elems(s: Seq<u8>, n: u64) -> Result<(Seq<ValueModel>, int), DecodeError>
    decreases s.len(), 1nat,
{
    if n == 0 {
        Ok((Seq::empty(), 0))
    } else {
        match spec_value(s) {
            Err(e) => Err(e),
            Ok((v, k)) => {
                if k < 1 || k > s.len() {
                    Err(DecodeError::Io)
                } else {
                    match spec_elems(s.skip(k), (n - 1) as u64) {
                        Err(e) => Err(e),
                        Ok((vs, j)) => Ok((seq![v] + vs, k + j)),
                    }
                }
            },
        }
    }
}

/// What decoding values up to a break marker yields: the values and the
/// bytes consumed, break marker included.
pub open spec fn spec_elems_indef(s: Seq<u8>) -> Result<(Seq<ValueModel>, int), DecodeError>
    decreases s.len(), 1nat,
{
    if s.len() == 0 {
        Err(DecodeError::Io)
    } else if s[0] == BREAK_BYTE {
        Ok((Seq::empty(), 1))
    } else {
        match spec_value(s) {
            Err(e) => Err(e),
            Ok((v, k)) => {
                if k < 1 || k > s.len() {
                    Err(DecodeError::Io)
                } else {
                    match spec_elems_indef(s.skip(k)) {
                        Err(e) => Err(e),
                        Ok((vs, j)) => Ok((seq![v] + vs, k + j)),
                    }
                }
            },
        }
    }
}

/// What decoding exactly `n` consecutive key/value pairs yields: the
/// pairs and the bytes consumed.  The declared count of a definite map
/// is the number of pairs, not of raw sub-items.
pub open spec fn spec_pairs(s: Seq<u8>, n: u64) -> Result<
    (Seq<(ValueModel, ValueModel)>, int),
    DecodeError,
>
    decreases s.len(), 1nat,
{
    if n == 0 {
        Ok((Seq::empty(), 0))
    } else {
        match spec_value(s) {
            Err(e) => Err(e),
            Ok((key, k1)) => {
                if k1 < 1 || k1 > s.len() {
                    Err(DecodeError::Io)
                } else {
                    match spec_value(s.skip(k1)) {
                        Err(e) => Err(e),
                        Ok((val, k2)) => {
                            if k2 < 1 || k2 > s.len() - k1 {
                                Err(DecodeError::Io)
                            } else {
                                match spec_pairs(s.skip(k1 + k2), (n - 1) as u64) {
                                    Err(e) => Err(e),
                                    Ok((vs, j)) => Ok((seq![(key, val)] + vs, k1 + k2 + j)),
                                }
                            }
                        },
                    }
                }
            },
        }
    }
}

/// What decoding key/value pairs up to a break marker yields: the pairs
/// and the bytes consumed, break marker included.  The break marker is
/// only legal at a pair boundary; after a key, a break byte is a
/// malformed value.
pub open spec fn spec_pairs_indef(s: Seq<u8>) -> Result<
    (Seq<(ValueModel, ValueModel)>, int),
    DecodeError,
>
    decreases s.len(), 1nat,
{
    if s.len() == 0 {
        Err(DecodeError::Io)
    } else if s[0] == BREAK_BYTE {
        Ok((Seq::empty(), 1))
    } else {
        match spec_value(s) {
            Err(e) => Err(e),
            Ok((key, k1)) => {
                if k1 < 1 || k1 > s.len() {
                    Err(DecodeError::Io)
                } else {
                    match spec_value(s.skip(k1)) {
                        Err(e) => Err(e),
                        Ok((val, k2)) => {
                            if k2 < 1 || k2 > s.len() - k1 {
                                Err(DecodeError::Io)
                            } else {
                                match spec_pairs_indef(s.skip(k1 + k2)) {
                                    Err(e) => Err(e),
                                    Ok((vs, j)) => Ok((seq![(key, val)] + vs, k1 + k2 + j)),
                                }
                            }
                        },
                    }
                }
            },
        }
    }
}

/// Extending a prefix of a sequence by one element extends the
/// concatenated encoding by that element's encoding.
pub proof fn lemma_encode_seq_take_snoc(es: Seq<ValueModel>, i: int)
    requires
        0 <= i < es.len(),
    ensures
        spec_encode_seq(es.take(i + 1)) == spec_encode_seq(es.take(i)) + spec_encode(es[i]),
    decreases i,
{
    if i == 0 {
        assert(es.take(1) =~= seq![es[0]]);
        assert(seq![es[0]].drop_first() =~= Seq::<ValueModel>::empty());
        assert(es.take(0) =~= Seq::<ValueModel>::empty());
        assert(spec_encode(es[0]) + Seq::<u8>::empty() =~= spec_encode(es[0]));
        assert(Seq::<u8>::empty() + spec_encode(es[0]) =~= spec_encode(es[0]));
    } else {
        let tl = es.drop_first();
        lemma_encode_seq_take_snoc(tl, i - 1);
        assert(es.take(i + 1).drop_first() =~= tl.take(i));
        assert(es.take(i).drop_first() =~= tl.take(i - 1));
        assert(es.take(i + 1)[0] == es[0] && es.take(i)[0] == es[0]);
        assert(tl[i - 1] == es[i]);
        assert(spec_encode(es[0]) + (spec_encode_seq(tl.take(i - 1)) + spec_encode(es[i])) =~= (
        spec_encode(es[0]) + spec_encode_seq(tl.take(i - 1))) + spec_encode(es[i]));
    }
}

/// Extending a prefix of a pair sequence by one pair extends the
/// concatenated encoding by the key's and the value's encodings.
pub proof fn lemma_encode_pairs_take_snoc(ps: Seq<(ValueModel, ValueModel)>, i: int)
    requires
        0 <= i < ps.len(),
    ensures
        spec_encode_pairs(ps.take(i + 1)) == spec_encode_pairs(ps.take(i)) + spec_encode(ps[i].0)
            + spec_encode(ps[i].1),
    decreases i,
{
    if i == 0 {
        assert(ps.take(1) =~= seq![ps[0]]);
        assert(seq![ps[0]].drop_first() =~= Seq::<(ValueModel, ValueModel)>::empty());
        assert(ps.take(0) =~= Seq::<(ValueModel, ValueModel)>::empty());
        let k = spec_encode(ps[0].0);
        let v = spec_encode(ps[0].1);
        assert(k + v + Seq::<u8>::empty() =~= k + v);
        assert(Seq::<u8>::empty() + k + v =~= k + v);
    } else {
        let tl = ps.drop_first();
        lemma_encode_pairs_take_snoc(tl, i - 1);
        assert(ps.take(i + 1).drop_first() =~= tl.take(i));
        assert(ps.take(i).drop_first() =~= tl.take(i - 1));
        assert(ps.take(i + 1)[0] == ps[0] && ps.take(i)[0] == ps[0]);
        assert(tl[i - 1] == ps[i]);
        let hd = spec_encode(ps[0].0) + spec_encode(ps[0].1);
        let mid = spec_encode_pairs(tl.take(i - 1));
        let k = spec_encode(ps[i].0);
        let v = spec_encode(ps[i].1);
        assert(hd + (mid + k + v) =~= (hd + mid) + k + v);
    }
}

/// The encoding of a two-element array: the array header declaring two
/// items, then the two encodings in order.
pub proof fn lemma_encode_two(a: ValueModel, b: ValueModel)
    ensures
        spec_encode(ValueModel::Array(seq![a, b])) == header_bytes(Major::Array, 2) + spec_encode(a)
            + spec_encode(b),
{
    let q = seq![a, b];
    assert(q.drop_first() =~= seq![b]);
    assert(seq![b].drop_first() =~= Seq::<ValueModel>::empty());
    assert(spec_encode_seq(Seq::<ValueModel>::empty()) =~= Seq::<u8>::empty());
    assert(spec_encode_seq(seq![b]) =~= spec_encode(b));
    assert(spec_encode_seq(q) =~= spec_encode(a) + spec_encode(b));
    assert(header_bytes(Major::Array, 2) + (spec_encode(a) + spec_encode(b)) =~= header_bytes(
        Major::Array,
        2,
    ) + spec_encode(a) + spec_encode(b));
}

/// Every encoded value occupies at least one byte, and its first byte is
/// never the break marker.
pub proof fn lemma_encode_head(m: ValueModel)
    ensures
        spec_encode(m).len() >= 1,
        spec_encode(m)[0] != BREAK_BYTE,
{
    match m {
        ValueModel::Bool(b) => {
            crate::wire::lemma_header_head(Major::Simple, if b {
                21u64
            } else {
                20u64
            });
        },
        ValueModel::Unsigned(v) => {
            crate::wire::lemma_header_head(Major::Unsigned, v);
        },
        ValueModel::Negative(g) => {
            crate::wire::lemma_header_head(Major::Negative, g);
        },
        ValueModel::Bytes(b) => {
            crate::wire::lemma_header_head(Major::Bytes, b.len() as u64);
        },
        ValueModel::Text(t) => {
            crate::wire::lemma_header_head(Major::Text, encode_utf8(t).len() as u64);
        },
        ValueModel::Null => {
            crate::wire::lemma_header_head(Major::Simple, 22u64);
        },
        ValueModel::Array(es) => {
            crate::wire::lemma_header_head(Major::Array, es.len() as u64);
        },
        ValueModel::Mapping(ps) => {
            crate::wire::lemma_header_head(Major::Mapping, ps.len() as u64);
        },
    }
}

/// A successfully decoded value consumes at least one byte and never
/// more than the input supplies.
pub proof fn lemma_value_consumed(s: Seq<u8>)
    ensures
        spec_value(s) matches Ok(p) ==> 1 <= p.1 <= s.len(),
    decreases s.len(), 0nat,
{
    crate::wire::lemma_header_consumed(s);
    if let Ok((m, hv, h)) = spec_header(s) {
        match m {
            Major::Bytes | Major::Text => {
                if let HeaderValue::Indefinite = hv {
                    lemma_chunks_consumed(s.skip(h), m);
                }
            },
            Major::Array => match hv {
                HeaderValue::Num(n) => {
                    lemma_elems_consumed(s.skip(h), n);
                },
                HeaderValue::Indefinite => {
                    lemma_elems_indef_consumed(s.skip(h));
                },
            },
            Major::Mapping => match hv {
                HeaderValue::Num(n) => {
                    lemma_pairs_consumed(s.skip(h), n);
                },
                HeaderValue::Indefinite => {
                    lemma_pairs_indef_consumed(s.skip(h));
                },
            },
            _ => {},
        }
    }
}

/// Successfully decoded string chunks consume at least the break byte
/// and never more than the input supplies.
pub proof fn lemma_chunks_consumed(s: Seq<u8>, mt: Major)
    ensures
        spec_chunks(s, mt) matches Ok(p) ==> 1 <= p.1 <= s.len(),
    decreases s.len(), 1nat,
{
    if s.len() != 0 && s[0] != BREAK_BYTE {
        if let Ok((m, hv, h)) = spec_header(s) {
            if m == mt {
                if let HeaderValue::Num(len) = hv {
                    if s.len() - h >= len {
                        lemma_chunks_consumed(s.skip(h + len), mt);
                    }
                }
            }
        }
    }
}

/// Successfully decoded definite elements never consume more than the
/// input supplies.
pub proof fn lemma_elems_consumed(s: Seq<u8>, n: u64)
    ensures
        spec_elems(s, n) matches Ok(p) ==> 0 <= p.1 <= s.len(),
    decreases s.len(), 1nat,
{
    if n != 0 {
        lemma_value_consumed(s);
        if let Ok((v, k)) = spec_value(s) {
            if 1 <= k <= s.len() {
                lemma_elems_consumed(s.skip(k), (n - 1) as u64);
            }
        }
    }
}

/// Successfully decoded indefinite elements consume at least the break
/// byte and never more than the input supplies.
pub proof fn lemma_elems_indef_consumed(s: Seq<u8>)
    ensures
        spec_elems_indef(s) matches Ok(p) ==> 1 <= p.1 <= s.len(),
    decreases s.len(), 1nat,
{
    if s.len() != 0 && s[0] != BREAK_BYTE {
        lemma_value_consumed(s);
        if let Ok((v, k)) = spec_value(s) {
            if 1 <= k <= s.len() {
                lemma_elems_indef_consumed(s.skip(k));
            }
        }
    }
}

/// Successfully decoded definite pairs never consume more than the
/// input supplies.
pub proof fn lemma_pairs_consumed(s: Seq<u8>, n: u64)
    ensures
        spec_pairs(s, n) matches Ok(p) ==> 0 <= p.1 <= s.len(),
    decreases s.len(), 1nat,
{
    if n != 0 {
        lemma_value_consumed(s);
        if let Ok((key, k1)) = spec_value(s) {
            if 1 <= k1 <= s.len() {
                lemma_value_consumed(s.skip(k1));
                if let Ok((val, k2)) = spec_value(s.skip(k1)) {
                    if 1 <= k2 <= s.len() - k1 {
                        lemma_pairs_consumed(s.skip(k1 + k2), (n - 1) as u64);
                    }
                }
            }
        }
    }
}

/// Successfully decoded indefinite pairs consume at least the break
/// byte and never more than the input supplies.
pub proof fn lemma_pairs_indef_consumed(s: Seq<u8>)
    ensures
        spec_pairs_indef(s) matches Ok(p) ==> 1 <= p.1 <= s.len(),
    decreases s.len(), 1nat,
{
    if s.len() != 0 && s[0] != BREAK_BYTE {
        lemma_value_consumed(s);
        if let Ok((key, k1)) = spec_value(s) {
            if 1 <= k1 <= s.len() {
                lemma_value_consumed(s.skip(k1));
                if let Ok((val, k2)) = spec_value(s.skip(k1)) {
                    if 1 <= k2 <= s.len() - k1 {
                        lemma_pairs_indef_consumed(s.skip(k1 + k2));
                    }
                }
            }
        }
    }
}

/// Round trip: decoding the canonical encoding of any well-formed value,
/// whatever bytes follow it, yields exactly that value back and consumes
/// exactly its encoding.
#[verifier::rlimit(100)]
#[verifier::spinoff_prover]
pub proof fn lemma_round_trip(m: ValueModel, rest: Seq<u8>)
    requires
        model_wf(m),
    ensures
        spec_value(spec_encode(m) + rest) == Ok::<(ValueModel, int), DecodeError>(
            (m, spec_encode(m).len() as int),
        ),
    decreases m, 0nat,
{
    let s = spec_encode(m) + rest;
    match m {
        ValueModel::Bool(b) => {
            crate::wire::lemma_header_round_trip(Major::Simple, if b {
                21u64
            } else {
                20u64
            }, rest);
        },
        ValueModel::Unsigned(v) => {
            crate::wire::lemma_header_round_trip(Major::Unsigned, v, rest);
        },
        ValueModel::Negative(g) => {
            crate::wire::lemma_header_round_trip(Major::Negative, g, rest);
        },
        ValueModel::Null => {
            crate::wire::lemma_header_round_trip(Major::Simple, 22u64, rest);
        },
        ValueModel::Bytes(b) => {
            let hb = header_bytes(Major::Bytes, b.len() as u64);
            assert(s =~= hb + (b + rest));
            crate::wire::lemma_header_round_trip(Major::Bytes, b.len() as u64, b + rest);
            assert(s.subrange(hb.len() as int, (hb.len() + b.len()) as int) =~= b);
        },
        ValueModel::Text(t) => {
            let payload = encode_utf8(t);
            let hb = header_bytes(Major::Text, payload.len() as u64);
            assert(s =~= hb + (payload + rest));
            crate::wire::lemma_header_round_trip(Major::Text, payload.len() as u64, payload + rest);
            assert(s.subrange(hb.len() as int, (hb.len() + payload.len()) as int) =~= payload);
            vstd::utf8::encode_utf8_valid_utf8(t);
            vstd::utf8::encode_utf8_decode_utf8(t);
        },
        ValueModel::Array(es) => {
            let hb = header_bytes(Major::Array, es.len() as u64);
            assert(s =~= hb + (spec_encode_seq(es) + rest));
            crate::wire::lemma_header_round_trip(
                Major::Array,
                es.len() as u64,
                spec_encode_seq(es) + rest,
            );
            assert(s.skip(hb.len() as int) =~= spec_encode_seq(es) + rest);
            lemma_seq_round_trip(es, rest);
        },
        ValueModel::Mapping(ps) => {
            let hb = header_bytes(Major::Mapping, ps.len() as u64);
            assert(s =~= hb + (spec_encode_pairs(ps) + rest));
            crate::wire::lemma_header_round_trip(
                Major::Mapping,
                ps.len() as u64,
                spec_encode_pairs(ps) + rest,
            );
            assert(s.skip(hb.len() as int) =~= spec_encode_pairs(ps) + rest);
            lemma_pairs_round_trip(ps, rest);
        },
    }
}

/// Round trip for consecutive elements: decoding as many values as the
/// sequence holds from its concatenated encodings yields the sequence.
#[verifier::rlimit(100)]
#[verifier::spinoff_prover]
pub proof fn lemma_seq_round_trip(es: Seq<ValueModel>, rest: Seq<u8>)
    requires
        forall|i: int| 0 <= i < es.len() ==> model_wf(#[trigger] es[i]),
        es.len() <= u64::MAX,
    ensures
        spec_elems(spec_encode_seq(es) + rest, es.len() as u64) == Ok::<
            (Seq<ValueModel>, int),
            DecodeError,
        >((es, spec_encode_seq(es).len() as int)),
    decreases es, 1nat,
{
    if es.len() == 0 {
        assert(spec_encode_seq(es) + rest =~= rest);
        assert(es =~= Seq::<ValueModel>::empty());
    } else {
        let hd = es[0];
        let tl = es.drop_first();
        let s = spec_encode_seq(es) + rest;
        assert(s =~= spec_encode(hd) + (spec_encode_seq(tl) + rest));
        lemma_round_trip(hd, spec_encode_seq(tl) + rest);
        lemma_encode_head(hd);
        let k = spec_encode(hd).len() as int;
        assert(s.skip(k) =~= spec_encode_seq(tl) + rest);
        assert(forall|i: int| 0 <= i < tl.len() ==> model_wf(#[trigger] tl[i])) by {
            assert(forall|i: int| 0 <= i < tl.len() ==> tl[i] == es[i + 1]);
        }
        lemma_seq_round_trip(tl, rest);
        assert(seq![hd] + tl =~= es);
    }
}

/// Round trip for consecutive key/value pairs.
#[verifier::rlimit(100)]
#[verifier::spinoff_prover]
pub proof fn lemma_pairs_round_trip(ps: Seq<(ValueModel, ValueModel)>, rest: Seq<u8>)
    requires
        forall|i: int|
            0 <= i < ps.len() ==> model_wf(#[trigger] ps[i].0) && model_wf(ps[i].1),
        ps.len() <= u64::MAX,
    ensures
        spec_pairs(spec_encode_pairs(ps) + rest, ps.len() as u64) == Ok::<
            (Seq<(ValueModel, ValueModel)>, int),
            DecodeError,
        >((ps, spec_encode_pairs(ps).len() as int)),
    decreases ps, 1nat,
{
    if ps.len() == 0 {
        assert(spec_encode_pairs(ps) + rest =~= rest);
        assert(ps =~= Seq::<(ValueModel, ValueModel)>::empty());
    } else {
        let key = ps[0].0;
        let val = ps[0].1;
        let tl = ps.drop_first();
        let s = spec_encode_pairs(ps) + rest;
        assert(s =~= spec_encode(key) + (spec_encode(val) + (spec_encode_pairs(tl) + rest)));
        lemma_round_trip(key, spec_encode(val) + (spec_encode_pairs(tl) + rest));
        lemma_encode_head(key);
        let k1 = spec_encode(key).len() as int;
        assert(s.skip(k1) =~= spec_encode(val) + (spec_encode_pairs(tl) + rest));
        lemma_round_trip(val, spec_encode_pairs(tl) + rest);
        lemma_encode_head(val);
        let k2 = spec_encode(val).len() as int;
        assert(s.skip(k1 + k2) =~= spec_encode_pairs(tl) + rest) by {
            assert(s.skip(k1).skip(k2) =~= spec_encode_pairs(tl) + rest);
            vstd::seq_lib::lemma_seq_skip_of_skip(s, k1, k2);
        }
        assert(forall|i: int|
            0 <= i < tl.len() ==> model_wf(#[trigger] tl[i].0) && model_wf(tl[i].1)) by {
            assert(forall|i: int| 0 <= i < tl.len() ==> tl[i] == ps[i + 1]);
        }
        lemma_pairs_round_trip(tl, rest);
        assert(seq![(key, val)] + tl =~= ps);
    }
}

/// Round trip for the elements of an indefinite-length array, up to and
/// including the break marker.
#[verifier::rlimit(100)]
#[verifier::spinoff_prover]
pub proof fn lemma_seq_indef_round_trip(es: Seq<ValueModel>, rest: Seq<u8>)
    requires
        forall|i: int| 0 <= i < es.len() ==> model_wf(#[trigger] es[i]),
    ensures
        spec_elems_indef(spec_encode_seq(es) + (seq![BREAK_BYTE] + rest)) == Ok::<
            (Seq<ValueModel>, int),
            DecodeError,
        >((es, spec_encode_seq(es).len() + 1int)),
    decreases es, 1nat,
{
    let s = spec_encode_seq(es) + (seq![BREAK_BYTE] + rest);
    if es.len() == 0 {
        assert(s =~= seq![BREAK_BYTE] + rest);
        assert(s[0] == BREAK_BYTE);
        assert(es =~= Seq::<ValueModel>::empty());
    } else {
        let hd = es[0];
        let tl = es.drop_first();
        assert(s =~= spec_encode(hd) + (spec_encode_seq(tl) + (seq![BREAK_BYTE] + rest)));
        lemma_encode_head(hd);
        assert(s[0] == spec_encode(hd)[0]);
        lemma_round_trip(hd, spec_encode_seq(tl) + (seq![BREAK_BYTE] + rest));
        let k = spec_encode(hd).len() as int;
        assert(s.skip(k) =~= spec_encode_seq(tl) + (seq![BREAK_BYTE] + rest));
        assert(forall|i: int| 0 <= i < tl.len() ==> model_wf(#[trigger] tl[i])) by {
            assert(forall|i: int| 0 <= i < tl.len() ==> tl[i] == es[i + 1]);
        }
        lemma_seq_indef_round_trip(tl, rest);
        assert(seq![hd] + tl =~= es);
    }
}

/// Definite and indefinite framing are observationally equivalent: an
/// array of elements encoded with a declared count and the same elements
/// encoded with the indefinite form (terminated by the break marker)
/// decode to the same array value.
#[verifier::rlimit(100)]
#[verifier::spinoff_prover]
pub proof fn lemma_indefinite_definite_equiv(es: Seq<ValueModel>, rest: Seq<u8>)
    requires
        forall|i: int| 0 <= i < es.len() ==> model_wf(#[trigger] es[i]),
        es.len() <= u64::MAX,
    ensures
        spec_value(spec_encode(ValueModel::Array(es)) + rest) == Ok::<
            (ValueModel, int),
            DecodeError,
        >((ValueModel::Array(es), spec_encode(ValueModel::Array(es)).len() as int)),
        spec_value(spec_encode_array_indef(es) + rest) == Ok::<(ValueModel, int), DecodeError>(
            (ValueModel::Array(es), spec_encode_array_indef(es).len() as int),
        ),
{
    lemma_round_trip(ValueModel::Array(es), rest);
    let s = spec_encode_array_indef(es) + rest;
    assert(s =~= seq![indef_header_byte(Major::Array)] + (spec_encode_seq(es) + (seq![BREAK_BYTE]
        + rest)));
    crate::wire::lemma_indef_header_round_trip(
        Major::Array,
        spec_encode_seq(es) + (seq![BREAK_BYTE] + rest),
    );
    assert(s.skip(1) =~= spec_encode_seq(es) + (seq![BREAK_BYTE] + rest));
    lemma_seq_indef_round_trip(es, rest);
}


/// Round trip for the pairs of an indefinite-length map, up to and
/// including the break marker.
#[verifier::rlimit(100)]
#[verifier::spinoff_prover]
pub proof fn lemma_pairs_indef_round_trip(ps: Seq<(ValueModel, ValueModel)>, rest: Seq<u8>)
    requires
        forall|i: int|
            0 <= i < ps.len() ==> model_wf(#[trigger] ps[i].0) && model_wf(ps[i].1),
    ensures
        spec_pairs_indef(spec_encode_pairs(ps) + (seq![BREAK_BYTE] + rest)) == Ok::<
            (Seq<(ValueModel, ValueModel)>, int),
            DecodeError,
        >((ps, spec_encode_pairs(ps).len() + 1int)),
    decreases ps, 1nat,
{
    let s = spec_encode_pairs(ps) + (seq![BREAK_BYTE] + rest);
    if ps.len() == 0 {
        assert(s =~= seq![BREAK_BYTE] + rest);
        assert(s[0] == BREAK_BYTE);
        assert(ps =~= Seq::<(ValueModel, ValueModel)>::empty());
    } else {
        let key = ps[0].0;
        let val = ps[0].1;
        let tl = ps.drop_first();
        assert(s =~= spec_encode(key) + (spec_encode(val) + (spec_encode_pairs(tl) + (seq![
            BREAK_BYTE,
        ] + rest))));
        lemma_encode_head(key);
        assert(s[0] == spec_encode(key)[0]);
        lemma_round_trip(key, spec_encode(val) + (spec_encode_pairs(tl) + (seq![BREAK_BYTE]
            + rest)));
        let k1 = spec_encode(key).len() as int;
        assert(s.skip(k1) =~= spec_encode(val) + (spec_encode_pairs(tl) + (seq![BREAK_BYTE]
            + rest)));
        lemma_round_trip(val, spec_encode_pairs(tl) + (seq![BREAK_BYTE] + rest));
        lemma_encode_head(val);
        let k2 = spec_encode(val).len() as int;
        assert(s.skip(k1 + k2) =~= spec_encode_pairs(tl) + (seq![BREAK_BYTE] + rest)) by {
            assert(s.skip(k1).skip(k2) =~= spec_encode_pairs(tl) + (seq![BREAK_BYTE] + rest));
            vstd::seq_lib::lemma_seq_skip_of_skip(s, k1, k2);
        }
        assert(forall|i: int|
            0 <= i < tl.len() ==> model_wf(#[trigger] tl[i].0) && model_wf(tl[i].1)) by {
            assert(forall|i: int| 0 <= i < tl.len() ==> tl[i] == ps[i + 1]);
        }
        lemma_pairs_indef_round_trip(tl, rest);
        assert(seq![(key, val)] + tl =~= ps);
    }
}

/// Definite and indefinite framing are observationally equivalent for
/// maps as well: the same pairs decode to the same map value under
/// either framing.
#[verifier::rlimit(100)]
#[verifier::spinoff_prover]
pub proof fn lemma_mapping_indefinite_definite_equiv(
    ps: Seq<(ValueModel, ValueModel)>,
    rest: Seq<u8>,
)
    requires
        forall|i: int|
            0 <= i < ps.len() ==> model_wf(#[trigger] ps[i].0) && model_wf(ps[i].1),
        ps.len() <= u64::MAX,
    ensures
        spec_value(spec_encode(ValueModel::Mapping(ps)) + rest) == Ok::<
            (ValueModel, int),
            DecodeError,
        >((ValueModel::Mapping(ps), spec_encode(ValueModel::Mapping(ps)).len() as int)),
        spec_value(spec_encode_mapping_indef(ps) + rest) == Ok::<(ValueModel, int), DecodeError>(
            (ValueModel::Mapping(ps), spec_encode_mapping_indef(ps).len() as int),
        ),
{
    lemma_round_trip(ValueModel::Mapping(ps), rest);
    let s = spec_encode_mapping_indef(ps) + rest;
    assert(s =~= seq![indef_header_byte(Major::Mapping)] + (spec_encode_pairs(ps) + (seq![
        BREAK_BYTE,
    ] + rest)));
    crate::wire::lemma_indef_header_round_trip(
        Major::Mapping,
        spec_encode_pairs(ps) + (seq![BREAK_BYTE] + rest),
    );
    assert(s.skip(1) =~= spec_encode_pairs(ps) + (seq![BREAK_BYTE] + rest));
    lemma_pairs_indef_round_trip(ps, rest);
}

} // verus!
