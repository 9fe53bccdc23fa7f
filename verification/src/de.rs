//! The CBOR decoder: reads data items from an in-memory input buffer,
//! validating defensively and never reading past what an item demands.

use crate::error::DecodeError;
use crate::value::{
    lemma_chunks_consumed, lemma_elems_consumed, lemma_elems_indef_consumed,
    lemma_models_of_push, lemma_pair_models_of_push, lemma_pairs_consumed,
    lemma_pairs_indef_consumed, lemma_value_consumed, model_of, models_of, pair_models_of,
    spec_chunks, spec_elems, spec_elems_indef, spec_pairs, spec_pairs_indef, spec_value, Value,
    ValueModel,
};
use crate::wire::{
    be16_val, be32_val, be64_val, indefinite_legal, spec_header, HeaderValue, Major, BREAK_BYTE,
};
use vstd::prelude::*;

verus! {

/// What decoding an unsigned integer bounded by `max` from the front of
/// `s` yields: the value and the bytes consumed.  The major type must be
/// unsigned; a value above `max` is an overflow; an indefinite marker is
/// malformed here (or a legal composite opening of the wrong kind).
pub open spec fn spec_decode_unsigned(s: Seq<u8>, max: u64) -> Result<(u64, int), DecodeError> {
    match spec_header(s) {
        Err(e) => Err(e),
        Ok((m, hv, n)) => match hv {
            HeaderValue::Num(v) => {
                if m == Major::Unsigned {
                    if v <= max {
                        Ok((v, n))
                    } else {
                        Err(DecodeError::IntegerOverflow)
                    }
                } else {
                    Err(DecodeError::UnexpectedMajorType)
                }
            },
            HeaderValue::Indefinite => {
                if indefinite_legal(m) {
                    Err(DecodeError::UnexpectedMajorType)
                } else {
                    Err(DecodeError::MalformedHeader)
                }
            },
        },
    }
}

/// What decoding a signed integer from the front of `s` yields, for a
/// target width whose magnitudes may not exceed `max_mag` (`2^(W-1) - 1`):
/// an unsigned item's value `v` must satisfy `v <= max_mag` (else
/// overflow); a negative item's magnitude `m` reconstructs `-1 - m`,
/// which must not lie below `-max_mag - 1` (else underflow).
pub open spec fn spec_decode_signed(s: Seq<u8>, max_mag: u64) -> Result<(i64, int), DecodeError> {
    match spec_header(s) {
        Err(e) => Err(e),
        Ok((m, hv, n)) => match hv {
            HeaderValue::Num(v) => {
                if m == Major::Unsigned {
                    if v <= max_mag {
                        Ok((v as i64, n))
                    } else {
                        Err(DecodeError::IntegerOverflow)
                    }
                } else if m == Major::Negative {
                    if v <= max_mag {
                        Ok(((-1 - v as int) as i64, n))
                    } else {
                        Err(DecodeError::IntegerUnderflow)
                    }
                } else {
                    Err(DecodeError::UnexpectedMajorType)
                }
            },
            HeaderValue::Indefinite => {
                if indefinite_legal(m) {
                    Err(DecodeError::UnexpectedMajorType)
                } else {
                    Err(DecodeError::MalformedHeader)
                }
            },
        },
    }
}

/// What decoding a boolean from the front of `s` yields: exactly the
/// simple values false (info 20) and true (info 21).
pub open spec fn spec_decode_bool(s: Seq<u8>) -> Result<(bool, int), DecodeError> {
    match spec_header(s) {
        Err(e) => Err(e),
        Ok((m, hv, n)) => match hv {
            HeaderValue::Num(v) => {
                if m == Major::Simple && v == 20 {
                    Ok((false, n))
                } else if m == Major::Simple && v == 21 {
                    Ok((true, n))
                } else {
                    Err(DecodeError::UnexpectedMajorType)
                }
            },
            HeaderValue::Indefinite => {
                if indefinite_legal(m) {
                    Err(DecodeError::UnexpectedMajorType)
                } else {
                    Err(DecodeError::MalformedHeader)
                }
            },
        },
    }
}

/// What decoding null/unit from the front of `s` yields: the simple
/// value null (info 22), and the bytes consumed.
pub open spec fn spec_decode_null(s: Seq<u8>) -> Result<int, DecodeError> {
    match spec_header(s) {
        Err(e) => Err(e),
        Ok((m, hv, n)) => match hv {
            HeaderValue::Num(v) => {
                if m == Major::Simple && v == 22 {
                    Ok(n)
                } else {
                    Err(DecodeError::UnexpectedMajorType)
                }
            },
            HeaderValue::Indefinite => {
                if indefinite_legal(m) {
                    Err(DecodeError::UnexpectedMajorType)
                } else {
                    Err(DecodeError::MalformedHeader)
                }
            },
        },
    }
}

/// What decoding a raw byte string from the front of `s` yields: the
/// payload and the bytes consumed.  Definite lengths pull exactly that
/// many payload bytes; the indefinite form concatenates definite chunks
/// up to the break marker.
pub open spec fn spec_decode_bytes(s: Seq<u8>) -> Result<(Seq<u8>, int), DecodeError> {
    match spec_header(s) {
        Err(e) => Err(e),
        Ok((m, hv, h)) => {
            if m != Major::Bytes {
                match hv {
                    HeaderValue::Indefinite => {
                        if indefinite_legal(m) {
                            Err(DecodeError::UnexpectedMajorType)
                        } else {
                            Err(DecodeError::MalformedHeader)
                        }
                    },
                    HeaderValue::Num(_) => Err(DecodeError::UnexpectedMajorType),
                }
            } else {
                match hv {
                    HeaderValue::Num(len) => {
                        if s.len() - h < len {
                            Err(DecodeError::Io)
                        } else {
                            Ok((s.subrange(h, h + len), h + len))
                        }
                    },
                    HeaderValue::Indefinite => match spec_chunks(s.skip(h), Major::Bytes) {
                        Err(e) => Err(e),
                        Ok((payload, k)) => Ok((payload, h + k)),
                    },
                }
            }
        },
    }
}

/// What decoding a text string from the front of `s` yields: the
/// characters and the bytes consumed.  The payload (concatenated, for
/// the indefinite chunked form) must be valid UTF-8.
pub open spec fn spec_decode_text(s: Seq<u8>) -> Result<(Seq<char>, int), DecodeError> {
    match spec_header(s) {
        Err(e) => Err(e),
        Ok((m, hv, h)) => {
            if m != Major::Text {
                match hv {
                    HeaderValue::Indefinite => {
                        if indefinite_legal(m) {
                            Err(DecodeError::UnexpectedMajorType)
                        } else {
                            Err(DecodeError::MalformedHeader)
                        }
                    },
                    HeaderValue::Num(_) => Err(DecodeError::UnexpectedMajorType),
                }
            } else {
                match hv {
                    HeaderValue::Num(len) => {
                        if s.len() - h < len {
                            Err(DecodeError::Io)
                        } else {
                            let payload = s.subrange(h, h + len);
                            if vstd::utf8::valid_utf8(payload) {
                                Ok((vstd::utf8::decode_utf8(payload), h + len))
                            } else {
                                Err(DecodeError::InvalidUtf8)
                            }
                        }
                    },
                    HeaderValue::Indefinite => match spec_chunks(s.skip(h), Major::Text) {
                        Err(e) => Err(e),
                        Ok((payload, k)) => {
                            if vstd::utf8::valid_utf8(payload) {
                                Ok((vstd::utf8::decode_utf8(payload), h + k))
                            } else {
                                Err(DecodeError::InvalidUtf8)
                            }
                        },
                    },
                }
            }
        },
    }
}

/// What decoding the opening of a sum-type variant from the front of
/// `s` yields: the selector value and the bytes consumed.  A variant is
/// a definite-length array of exactly two items; an indefinite or
/// wrong-length array is a malformed variant, and so is a selector that
/// is neither an unsigned integer (ordinal) nor a text string (name).
/// The payload that follows is decoded by the caller against the shape
/// the selector implies.
pub open spec fn spec_variant_selector(s: Seq<u8>) -> Result<(ValueModel, int), DecodeError> {
    match spec_header(s) {
        Err(e) => Err(e),
        Ok((m, hv, h)) => {
            if m != Major::Array {
                Err(DecodeError::UnexpectedMajorType)
            } else {
                match hv {
                    HeaderValue::Indefinite => Err(DecodeError::MalformedVariant),
                    HeaderValue::Num(n) => {
                        if n != 2 {
                            Err(DecodeError::MalformedVariant)
                        } else {
                            match spec_value(s.skip(h)) {
                                Err(e) => Err(e),
                                Ok((sel, k)) => match sel {
                                    ValueModel::Unsigned(_) => Ok((sel, h + k)),
                                    ValueModel::Text(_) => Ok((sel, h + k)),
                                    _ => Err(DecodeError::MalformedVariant),
                                },
                            }
                        }
                    },
                }
            }
        },
    }
}

/// The decoder type; reads CBOR data items from an in-memory input
/// buffer through a cursor that only ever moves forward.
pub struct Decoder {
    data: Vec<u8>,
    pos: usize,
}

impl Decoder {
    /// Well-formedness: the cursor never passes the end of the input.
    pub closed spec fn wf(&self) -> bool {
        self.pos <= self.data@.len()
    }

    /// The bytes not yet consumed.
    pub closed spec fn remaining(&self) -> Seq<u8> {
        self.data@.skip(self.pos as int)
    }

    /// The whole input buffer; decoding never modifies it.
    pub closed spec fn source(&self) -> Seq<u8> {
        self.data@
    }

    /// Constructs a new decoder reading from the given bytes.
    pub fn new(source: Vec<u8>) -> (d: Decoder)
        ensures
            d.wf(),
            d.remaining() == source@,
    {
        let d = Decoder { data: source, pos: 0 };
        proof {
            assert(d.remaining() =~= d.data@);
        }
        d
    }

    /// How many bytes are left to read.
    pub fn remaining_len(&self) -> (n: usize)
        requires
            self.wf(),
        ensures
            n == self.remaining().len(),
    {
        self.data.len() - self.pos
    }

    /// Reads one byte; fails with `Io` if none is left.
    pub fn read_u8(&mut self) -> (r: Result<u8, DecodeError>)
        requires
            old(self).wf(),
        ensures
            final(self).wf(),
            final(self).source() == old(self).source(),
            old(self).remaining().len() == 0 ==> r == Err::<u8, DecodeError>(DecodeError::Io)
                && final(self).remaining() == old(self).remaining(),
            old(self).remaining().len() >= 1 ==> r == Ok::<u8, DecodeError>(
                old(self).remaining()[0],
            ) && final(self).remaining() == old(self).remaining().skip(1),
    {
        if self.pos >= self.data.len() {
            return Err(DecodeError::Io);
        }
        let b = self.data[self.pos];
        self.pos = self.pos + 1;
        proof {
            assert(self.remaining() =~= old(self).remaining().skip(1));
        }
        Ok(b)
    }

    /// Reads two big-endian bytes; fails with `Io` if fewer are left.
    pub fn read_u16(&mut self) -> (r: Result<u16, DecodeError>)
        requires
            old(self).wf(),
        ensures
            final(self).wf(),
            final(self).source() == old(self).source(),
            old(self).remaining().len() < 2 ==> r == Err::<u16, DecodeError>(DecodeError::Io)
                && final(self).remaining() == old(self).remaining(),
            old(self).remaining().len() >= 2 ==> r == Ok::<u16, DecodeError>(
                be16_val(old(self).remaining()[0], old(self).remaining()[1]),
            ) && final(self).remaining() == old(self).remaining().skip(2),
    {
        if self.data.len() - self.pos < 2 {
            return Err(DecodeError::Io);
        }
        let b0 = self.data[self.pos];
        let b1 = self.data[self.pos + 1];
        self.pos = self.pos + 2;
        proof {
            assert(self.remaining() =~= old(self).remaining().skip(2));
        }
        Ok(((b0 as u16) << 8) | (b1 as u16))
    }

    /// Reads four big-endian bytes; fails with `Io` if fewer are left.
    pub fn read_u32(&mut self) -> (r: Result<u32, DecodeError>)
        requires
            old(self).wf(),
        ensures
            final(self).wf(),
            final(self).source() == old(self).source(),
            old(self).remaining().len() < 4 ==> r == Err::<u32, DecodeError>(DecodeError::Io)
                && final(self).remaining() == old(self).remaining(),
            old(self).remaining().len() >= 4 ==> r == Ok::<u32, DecodeError>(
                be32_val(
                    old(self).remaining()[0],
                    old(self).remaining()[1],
                    old(self).remaining()[2],
                    old(self).remaining()[3],
                ),
            ) && final(self).remaining() == old(self).remaining().skip(4),
    {
        if self.data.len() - self.pos < 4 {
            return Err(DecodeError::Io);
        }
        let b0 = self.data[self.pos];
        let b1 = self.data[self.pos + 1];
        let b2 = self.data[self.pos + 2];
        let b3 = self.data[self.pos + 3];
        self.pos = self.pos + 4;
        proof {
            assert(self.remaining() =~= old(self).remaining().skip(4));
        }
        Ok(((b0 as u32) << 24) | ((b1 as u32) << 16) | ((b2 as u32) << 8) | (b3 as u32))
    }

    /// Reads eight big-endian bytes; fails with `Io` if fewer are left.
    pub fn read_u64(&mut self) -> (r: Result<u64, DecodeError>)
        requires
            old(self).wf(),
        ensures
            final(self).wf(),
            final(self).source() == old(self).source(),
            old(self).remaining().len() < 8 ==> r == Err::<u64, DecodeError>(DecodeError::Io)
                && final(self).remaining() == old(self).remaining(),
            old(self).remaining().len() >= 8 ==> r == Ok::<u64, DecodeError>(
                be64_val(
                    old(self).remaining()[0],
                    old(self).remaining()[1],
                    old(self).remaining()[2],
                    old(self).remaining()[3],
                    old(self).remaining()[4],
                    old(self).remaining()[5],
                    old(self).remaining()[6],
                    old(self).remaining()[7],
                ),
            ) && final(self).remaining() == old(self).remaining().skip(8),
    {
        if self.data.len() - self.pos < 8 {
            return Err(DecodeError::Io);
        }
        let b0 = self.data[self.pos];
        let b1 = self.data[self.pos + 1];
        let b2 = self.data[self.pos + 2];
        let b3 = self.data[self.pos + 3];
        let b4 = self.data[self.pos + 4];
        let b5 = self.data[self.pos + 5];
        let b6 = self.data[self.pos + 6];
        let b7 = self.data[self.pos + 7];
        self.pos = self.pos + 8;
        proof {
            assert(self.remaining() =~= old(self).remaining().skip(8));
        }
        Ok(
            ((b0 as u64) << 56) | ((b1 as u64) << 48) | ((b2 as u64) << 40) | ((b3 as u64) << 32)
                | ((b4 as u64) << 24) | ((b5 as u64) << 16) | ((b6 as u64) << 8) | (b7 as u64),
        )
    }

    /// Bounds-checks a raw magnitude against the target width's maximum
    /// and reconstructs the negative value `-1 - raw_value`; a magnitude
    /// above the bound means the value lies below the width's minimum.
    pub fn decode_signed_integer_with_bounds(raw_value: u64, upper_bound: u64) -> (r: Result<
        i64,
        DecodeError,
    >)
        requires
            upper_bound <= 0x7FFF_FFFF_FFFF_FFFF,
        ensures
            raw_value > upper_bound ==> r == Err::<i64, DecodeError>(DecodeError::IntegerUnderflow),
            raw_value <= upper_bound ==> r == Ok::<i64, DecodeError>(
                (-1 - raw_value as int) as i64,
            ),
    {
        if raw_value > upper_bound {
            Err(DecodeError::IntegerUnderflow)
        } else {
            Ok(-1 - (raw_value as i64))
        }
    }

    /// Reads one item header: the major type and the resolved value or
    /// indefinite marker, per [`spec_header`].  On failure the decoder is
    /// left exactly where it was.
    pub fn decode_header(&mut self) -> (r: Result<(Major, HeaderValue), DecodeError>)
        requires
            old(self).wf(),
        ensures
            final(self).wf(),
            final(self).source() == old(self).source(),
            match spec_header(old(self).remaining()) {
                Ok(h) => r == Ok::<_, DecodeError>((h.0, h.1)) && final(self).remaining() == old(
                    self,
                ).remaining().skip(h.2),
                Err(e) => r == Err::<(Major, HeaderValue), DecodeError>(e) && *final(self) == *old(
                    self,
                ),
            },
    {
        let n = self.data.len();
        if self.pos >= n {
            return Err(DecodeError::Io);
        }
        let b = self.data[self.pos];
        proof {
            assert(old(self).remaining()[0] == b);
        }
        let m = crate::wire::major_from_byte(b);
        let ai = b % 32;
        if ai < 24 {
            self.pos = self.pos + 1;
            proof {
                assert(self.remaining() =~= old(self).remaining().skip(1));
            }
            Ok((m, HeaderValue::Num(ai as u64)))
        } else if ai == 24 {
            if n - self.pos < 2 {
                return Err(DecodeError::Io);
            }
            let v = self.data[self.pos + 1];
            proof {
                assert(old(self).remaining()[1] == v);
            }
            self.pos = self.pos + 2;
            proof {
                assert(self.remaining() =~= old(self).remaining().skip(2));
            }
            Ok((m, HeaderValue::Num(v as u64)))
        } else if ai == 25 {
            if n - self.pos < 3 {
                return Err(DecodeError::Io);
            }
            let b0 = self.data[self.pos + 1];
            let b1 = self.data[self.pos + 2];
            proof {
                assert(old(self).remaining()[1] == b0 && old(self).remaining()[2] == b1);
            }
            self.pos = self.pos + 3;
            proof {
                assert(self.remaining() =~= old(self).remaining().skip(3));
            }
            let v = ((b0 as u16) << 8) | (b1 as u16);
            Ok((m, HeaderValue::Num(v as u64)))
        } else if ai == 26 {
            if n - self.pos < 5 {
                return Err(DecodeError::Io);
            }
            let b0 = self.data[self.pos + 1];
            let b1 = self.data[self.pos + 2];
            let b2 = self.data[self.pos + 3];
            let b3 = self.data[self.pos + 4];
            proof {
                assert(old(self).remaining()[1] == b0 && old(self).remaining()[2] == b1 && old(
                    self,
                ).remaining()[3] == b2 && old(self).remaining()[4] == b3);
            }
            self.pos = self.pos + 5;
            proof {
                assert(self.remaining() =~= old(self).remaining().skip(5));
            }
            let v = ((b0 as u32) << 24) | ((b1 as u32) << 16) | ((b2 as u32) << 8) | (b3 as u32);
            Ok((m, HeaderValue::Num(v as u64)))
        } else if ai == 27 {
            if n - self.pos < 9 {
                return Err(DecodeError::Io);
            }
            let b0 = self.data[self.pos + 1];
            let b1 = self.data[self.pos + 2];
            let b2 = self.data[self.pos + 3];
            let b3 = self.data[self.pos + 4];
            let b4 = self.data[self.pos + 5];
            let b5 = self.data[self.pos + 6];
            let b6 = self.data[self.pos + 7];
            let b7 = self.data[self.pos + 8];
            proof {
                assert(old(self).remaining()[1] == b0 && old(self).remaining()[2] == b1 && old(
                    self,
                ).remaining()[3] == b2 && old(self).remaining()[4] == b3 && old(
                    self,
                ).remaining()[5] == b4 && old(self).remaining()[6] == b5 && old(
                    self,
                ).remaining()[7] == b6 && old(self).remaining()[8] == b7);
            }
            self.pos = self.pos + 9;
            proof {
                assert(self.remaining() =~= old(self).remaining().skip(9));
            }
            let v = ((b0 as u64) << 56) | ((b1 as u64) << 48) | ((b2 as u64) << 40) | ((
            b3 as u64) << 32) | ((b4 as u64) << 24) | ((b5 as u64) << 16) | ((b6 as u64) << 8) | (
            b7 as u64);
            Ok((m, HeaderValue::Num(v)))
        } else if ai == 31 {
            self.pos = self.pos + 1;
            proof {
                assert(self.remaining() =~= old(self).remaining().skip(1));
            }
            Ok((m, HeaderValue::Indefinite))
        } else {
            Err(DecodeError::MalformedHeader)
        }
    }

    /// Decodes a boolean; accepts exactly the simple values false and
    /// true.  On failure the decoder is left exactly where it was.
    pub fn deserialize_bool(&mut self) -> (r: Result<bool, DecodeError>)
        requires
            old(self).wf(),
        ensures
            final(self).wf(),
            final(self).source() == old(self).source(),
            match spec_decode_bool(old(self).remaining()) {
                Ok(p) => r == Ok::<bool, DecodeError>(p.0) && final(self).remaining() == old(
                    self,
                ).remaining().skip(p.1),
                Err(e) => r == Err::<bool, DecodeError>(e) && final(self).remaining() == old(self).remaining(),
            },
    {
        let saved = self.pos;
        match self.decode_header() {
            Err(e) => Err(e),
            Ok((m, hv)) => match hv {
                HeaderValue::Num(v) => {
                    if m == Major::Simple && v == 20 {
                        Ok(false)
                    } else if m == Major::Simple && v == 21 {
                        Ok(true)
                    } else {
                        self.pos = saved;
                        proof {
                            assert(self.remaining() =~= old(self).remaining());
                        }
                        Err(DecodeError::UnexpectedMajorType)
                    }
                },
                HeaderValue::Indefinite => {
                    self.pos = saved;
                    proof {
                        assert(self.remaining() =~= old(self).remaining());
                    }
                    if crate::wire::indefinite_ok(m) {
                        Err(DecodeError::UnexpectedMajorType)
                    } else {
                        Err(DecodeError::MalformedHeader)
                    }
                },
            },
        }
    }

    /// Decodes null/unit; accepts exactly the simple value null.  On
    /// failure the decoder is left exactly where it was.
    pub fn deserialize_unit(&mut self) -> (r: Result<(), DecodeError>)
        requires
            old(self).wf(),
        ensures
            final(self).wf(),
            final(self).source() == old(self).source(),
            match spec_decode_null(old(self).remaining()) {
                Ok(n) => r == Ok::<(), DecodeError>(()) && final(self).remaining() == old(
                    self,
                ).remaining().skip(n),
                Err(e) => r == Err::<(), DecodeError>(e) && final(self).remaining() == old(self).remaining(),
            },
    {
        let saved = self.pos;
        match self.decode_header() {
            Err(e) => Err(e),
            Ok((m, hv)) => match hv {
                HeaderValue::Num(v) => {
                    if m == Major::Simple && v == 22 {
                        Ok(())
                    } else {
                        self.pos = saved;
                        proof {
                            assert(self.remaining() =~= old(self).remaining());
                        }
                        Err(DecodeError::UnexpectedMajorType)
                    }
                },
                HeaderValue::Indefinite => {
                    self.pos = saved;
                    proof {
                        assert(self.remaining() =~= old(self).remaining());
                    }
                    if crate::wire::indefinite_ok(m) {
                        Err(DecodeError::UnexpectedMajorType)
                    } else {
                        Err(DecodeError::MalformedHeader)
                    }
                },
            },
        }
    }

    /// Decodes an unsigned integer that must fit the given inclusive
    /// bound; shared engine for all unsigned target widths.
    fn decode_unsigned_bounded(&mut self, max: u64) -> (r: Result<u64, DecodeError>)
        requires
            old(self).wf(),
        ensures
            final(self).wf(),
            final(self).source() == old(self).source(),
            match spec_decode_unsigned(old(self).remaining(), max) {
                Ok(p) => r == Ok::<u64, DecodeError>(p.0) && final(self).remaining() == old(
                    self,
                ).remaining().skip(p.1),
                Err(e) => r == Err::<u64, DecodeError>(e) && final(self).remaining() == old(self).remaining(),
            },
    {
        let saved = self.pos;
        match self.decode_header() {
            Err(e) => Err(e),
            Ok((m, hv)) => match hv {
                HeaderValue::Num(v) => {
                    if m == Major::Unsigned {
                        if v <= max {
                            Ok(v)
                        } else {
                            self.pos = saved;
                            Err(DecodeError::IntegerOverflow)
                        }
                    } else {
                        self.pos = saved;
                        proof {
                            assert(self.remaining() =~= old(self).remaining());
                        }
                        Err(DecodeError::UnexpectedMajorType)
                    }
                },
                HeaderValue::Indefinite => {
                    self.pos = saved;
                    proof {
                        assert(self.remaining() =~= old(self).remaining());
                    }
                    if crate::wire::indefinite_ok(m) {
                        Err(DecodeError::UnexpectedMajorType)
                    } else {
                        Err(DecodeError::MalformedHeader)
                    }
                },
            },
        }
    }

    /// Decodes a signed integer whose magnitude (in either direction) may
    /// not exceed `max_mag`; shared engine for all signed target widths.
    fn decode_signed_bounded(&mut self, max_mag: u64) -> (r: Result<i64, DecodeError>)
        requires
            old(self).wf(),
            max_mag <= 0x7FFF_FFFF_FFFF_FFFF,
        ensures
            final(self).wf(),
            final(self).source() == old(self).source(),
            match spec_decode_signed(old(self).remaining(), max_mag) {
                Ok(p) => r == Ok::<i64, DecodeError>(p.0) && final(self).remaining() == old(
                    self,
                ).remaining().skip(p.1),
                Err(e) => r == Err::<i64, DecodeError>(e) && final(self).remaining() == old(self).remaining(),
            },
    {
        let saved = self.pos;
        match self.decode_header() {
            Err(e) => Err(e),
            Ok((m, hv)) => match hv {
                HeaderValue::Num(v) => {
                    if m == Major::Unsigned {
                        if v <= max_mag {
                            Ok(v as i64)
                        } else {
                            self.pos = saved;
                            Err(DecodeError::IntegerOverflow)
                        }
                    } else if m == Major::Negative {
                        match Decoder::decode_signed_integer_with_bounds(v, max_mag) {
                            Ok(x) => Ok(x),
                            Err(e) => {
                                self.pos = saved;
                                proof {
                                    assert(self.remaining() =~= old(self).remaining());
                                }
                                Err(e)
                            },
                        }
                    } else {
                        self.pos = saved;
                        proof {
                            assert(self.remaining() =~= old(self).remaining());
                        }
                        Err(DecodeError::UnexpectedMajorType)
                    }
                },
                HeaderValue::Indefinite => {
                    self.pos = saved;
                    proof {
                        assert(self.remaining() =~= old(self).remaining());
                    }
                    if crate::wire::indefinite_ok(m) {
                        Err(DecodeError::UnexpectedMajorType)
                    } else {
                        Err(DecodeError::MalformedHeader)
                    }
                },
            },
        }
    }

    /// Decodes an unsigned integer into an 8-bit target.
    pub fn deserialize_u8(&mut self) -> (r: Result<u8, DecodeError>)
        requires
            old(self).wf(),
        ensures
            final(self).wf(),
            final(self).source() == old(self).source(),
            match spec_decode_unsigned(old(self).remaining(), 0xFF) {
                Ok(p) => r == Ok::<u8, DecodeError>(p.0 as u8) && final(self).remaining() == old(
                    self,
                ).remaining().skip(p.1),
                Err(e) => r == Err::<u8, DecodeError>(e) && final(self).remaining() == old(self).remaining(),
            },
    {
        match self.decode_unsigned_bounded(0xFF) {
            Ok(v) => Ok(v as u8),
            Err(e) => Err(e),
        }
    }

    /// Decodes an unsigned integer into a 16-bit target.
    pub fn deserialize_u16(&mut self) -> (r: Result<u16, DecodeError>)
        requires
            old(self).wf(),
        ensures
            final(self).wf(),
            final(self).source() == old(self).source(),
            match spec_decode_unsigned(old(self).remaining(), 0xFFFF) {
                Ok(p) => r == Ok::<u16, DecodeError>(p.0 as u16) && final(self).remaining() == old(
                    self,
                ).remaining().skip(p.1),
                Err(e) => r == Err::<u16, DecodeError>(e) && final(self).remaining() == old(self).remaining(),
            },
    {
        match self.decode_unsigned_bounded(0xFFFF) {
            Ok(v) => Ok(v as u16),
            Err(e) => Err(e),
        }
    }

    /// Decodes an unsigned integer into a 32-bit target.
    pub fn deserialize_u32(&mut self) -> (r: Result<u32, DecodeError>)
        requires
            old(self).wf(),
        ensures
            final(self).wf(),
            final(self).source() == old(self).source(),
            match spec_decode_unsigned(old(self).remaining(), 0xFFFF_FFFF) {
                Ok(p) => r == Ok::<u32, DecodeError>(p.0 as u32) && final(self).remaining() == old(
                    self,
                ).remaining().skip(p.1),
                Err(e) => r == Err::<u32, DecodeError>(e) && final(self).remaining() == old(self).remaining(),
            },
    {
        match self.decode_unsigned_bounded(0xFFFF_FFFF) {
            Ok(v) => Ok(v as u32),
            Err(e) => Err(e),
        }
    }

    /// Decodes an unsigned integer into a 64-bit target.
    pub fn deserialize_u64(&mut self) -> (r: Result<u64, DecodeError>)
        requires
            old(self).wf(),
        ensures
            final(self).wf(),
            final(self).source() == old(self).source(),
            match spec_decode_unsigned(old(self).remaining(), 0xFFFF_FFFF_FFFF_FFFF) {
                Ok(p) => r == Ok::<u64, DecodeError>(p.0) && final(self).remaining() == old(
                    self,
                ).remaining().skip(p.1),
                Err(e) => r == Err::<u64, DecodeError>(e) && final(self).remaining() == old(self).remaining(),
            },
    {
        self.decode_unsigned_bounded(0xFFFF_FFFF_FFFF_FFFF)
    }

    /// Decodes a signed integer into an 8-bit target.
    pub fn deserialize_i8(&mut self) -> (r: Result<i8, DecodeError>)
        requires
            old(self).wf(),
        ensures
            final(self).wf(),
            final(self).source() == old(self).source(),
            match spec_decode_signed(old(self).remaining(), 0x7F) {
                Ok(p) => r == Ok::<i8, DecodeError>(p.0 as i8) && final(self).remaining() == old(
                    self,
                ).remaining().skip(p.1),
                Err(e) => r == Err::<i8, DecodeError>(e) && final(self).remaining() == old(self).remaining(),
            },
    {
        match self.decode_signed_bounded(0x7F) {
            Ok(v) => Ok(v as i8),
            Err(e) => Err(e),
        }
    }

    /// Decodes a signed integer into a 16-bit target.
    pub fn deserialize_i16(&mut self) -> (r: Result<i16, DecodeError>)
        requires
            old(self).wf(),
        ensures
            final(self).wf(),
            final(self).source() == old(self).source(),
            match spec_decode_signed(old(self).remaining(), 0x7FFF) {
                Ok(p) => r == Ok::<i16, DecodeError>(p.0 as i16) && final(self).remaining() == old(
                    self,
                ).remaining().skip(p.1),
                Err(e) => r == Err::<i16, DecodeError>(e) && final(self).remaining() == old(self).remaining(),
            },
    {
        match self.decode_signed_bounded(0x7FFF) {
            Ok(v) => Ok(v as i16),
            Err(e) => Err(e),
        }
    }

    /// Decodes a signed integer into a 32-bit target.
    pub fn deserialize_i32(&mut self) -> (r: Result<i32, DecodeError>)
        requires
            old(self).wf(),
        ensures
            final(self).wf(),
            final(self).source() == old(self).source(),
            match spec_decode_signed(old(self).remaining(), 0x7FFF_FFFF) {
                Ok(p) => r == Ok::<i32, DecodeError>(p.0 as i32) && final(self).remaining() == old(
                    self,
                ).remaining().skip(p.1),
                Err(e) => r == Err::<i32, DecodeError>(e) && final(self).remaining() == old(self).remaining(),
            },
    {
        match self.decode_signed_bounded(0x7FFF_FFFF) {
            Ok(v) => Ok(v as i32),
            Err(e) => Err(e),
        }
    }

    /// Decodes a signed integer into a 64-bit target.
    pub fn deserialize_i64(&mut self) -> (r: Result<i64, DecodeError>)
        requires
            old(self).wf(),
        ensures
            final(self).wf(),
            final(self).source() == old(self).source(),
            match spec_decode_signed(old(self).remaining(), 0x7FFF_FFFF_FFFF_FFFF) {
                Ok(p) => r == Ok::<i64, DecodeError>(p.0) && final(self).remaining() == old(
                    self,
                ).remaining().skip(p.1),
                Err(e) => r == Err::<i64, DecodeError>(e) && final(self).remaining() == old(self).remaining(),
            },
    {
        self.decode_signed_bounded(0x7FFF_FFFF_FFFF_FFFF)
    }

    /// Appends exactly `len` bytes from the input to `acc`.
    fn read_exact_append(&mut self, acc: &mut Vec<u8>, len: usize)
        requires
            old(self).wf(),
            len <= old(self).remaining().len(),
        ensures
            final(self).wf(),
            final(self).source() == old(self).source(),
            final(acc)@ == old(acc)@ + old(self).remaining().subrange(0, len as int),
            final(self).remaining() == old(self).remaining().skip(len as int),
    {
        let mut j: usize = 0;
        while j < len
            invariant
                self.wf(),
                self.source() == old(self).source(),
                j <= len,
                len <= old(self).remaining().len(),
                self.remaining() == old(self).remaining().skip(j as int),
                acc@ == old(acc)@ + old(self).remaining().subrange(0, j as int),
            decreases len - j,
        {
            let ghost cur = self.remaining();
            proof {
                assert(self.remaining().len() == old(self).remaining().len() - j);
                assert(self.pos < self.data.len());
            }
            let b = self.data[self.pos];
            proof {
                assert(cur[0] == b);
            }
            acc.push(b);
            self.pos = self.pos + 1;
            j = j + 1;
            proof {
                assert(self.remaining() =~= cur.skip(1));
                assert(cur.skip(1) =~= old(self).remaining().skip(j as int));
                assert(acc@ =~= old(acc)@ + old(self).remaining().subrange(0, j as int));
            }
        }
    }

    /// Reads the chunks of an indefinite-length string item of major
    /// type `mt`, appending each payload to `acc`, up to and including
    /// the break marker.  Every chunk must be a definite-length string
    /// of the same major type.
    #[verifier::rlimit(100)]
    #[verifier::spinoff_prover]
    fn read_chunks_append(&mut self, mt: Major, acc: &mut Vec<u8>) -> (r: Result<(), DecodeError>)
        requires
            old(self).wf(),
        ensures
            final(self).wf(),
            final(self).source() == old(self).source(),
            match spec_chunks(old(self).remaining(), mt) {
                Ok(p) => r == Ok::<(), DecodeError>(()) && final(acc)@ == old(acc)@ + p.0 && final(self).remaining() == old(self).remaining().skip(p.1),
                Err(e) => r == Err::<(), DecodeError>(e),
            },
        decreases old(self).remaining().len(), 1nat,
    {
        let ghost orig = old(self).remaining();
        let ghost orig_acc = old(acc)@;
        let ghost mut c: int = 0;
        let ghost mut collected: Seq<u8> = Seq::empty();
        proof {
            assert(acc@ =~= orig_acc + collected);
            match spec_chunks(orig, mt) {
                Ok(p) => {
                    assert(collected + p.0 =~= p.0);
                },
                Err(_) => {},
            }
        }
        loop
            invariant
                self.wf(),
                self.source() == old(self).source(),
                orig == old(self).remaining(),
                orig_acc == old(acc)@,
                0 <= c <= orig.len(),
                self.remaining() == orig.skip(c),
                acc@ == orig_acc + collected,
                spec_chunks(orig, mt) == (match spec_chunks(self.remaining(), mt) {
                    Ok(p) => Ok::<(Seq<u8>, int), DecodeError>((collected + p.0, c + p.1)),
                    Err(e) => Err(e),
                }),
            decreases self.remaining().len(),
        {
            let ghost cur = self.remaining();
            let ghost collected0 = collected;
            if self.pos == self.data.len() {
                return Err(DecodeError::Io);
            }
            let b = self.data[self.pos];
            proof {
                assert(cur[0] == b);
            }
            if b == BREAK_BYTE {
                self.pos = self.pos + 1;
                proof {
                    assert(self.remaining() =~= cur.skip(1));
                    assert(cur.skip(1) =~= orig.skip(c + 1));
                    assert(collected + Seq::<u8>::empty() =~= collected);
                }
                return Ok(());
            }
            match self.decode_header() {
                Err(e) => {
                    return Err(e);
                },
                Ok((m, hv)) => {
                    if !(m == mt) {
                        return Err(DecodeError::UnexpectedMajorType);
                    }
                    match hv {
                        HeaderValue::Indefinite => {
                            return Err(DecodeError::MalformedHeader);
                        },
                        HeaderValue::Num(len) => {
                            proof {
                                crate::wire::lemma_header_consumed(cur);
                            }
                            let rem = self.data.len() - self.pos;
                            if (rem as u64) < len {
                                proof {
                                    assert(self.remaining().len() == cur.len() - spec_header(
                                        cur,
                                    )->Ok_0.2);
                                }
                                return Err(DecodeError::Io);
                            }
                            self.read_exact_append(acc, len as usize);
                            proof {
                                if let Ok((m0, hv0, h)) = spec_header(cur) {
                                    let chunk = cur.subrange(h, h + len as int);
                                    assert(cur.skip(h).subrange(0, len as int) =~= chunk);
                                    assert(cur.skip(h).skip(len as int) =~= cur.skip(
                                        h + len as int,
                                    ));
                                    assert(self.remaining() =~= cur.skip(h + len as int));
                                    assert(cur.skip(h + len as int) =~= orig.skip(
                                        c + h + len as int,
                                    ));
                                    collected = collected + chunk;
                                    c = c + h + len as int;
                                    assert(acc@ =~= orig_acc + collected);
                                    match spec_chunks(self.remaining(), mt) {
                                        Ok(p2) => {
                                            assert(collected0 + (chunk + p2.0) =~= collected
                                                + p2.0);
                                        },
                                        Err(_) => {},
                                    }
                                }
                            }
                        },
                    }
                },
            }
        }
    }

    /// Decodes exactly `n` consecutive values.
    #[verifier::rlimit(100)]
    #[verifier::spinoff_prover]
    fn decode_elems(&mut self, n: u64) -> (r: Result<Vec<Value>, DecodeError>)
        requires
            old(self).wf(),
        ensures
            final(self).wf(),
            final(self).source() == old(self).source(),
            match spec_elems(old(self).remaining(), n) {
                Ok(p) => r matches Ok(vs) && models_of(vs@) == p.0 && final(self).remaining()
                    == old(self).remaining().skip(p.1),
                Err(e) => r == Err::<Vec<Value>, DecodeError>(e),
            },
        decreases old(self).remaining().len(), 1nat,
    {
        let ghost orig = old(self).remaining();
        let mut acc: Vec<Value> = Vec::new();
        let ghost mut c: int = 0;
        let mut i: u64 = 0;
        proof {
            match spec_elems(orig, n) {
                Ok(p) => {
                    assert(models_of(acc@) + p.0 =~= p.0);
                },
                Err(_) => {},
            }
        }
        while i < n
            invariant
                self.wf(),
                self.source() == old(self).source(),
                orig == old(self).remaining(),
                i <= n,
                0 <= c <= orig.len(),
                self.remaining() == orig.skip(c),
                spec_elems(orig, n) == (match spec_elems(self.remaining(), (n - i) as u64) {
                    Ok(p) => Ok::<(Seq<ValueModel>, int), DecodeError>(
                        (models_of(acc@) + p.0, c + p.1),
                    ),
                    Err(e) => Err(e),
                }),
            decreases n - i,
        {
            let ghost cur = self.remaining();
            let ghost acc0 = acc@;
            match self.decode_value() {
                Err(e) => {
                    return Err(e);
                },
                Ok(v) => {
                    proof {
                        lemma_value_consumed(cur);
                    }
                    acc.push(v);
                    i = i + 1;
                    proof {
                        if let Ok((mv, k)) = spec_value(cur) {
                            c = c + k;
                            assert(self.remaining() =~= cur.skip(k));
                            assert(cur.skip(k) =~= orig.skip(c));
                            lemma_models_of_push(acc0, v);
                            match spec_elems(self.remaining(), (n - i) as u64) {
                                Ok(p2) => {
                                    vstd::seq_lib::lemma_concat_associative(
                                        models_of(acc0),
                                        seq![mv],
                                        p2.0,
                                    );
                                },
                                Err(_) => {},
                            }
                        }
                    }
                },
            }
        }
        proof {
            assert(models_of(acc@) + Seq::<ValueModel>::empty() =~= models_of(acc@));
        }
        Ok(acc)
    }

    /// Decodes values up to a break marker.
    #[verifier::rlimit(100)]
    #[verifier::spinoff_prover]
    fn decode_elems_indef(&mut self) -> (r: Result<Vec<Value>, DecodeError>)
        requires
            old(self).wf(),
        ensures
            final(self).wf(),
            final(self).source() == old(self).source(),
            match spec_elems_indef(old(self).remaining()) {
                Ok(p) => r matches Ok(vs) && models_of(vs@) == p.0 && final(self).remaining()
                    == old(self).remaining().skip(p.1),
                Err(e) => r == Err::<Vec<Value>, DecodeError>(e),
            },
        decreases old(self).remaining().len(), 1nat,
    {
        let ghost orig = old(self).remaining();
        let mut acc: Vec<Value> = Vec::new();
        let ghost mut c: int = 0;
        proof {
            match spec_elems_indef(orig) {
                Ok(p) => {
                    assert(models_of(acc@) + p.0 =~= p.0);
                },
                Err(_) => {},
            }
        }
        loop
            invariant
                self.wf(),
                self.source() == old(self).source(),
                orig == old(self).remaining(),
                0 <= c <= orig.len(),
                self.remaining() == orig.skip(c),
                spec_elems_indef(orig) == (match spec_elems_indef(self.remaining()) {
                    Ok(p) => Ok::<(Seq<ValueModel>, int), DecodeError>(
                        (models_of(acc@) + p.0, c + p.1),
                    ),
                    Err(e) => Err(e),
                }),
            decreases self.remaining().len(),
        {
            let ghost cur = self.remaining();
            let ghost acc0 = acc@;
            if self.pos == self.data.len() {
                return Err(DecodeError::Io);
            }
            let b = self.data[self.pos];
            proof {
                assert(cur[0] == b);
            }
            if b == BREAK_BYTE {
                self.pos = self.pos + 1;
                proof {
                    assert(self.remaining() =~= cur.skip(1));
                    assert(cur.skip(1) =~= orig.skip(c + 1));
                    assert(models_of(acc@) + Seq::<ValueModel>::empty() =~= models_of(acc@));
                }
                return Ok(acc);
            }
            match self.decode_value() {
                Err(e) => {
                    return Err(e);
                },
                Ok(v) => {
                    proof {
                        lemma_value_consumed(cur);
                    }
                    acc.push(v);
                    proof {
                        if let Ok((mv, k)) = spec_value(cur) {
                            c = c + k;
                            assert(self.remaining() =~= cur.skip(k));
                            assert(cur.skip(k) =~= orig.skip(c));
                            lemma_models_of_push(acc0, v);
                            match spec_elems_indef(self.remaining()) {
                                Ok(p2) => {
                                    vstd::seq_lib::lemma_concat_associative(
                                        models_of(acc0),
                                        seq![mv],
                                        p2.0,
                                    );
                                },
                                Err(_) => {},
                            }
                        }
                    }
                },
            }
        }
    }

    /// Decodes exactly `n` consecutive key/value pairs.
    #[verifier::rlimit(100)]
    #[verifier::spinoff_prover]
    fn decode_pairs(&mut self, n: u64) -> (r: Result<Vec<(Value, Value)>, DecodeError>)
        requires
            old(self).wf(),
        ensures
            final(self).wf(),
            final(self).source() == old(self).source(),
            match spec_pairs(old(self).remaining(), n) {
                Ok(p) => r matches Ok(vs) && pair_models_of(vs@) == p.0 && final(self).remaining()
                    == old(self).remaining().skip(p.1),
                Err(e) => r == Err::<Vec<(Value, Value)>, DecodeError>(e),
            },
        decreases old(self).remaining().len(), 1nat,
    {
        let ghost orig = old(self).remaining();
        let mut acc: Vec<(Value, Value)> = Vec::new();
        let ghost mut c: int = 0;
        let mut i: u64 = 0;
        proof {
            match spec_pairs(orig, n) {
                Ok(p) => {
                    assert(pair_models_of(acc@) + p.0 =~= p.0);
                },
                Err(_) => {},
            }
        }
        while i < n
            invariant
                self.wf(),
                self.source() == old(self).source(),
                orig == old(self).remaining(),
                i <= n,
                0 <= c <= orig.len(),
                self.remaining() == orig.skip(c),
                spec_pairs(orig, n) == (match spec_pairs(self.remaining(), (n - i) as u64) {
                    Ok(p) => Ok::<(Seq<(ValueModel, ValueModel)>, int), DecodeError>(
                        (pair_models_of(acc@) + p.0, c + p.1),
                    ),
                    Err(e) => Err(e),
                }),
            decreases n - i,
        {
            let ghost cur = self.remaining();
            let ghost acc0 = acc@;
            match self.decode_value() {
                Err(e) => {
                    return Err(e);
                },
                Ok(key) => {
                    proof {
                        lemma_value_consumed(cur);
                    }
                    let ghost cur2 = self.remaining();
                    match self.decode_value() {
                        Err(e) => {
                            return Err(e);
                        },
                        Ok(val) => {
                            proof {
                                lemma_value_consumed(cur2);
                            }
                            acc.push((key, val));
                            i = i + 1;
                            proof {
                                if let Ok((mk, k1)) = spec_value(cur) {
                                    if let Ok((mval, k2)) = spec_value(cur2) {
                                        c = c + k1 + k2;
                                        assert(cur2 =~= cur.skip(k1));
                                        assert(k2 <= cur.len() - k1);
                                        assert(self.remaining() =~= cur2.skip(k2));
                                        assert(cur2.skip(k2) =~= cur.skip(k1 + k2));
                                        assert(cur.skip(k1 + k2) =~= orig.skip(c));
                                        lemma_pair_models_of_push(acc0, key, val);
                                        match spec_pairs(self.remaining(), (n - i) as u64) {
                                            Ok(p2) => {
                                                vstd::seq_lib::lemma_concat_associative(
                                                    pair_models_of(acc0),
                                                    seq![(mk, mval)],
                                                    p2.0,
                                                );
                                            },
                                            Err(_) => {},
                                        }
                                    }
                                }
                            }
                        },
                    }
                },
            }
        }
        proof {
            assert(pair_models_of(acc@) + Seq::<(ValueModel, ValueModel)>::empty()
                =~= pair_models_of(acc@));
        }
        Ok(acc)
    }

    /// Decodes key/value pairs up to a break marker; the break is only
    /// legal at a pair boundary.
    #[verifier::rlimit(100)]
    #[verifier::spinoff_prover]
    fn decode_pairs_indef(&mut self) -> (r: Result<Vec<(Value, Value)>, DecodeError>)
        requires
            old(self).wf(),
        ensures
            final(self).wf(),
            final(self).source() == old(self).source(),
            match spec_pairs_indef(old(self).remaining()) {
                Ok(p) => r matches Ok(vs) && pair_models_of(vs@) == p.0 && final(self).remaining()
                    == old(self).remaining().skip(p.1),
                Err(e) => r == Err::<Vec<(Value, Value)>, DecodeError>(e),
            },
        decreases old(self).remaining().len(), 1nat,
    {
        let ghost orig = old(self).remaining();
        let mut acc: Vec<(Value, Value)> = Vec::new();
        let ghost mut c: int = 0;
        proof {
            match spec_pairs_indef(orig) {
                Ok(p) => {
                    assert(pair_models_of(acc@) + p.0 =~= p.0);
                },
                Err(_) => {},
            }
        }
        loop
            invariant
                self.wf(),
                self.source() == old(self).source(),
                orig == old(self).remaining(),
                0 <= c <= orig.len(),
                self.remaining() == orig.skip(c),
                spec_pairs_indef(orig) == (match spec_pairs_indef(self.remaining()) {
                    Ok(p) => Ok::<(Seq<(ValueModel, ValueModel)>, int), DecodeError>(
                        (pair_models_of(acc@) + p.0, c + p.1),
                    ),
                    Err(e) => Err(e),
                }),
            decreases self.remaining().len(),
        {
            let ghost cur = self.remaining();
            let ghost acc0 = acc@;
            if self.pos == self.data.len() {
                return Err(DecodeError::Io);
            }
            let b = self.data[self.pos];
            proof {
                assert(cur[0] == b);
            }
            if b == BREAK_BYTE {
                self.pos = self.pos + 1;
                proof {
                    assert(self.remaining() =~= cur.skip(1));
                    assert(cur.skip(1) =~= orig.skip(c + 1));
                    assert(pair_models_of(acc@) + Seq::<(ValueModel, ValueModel)>::empty()
                        =~= pair_models_of(acc@));
                }
                return Ok(acc);
            }
            match self.decode_value() {
                Err(e) => {
                    return Err(e);
                },
                Ok(key) => {
                    proof {
                        lemma_value_consumed(cur);
                    }
                    let ghost cur2 = self.remaining();
                    match self.decode_value() {
                        Err(e) => {
                            return Err(e);
                        },
                        Ok(val) => {
                            proof {
                                lemma_value_consumed(cur2);
                            }
                            acc.push((key, val));
                            proof {
                                if let Ok((mk, k1)) = spec_value(cur) {
                                    if let Ok((mval, k2)) = spec_value(cur2) {
                                        c = c + k1 + k2;
                                        assert(cur2 =~= cur.skip(k1));
                                        assert(k2 <= cur.len() - k1);
                                        assert(self.remaining() =~= cur2.skip(k2));
                                        assert(cur2.skip(k2) =~= cur.skip(k1 + k2));
                                        assert(cur.skip(k1 + k2) =~= orig.skip(c));
                                        lemma_pair_models_of_push(acc0, key, val);
                                        match spec_pairs_indef(self.remaining()) {
                                            Ok(p2) => {
                                                vstd::seq_lib::lemma_concat_associative(
                                                    pair_models_of(acc0),
                                                    seq![(mk, mval)],
                                                    p2.0,
                                                );
                                            },
                                            Err(_) => {},
                                        }
                                    }
                                }
                            }
                        },
                    }
                },
            }
        }
    }

    /// Decodes one structured value: the top-level decode dispatcher.
    /// Reads one header, routes on the major type, and materializes the
    /// item, recursing through composites.  Decoding is all-or-nothing:
    /// the first failure aborts the whole traversal and is surfaced
    /// unchanged, and no byte beyond what the items demand is read.
    #[verifier::rlimit(100)]
    #[verifier::spinoff_prover]
    pub fn decode_value(&mut self) -> (r: Result<Value, DecodeError>)
        requires
            old(self).wf(),
        ensures
            final(self).wf(),
            final(self).source() == old(self).source(),
            match spec_value(old(self).remaining()) {
                Ok(p) => r matches Ok(v) && model_of(v) == p.0 && final(self).remaining() == old(
                    self,
                ).remaining().skip(p.1),
                Err(e) => r == Err::<Value, DecodeError>(e),
            },
        decreases old(self).remaining().len(), 0nat,
    {
        let ghost s0 = old(self).remaining();
        proof {
            crate::wire::lemma_header_consumed(s0);
        }
        match self.decode_header() {
            Err(e) => Err(e),
            Ok((m, hv)) => match m {
                Major::Unsigned => match hv {
                    HeaderValue::Num(v) => Ok(Value::Unsigned(v)),
                    HeaderValue::Indefinite => Err(DecodeError::MalformedHeader),
                },
                Major::Negative => match hv {
                    HeaderValue::Num(g) => Ok(Value::Negative(g)),
                    HeaderValue::Indefinite => Err(DecodeError::MalformedHeader),
                },
                Major::Bytes => match hv {
                    HeaderValue::Num(len) => {
                        let rem = self.data.len() - self.pos;
                        if (rem as u64) < len {
                            Err(DecodeError::Io)
                        } else {
                            let mut payload: Vec<u8> = Vec::new();
                            self.read_exact_append(&mut payload, len as usize);
                            proof {
                                if let Ok((m0, hv0, h)) = spec_header(s0) {
                                    assert(payload@ =~= s0.subrange(h, h + len as int));
                                    assert(self.remaining() =~= s0.skip(h + len as int));
                                }
                            }
                            Ok(Value::Bytes(payload))
                        }
                    },
                    HeaderValue::Indefinite => {
                        let mut payload: Vec<u8> = Vec::new();
                        match self.read_chunks_append(Major::Bytes, &mut payload) {
                            Err(e) => Err(e),
                            Ok(()) => {
                                proof {
                                    if let Ok((m0, hv0, h)) = spec_header(s0) {
                                        lemma_chunks_consumed(s0.skip(h), Major::Bytes);
                                        if let Ok((pl, k)) = spec_chunks(s0.skip(h), Major::Bytes) {
                                            vstd::seq_lib::lemma_seq_skip_of_skip(s0, h, k);
                                        }
                                    }
                                }
                                Ok(Value::Bytes(payload))
                            },
                        }
                    },
                },
                Major::Text => match hv {
                    HeaderValue::Num(len) => {
                        let rem = self.data.len() - self.pos;
                        if (rem as u64) < len {
                            Err(DecodeError::Io)
                        } else {
                            let mut payload: Vec<u8> = Vec::new();
                            self.read_exact_append(&mut payload, len as usize);
                            let ghost pv = payload@;
                            proof {
                                if let Ok((m0, hv0, h)) = spec_header(s0) {
                                    assert(pv =~= s0.subrange(h, h + len as int));
                                    assert(self.remaining() =~= s0.skip(h + len as int));
                                }
                            }
                            if crate::text::check_utf8(payload.as_slice()) {
                                let s = crate::text::string_from_utf8(payload);
                                Ok(Value::Text(s))
                            } else {
                                Err(DecodeError::InvalidUtf8)
                            }
                        }
                    },
                    HeaderValue::Indefinite => {
                        let mut payload: Vec<u8> = Vec::new();
                        match self.read_chunks_append(Major::Text, &mut payload) {
                            Err(e) => Err(e),
                            Ok(()) => {
                                let ghost pv = payload@;
                                proof {
                                    if let Ok((m0, hv0, h)) = spec_header(s0) {
                                        lemma_chunks_consumed(s0.skip(h), Major::Text);
                                        if let Ok((pl, k)) = spec_chunks(s0.skip(h), Major::Text) {
                                            vstd::seq_lib::lemma_seq_skip_of_skip(s0, h, k);
                                        }
                                    }
                                }
                                if crate::text::check_utf8(payload.as_slice()) {
                                    let s = crate::text::string_from_utf8(payload);
                                    Ok(Value::Text(s))
                                } else {
                                    Err(DecodeError::InvalidUtf8)
                                }
                            },
                        }
                    },
                },
                Major::Array => match hv {
                    HeaderValue::Num(n) => match self.decode_elems(n) {
                        Err(e) => Err(e),
                        Ok(vs) => {
                            proof {
                                if let Ok((m0, hv0, h)) = spec_header(s0) {
                                    lemma_elems_consumed(s0.skip(h), n);
                                    if let Ok((ms, k)) = spec_elems(s0.skip(h), n) {
                                        vstd::seq_lib::lemma_seq_skip_of_skip(s0, h, k);
                                    }
                                }
                            }
                            Ok(Value::Array(vs))
                        },
                    },
                    HeaderValue::Indefinite => match self.decode_elems_indef() {
                        Err(e) => Err(e),
                        Ok(vs) => {
                            proof {
                                if let Ok((m0, hv0, h)) = spec_header(s0) {
                                    lemma_elems_indef_consumed(s0.skip(h));
                                    if let Ok((ms, k)) = spec_elems_indef(s0.skip(h)) {
                                        vstd::seq_lib::lemma_seq_skip_of_skip(s0, h, k);
                                    }
                                }
                            }
                            Ok(Value::Array(vs))
                        },
                    },
                },
                Major::Mapping => match hv {
                    HeaderValue::Num(n) => match self.decode_pairs(n) {
                        Err(e) => Err(e),
                        Ok(vs) => {
                            proof {
                                if let Ok((m0, hv0, h)) = spec_header(s0) {
                                    lemma_pairs_consumed(s0.skip(h), n);
                                    if let Ok((ms, k)) = spec_pairs(s0.skip(h), n) {
                                        vstd::seq_lib::lemma_seq_skip_of_skip(s0, h, k);
                                    }
                                }
                            }
                            Ok(Value::Mapping(vs))
                        },
                    },
                    HeaderValue::Indefinite => match self.decode_pairs_indef() {
                        Err(e) => Err(e),
                        Ok(vs) => {
                            proof {
                                if let Ok((m0, hv0, h)) = spec_header(s0) {
                                    lemma_pairs_indef_consumed(s0.skip(h));
                                    if let Ok((ms, k)) = spec_pairs_indef(s0.skip(h)) {
                                        vstd::seq_lib::lemma_seq_skip_of_skip(s0, h, k);
                                    }
                                }
                            }
                            Ok(Value::Mapping(vs))
                        },
                    },
                },
                Major::Tag => Err(DecodeError::UnexpectedMajorType),
                Major::Simple => match hv {
                    HeaderValue::Num(v) => {
                        if v == 20 {
                            Ok(Value::Bool(false))
                        } else if v == 21 {
                            Ok(Value::Bool(true))
                        } else if v == 22 {
                            Ok(Value::Null)
                        } else {
                            Err(DecodeError::UnexpectedMajorType)
                        }
                    },
                    HeaderValue::Indefinite => Err(DecodeError::MalformedHeader),
                },
            },
        }
    }

    /// Decodes a raw byte string, definite or chunked-indefinite.
    pub fn deserialize_bytes(&mut self) -> (r: Result<Vec<u8>, DecodeError>)
        requires
            old(self).wf(),
        ensures
            final(self).wf(),
            final(self).source() == old(self).source(),
            match spec_decode_bytes(old(self).remaining()) {
                Ok(p) => r matches Ok(b) && b@ == p.0 && final(self).remaining() == old(
                    self,
                ).remaining().skip(p.1),
                Err(e) => r == Err::<Vec<u8>, DecodeError>(e),
            },
    {
        let ghost s0 = old(self).remaining();
        proof {
            crate::wire::lemma_header_consumed(s0);
        }
        match self.decode_header() {
            Err(e) => Err(e),
            Ok((m, hv)) => {
                if !(m == Major::Bytes) {
                    match hv {
                        HeaderValue::Indefinite => {
                            if crate::wire::indefinite_ok(m) {
                                Err(DecodeError::UnexpectedMajorType)
                            } else {
                                Err(DecodeError::MalformedHeader)
                            }
                        },
                        HeaderValue::Num(_) => Err(DecodeError::UnexpectedMajorType),
                    }
                } else {
                    match hv {
                        HeaderValue::Num(len) => {
                            let rem = self.data.len() - self.pos;
                            if (rem as u64) < len {
                                Err(DecodeError::Io)
                            } else {
                                let mut payload: Vec<u8> = Vec::new();
                                self.read_exact_append(&mut payload, len as usize);
                                proof {
                                    if let Ok((m0, hv0, h)) = spec_header(s0) {
                                        assert(payload@ =~= s0.subrange(h, h + len as int));
                                        assert(self.remaining() =~= s0.skip(h + len as int));
                                    }
                                }
                                Ok(payload)
                            }
                        },
                        HeaderValue::Indefinite => {
                            let mut payload: Vec<u8> = Vec::new();
                            match self.read_chunks_append(Major::Bytes, &mut payload) {
                                Err(e) => Err(e),
                                Ok(()) => {
                                    proof {
                                        if let Ok((m0, hv0, h)) = spec_header(s0) {
                                            lemma_chunks_consumed(s0.skip(h), Major::Bytes);
                                            if let Ok((pl, k)) = spec_chunks(
                                                s0.skip(h),
                                                Major::Bytes,
                                            ) {
                                                vstd::seq_lib::lemma_seq_skip_of_skip(s0, h, k);
                                            }
                                        }
                                    }
                                    Ok(payload)
                                },
                            }
                        },
                    }
                }
            },
        }
    }

    /// Decodes a text string, definite or chunked-indefinite; the
    /// payload must be valid UTF-8.
    pub fn deserialize_string(&mut self) -> (r: Result<String, DecodeError>)
        requires
            old(self).wf(),
        ensures
            final(self).wf(),
            final(self).source() == old(self).source(),
            match spec_decode_text(old(self).remaining()) {
                Ok(p) => r matches Ok(t) && t@ == p.0 && final(self).remaining() == old(
                    self,
                ).remaining().skip(p.1),
                Err(e) => r == Err::<String, DecodeError>(e),
            },
    {
        let ghost s0 = old(self).remaining();
        proof {
            crate::wire::lemma_header_consumed(s0);
        }
        match self.decode_header() {
            Err(e) => Err(e),
            Ok((m, hv)) => {
                if !(m == Major::Text) {
                    match hv {
                        HeaderValue::Indefinite => {
                            if crate::wire::indefinite_ok(m) {
                                Err(DecodeError::UnexpectedMajorType)
                            } else {
                                Err(DecodeError::MalformedHeader)
                            }
                        },
                        HeaderValue::Num(_) => Err(DecodeError::UnexpectedMajorType),
                    }
                } else {
                    match hv {
                        HeaderValue::Num(len) => {
                            let rem = self.data.len() - self.pos;
                            if (rem as u64) < len {
                                Err(DecodeError::Io)
                            } else {
                                let mut payload: Vec<u8> = Vec::new();
                                self.read_exact_append(&mut payload, len as usize);
                                let ghost pv = payload@;
                                proof {
                                    if let Ok((m0, hv0, h)) = spec_header(s0) {
                                        assert(pv =~= s0.subrange(h, h + len as int));
                                        assert(self.remaining() =~= s0.skip(h + len as int));
                                    }
                                }
                                if crate::text::check_utf8(payload.as_slice()) {
                                    Ok(crate::text::string_from_utf8(payload))
                                } else {
                                    Err(DecodeError::InvalidUtf8)
                                }
                            }
                        },
                        HeaderValue::Indefinite => {
                            let mut payload: Vec<u8> = Vec::new();
                            match self.read_chunks_append(Major::Text, &mut payload) {
                                Err(e) => Err(e),
                                Ok(()) => {
                                    let ghost pv = payload@;
                                    proof {
                                        if let Ok((m0, hv0, h)) = spec_header(s0) {
                                            lemma_chunks_consumed(s0.skip(h), Major::Text);
                                            if let Ok((pl, k)) = spec_chunks(
                                                s0.skip(h),
                                                Major::Text,
                                            ) {
                                                vstd::seq_lib::lemma_seq_skip_of_skip(s0, h, k);
                                            }
                                        }
                                    }
                                    if crate::text::check_utf8(payload.as_slice()) {
                                        Ok(crate::text::string_from_utf8(payload))
                                    } else {
                                        Err(DecodeError::InvalidUtf8)
                                    }
                                },
                            }
                        },
                    }
                }
            },
        }
    }

    /// Decodes an optional value: null materializes as `None`, any other
    /// value as `Some` of it.
    pub fn deserialize_option(&mut self) -> (r: Result<Option<Value>, DecodeError>)
        requires
            old(self).wf(),
        ensures
            final(self).wf(),
            final(self).source() == old(self).source(),
            match spec_value(old(self).remaining()) {
                Ok(p) => final(self).remaining() == old(self).remaining().skip(p.1) && (if p.0
                    == ValueModel::Null {
                    r == Ok::<Option<Value>, DecodeError>(None)
                } else {
                    r matches Ok(Some(v)) && model_of(v) == p.0
                }),
                Err(e) => r == Err::<Option<Value>, DecodeError>(e),
            },
    {
        match self.decode_value() {
            Err(e) => Err(e),
            Ok(Value::Null) => Ok(None),
            Ok(v) => Ok(Some(v)),
        }
    }

    /// Opens a sum-type variant: reads the two-item definite array
    /// header and the selector (an ordinal index or a name), leaving the
    /// cursor at the payload, which the caller decodes against the shape
    /// the selector implies.
    pub fn decode_variant_selector(&mut self) -> (r: Result<Value, DecodeError>)
        requires
            old(self).wf(),
        ensures
            final(self).wf(),
            final(self).source() == old(self).source(),
            match spec_variant_selector(old(self).remaining()) {
                Ok(p) => r matches Ok(sel) && model_of(sel) == p.0 && final(self).remaining()
                    == old(self).remaining().skip(p.1),
                Err(e) => r == Err::<Value, DecodeError>(e),
            },
    {
        let ghost s0 = old(self).remaining();
        proof {
            crate::wire::lemma_header_consumed(s0);
        }
        match self.decode_header() {
            Err(e) => Err(e),
            Ok((m, hv)) => {
                if !(m == Major::Array) {
                    return Err(DecodeError::UnexpectedMajorType);
                }
                match hv {
                    HeaderValue::Indefinite => Err(DecodeError::MalformedVariant),
                    HeaderValue::Num(n) => {
                        if n != 2 {
                            return Err(DecodeError::MalformedVariant);
                        }
                        match self.decode_value() {
                            Err(e) => Err(e),
                            Ok(sel) => {
                                proof {
                                    if let Ok((m0, hv0, h)) = spec_header(s0) {
                                        lemma_value_consumed(s0.skip(h));
                                        if let Ok((sm, k)) = spec_value(s0.skip(h)) {
                                            vstd::seq_lib::lemma_seq_skip_of_skip(s0, h, k);
                                        }
                                    }
                                }
                                match sel {
                                    Value::Unsigned(_) => Ok(sel),
                                    Value::Text(_) => Ok(sel),
                                    _ => Err(DecodeError::MalformedVariant),
                                }
                            },
                        }
                    },
                }
            },
        }
    }
}

/// Variant round trip: a variant encoded as the two-item array
/// `[ordinal selector, payload]` opens back to the same selector, and
/// the bytes that follow decode to the same payload.  In particular a
/// unit variant (null payload) decodes back to its selector with a null
/// payload.
#[verifier::rlimit(100)]
#[verifier::spinoff_prover]
pub proof fn lemma_variant_selector_round_trip(idx: u64, payload: ValueModel, rest: Seq<u8>)
    requires
        crate::value::model_wf(payload),
    ensures
        ({
            let m = ValueModel::Array(seq![ValueModel::Unsigned(idx), payload]);
            let s = crate::value::spec_encode(m) + rest;
            let sel_end = crate::wire::header_bytes(Major::Array, 2).len() + crate::value::spec_encode(
                ValueModel::Unsigned(idx),
            ).len();
            &&& spec_variant_selector(s) == Ok::<(ValueModel, int), DecodeError>(
                (ValueModel::Unsigned(idx), sel_end as int),
            )
            &&& spec_value(s.skip(sel_end as int)) == Ok::<(ValueModel, int), DecodeError>(
                (payload, crate::value::spec_encode(payload).len() as int),
            )
        }),
{
    let sel = ValueModel::Unsigned(idx);
    let m = ValueModel::Array(seq![sel, payload]);
    crate::value::lemma_encode_two(sel, payload);
    let s = crate::value::spec_encode(m) + rest;
    let hb = crate::wire::header_bytes(Major::Array, 2);
    assert(s =~= hb + (crate::value::spec_encode(sel) + (crate::value::spec_encode(payload)
        + rest)));
    crate::wire::lemma_header_round_trip(
        Major::Array,
        2,
        crate::value::spec_encode(sel) + (crate::value::spec_encode(payload) + rest),
    );
    assert(s.skip(hb.len() as int) =~= crate::value::spec_encode(sel) + (crate::value::spec_encode(
        payload,
    ) + rest));
    crate::value::lemma_round_trip(sel, crate::value::spec_encode(payload) + rest);
    let sel_end = hb.len() + crate::value::spec_encode(sel).len();
    assert(s.skip(sel_end as int) =~= crate::value::spec_encode(payload) + rest) by {
        vstd::seq_lib::lemma_seq_skip_of_skip(
            s,
            hb.len() as int,
            crate::value::spec_encode(sel).len() as int,
        );
    }
    crate::value::lemma_round_trip(payload, rest);
}

} // verus!
