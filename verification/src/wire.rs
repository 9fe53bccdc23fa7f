//! The wire-level model: major types, item headers, and the exact byte
//! sequences that encoded item headers occupy.
//!
//! Every data item starts with one byte holding a 3-bit major type and a
//! 5-bit additional-information field.  Additional information below 24 is
//! the item's length or value itself; 24 to 27 announce 1, 2, 4 or 8
//! big-endian extension bytes; 31 marks an indefinite length (or, with the
//! simple/float major type, the break marker); 28 to 30 are reserved.

use crate::error::DecodeError;
use vstd::prelude::*;

verus! {

/// The reserved byte (major type simple, additional info 31) that
/// terminates an indefinite-length composite.
pub const BREAK_BYTE: u8 = 0xFF;

/// The 3-bit top-level category of a wire item.
#[derive(Debug, Clone, Copy, PartialEq, Eq, Structural)]
pub enum Major {
    /// Major type 0: an unsigned integer, the value held in the header.
    Unsigned,
    /// Major type 1: a negative integer of value `-1 - magnitude`.
    Negative,
    /// Major type 2: a raw byte string with a length prefix.
    Bytes,
    /// Major type 3: a UTF-8 text string with a length prefix.
    Text,
    /// Major type 4: an array of data items.
    Array,
    /// Major type 5: a map of key/value data-item pairs.
    Mapping,
    /// Major type 6: a semantic tag (unused by this subset).
    Tag,
    /// Major type 7: simple values, floats, and the break marker.
    Simple,
}

/// The resolved content of a decoded item header: the direct or extended
/// length/value, or the indefinite-length / break marker.
#[derive(Debug, Clone, Copy, PartialEq, Eq, Structural)]
pub enum HeaderValue {
    /// A definite length or direct value.
    Num(u64),
    /// Additional information 31: indefinite length, or break.
    Indefinite,
}

/// The bit pattern a major type occupies in an item's first byte
/// (the major type's number shifted into the top three bits).
pub open spec fn major_bits(m: Major) -> u8 {
    match m {
        Major::Unsigned => 0x00,
        Major::Negative => 0x20,
        Major::Bytes => 0x40,
        Major::Text => 0x60,
        Major::Array => 0x80,
        Major::Mapping => 0xA0,
        Major::Tag => 0xC0,
        Major::Simple => 0xE0,
    }
}

/// The major type encoded in the top three bits of an item's first byte.
pub open spec fn major_of(b: u8) -> Major {
    if b < 0x20 {
        Major::Unsigned
    } else if b < 0x40 {
        Major::Negative
    } else if b < 0x60 {
        Major::Bytes
    } else if b < 0x80 {
        Major::Text
    } else if b < 0xA0 {
        Major::Array
    } else if b < 0xC0 {
        Major::Mapping
    } else if b < 0xE0 {
        Major::Tag
    } else {
        Major::Simple
    }
}

/// Exec mirror of [`major_bits`].
pub fn major_to_bits(m: Major) -> (b: u8)
    ensures
        b == major_bits(m),
{
    match m {
        Major::Unsigned => 0x00,
        Major::Negative => 0x20,
        Major::Bytes => 0x40,
        Major::Text => 0x60,
        Major::Array => 0x80,
        Major::Mapping => 0xA0,
        Major::Tag => 0xC0,
        Major::Simple => 0xE0,
    }
}

/// Exec mirror of [`major_of`].
pub fn major_from_byte(b: u8) -> (m: Major)
    ensures
        m == major_of(b),
{
    if b < 0x20 {
        Major::Unsigned
    } else if b < 0x40 {
        Major::Negative
    } else if b < 0x60 {
        Major::Bytes
    } else if b < 0x80 {
        Major::Text
    } else if b < 0xA0 {
        Major::Array
    } else if b < 0xC0 {
        Major::Mapping
    } else if b < 0xE0 {
        Major::Tag
    } else {
        Major::Simple
    }
}

/// The unsigned value carried by two big-endian bytes.
pub open spec fn be16_val(b0: u8, b1: u8) -> u16 {
    ((b0 as u16) << 8) | (b1 as u16)
}

/// The unsigned value carried by four big-endian bytes.
pub open spec fn be32_val(b0: u8, b1: u8, b2: u8, b3: u8) -> u32 {
    ((b0 as u32) << 24) | ((b1 as u32) << 16) | ((b2 as u32) << 8) | (b3 as u32)
}

/// The unsigned value carried by eight big-endian bytes.
pub open spec fn be64_val(b0: u8, b1: u8, b2: u8, b3: u8, b4: u8, b5: u8, b6: u8, b7: u8) -> u64 {
    ((b0 as u64) << 56) | ((b1 as u64) << 48) | ((b2 as u64) << 40) | ((b3 as u64) << 32) | ((
    b4 as u64) << 24) | ((b5 as u64) << 16) | ((b6 as u64) << 8) | (b7 as u64)
}

/// The canonical (minimal-width) header for major type `m` carrying the
/// length or value `v`: the tier bounds are closed intervals, so a value
/// of exactly 255 still uses the one-byte extended form.
pub open spec fn header_bytes(m: Major, v: u64) -> Seq<u8> {
    let mb = major_bits(m);
    if v < 24 {
        seq![(mb + v) as u8]
    } else if v <= 0xFF {
        seq![(mb + 24) as u8, (v & 0xFF) as u8]
    } else if v <= 0xFFFF {
        seq![(mb + 25) as u8, ((v >> 8) & 0xFF) as u8, (v & 0xFF) as u8]
    } else if v <= 0xFFFF_FFFF {
        seq![
            (mb + 26) as u8,
            ((v >> 24) & 0xFF) as u8,
            ((v >> 16) & 0xFF) as u8,
            ((v >> 8) & 0xFF) as u8,
            (v & 0xFF) as u8,
        ]
    } else {
        seq![
            (mb + 27) as u8,
            ((v >> 56) & 0xFF) as u8,
            ((v >> 48) & 0xFF) as u8,
            ((v >> 40) & 0xFF) as u8,
            ((v >> 32) & 0xFF) as u8,
            ((v >> 24) & 0xFF) as u8,
            ((v >> 16) & 0xFF) as u8,
            ((v >> 8) & 0xFF) as u8,
            (v & 0xFF) as u8,
        ]
    }
}

/// The number of bytes the canonical header for `v` occupies.
pub open spec fn header_len(v: u64) -> int {
    if v < 24 {
        1
    } else if v <= 0xFF {
        2
    } else if v <= 0xFFFF {
        3
    } else if v <= 0xFFFF_FFFF {
        5
    } else {
        9
    }
}

/// The one-byte header opening an indefinite-length item of major type `m`.
pub open spec fn indef_header_byte(m: Major) -> u8 {
    (major_bits(m) + 31) as u8
}

/// Whether the indefinite-length form is legal for this major type: only
/// byte strings, text strings, arrays and maps may omit their length.
pub open spec fn indefinite_legal(m: Major) -> bool {
    m == Major::Bytes || m == Major::Text || m == Major::Array || m == Major::Mapping
}

/// Exec mirror of [`indefinite_legal`].
pub fn indefinite_ok(m: Major) -> (b: bool)
    ensures
        b == indefinite_legal(m),
{
    m == Major::Bytes || m == Major::Text || m == Major::Array || m == Major::Mapping
}

/// What decoding one item header from the front of `s` yields: the major
/// type, the resolved value or the indefinite marker, and the number of
/// bytes the header occupies.  An empty or short input fails with `Io`;
/// the reserved additional-information values 28 to 30 fail with
/// `MalformedHeader`.  No byte beyond what the additional information
/// demands is examined.
pub open spec fn spec_header(s: Seq<u8>) -> Result<(Major, HeaderValue, int), DecodeError> {
    if s.len() == 0 {
        Err(DecodeError::Io)
    } else {
        let m = major_of(s[0]);
        let ai = s[0] % 32;
        if ai < 24 {
            Ok((m, HeaderValue::Num(ai as u64), 1))
        } else if ai == 24 {
            if s.len() < 2 {
                Err(DecodeError::Io)
            } else {
                Ok((m, HeaderValue::Num(s[1] as u64), 2))
            }
        } else if ai == 25 {
            if s.len() < 3 {
                Err(DecodeError::Io)
            } else {
                Ok((m, HeaderValue::Num(be16_val(s[1], s[2]) as u64), 3))
            }
        } else if ai == 26 {
            if s.len() < 5 {
                Err(DecodeError::Io)
            } else {
                Ok((m, HeaderValue::Num(be32_val(s[1], s[2], s[3], s[4]) as u64), 5))
            }
        } else if ai == 27 {
            if s.len() < 9 {
                Err(DecodeError::Io)
            } else {
                Ok(
                    (
                        m,
                        HeaderValue::Num(
                            be64_val(s[1], s[2], s[3], s[4], s[5], s[6], s[7], s[8]),
                        ),
                        9,
                    ),
                )
            }
        } else if ai == 31 {
            Ok((m, HeaderValue::Indefinite, 1))
        } else {
            Err(DecodeError::MalformedHeader)
        }
    }
}

/// A canonical header occupies at least one byte, and its first byte is
/// never the break marker (its additional information is at most 27).
pub proof fn lemma_header_head(m: Major, v: u64)
    ensures
        header_bytes(m, v).len() >= 1,
        header_bytes(m, v)[0] != BREAK_BYTE,
{
    assert(major_bits(m) <= 0xE0);
}

/// A successfully decoded header occupies between 1 and 9 bytes, and never
/// more than the input supplies.
pub proof fn lemma_header_consumed(s: Seq<u8>)
    ensures
        spec_header(s) matches Ok(h) ==> 1 <= h.2 <= 9 && h.2 <= s.len(),
{
}

/// Decoding the canonical header for `(m, v)`, whatever follows it, yields
/// exactly `m` and `v` back and consumes exactly the header.
pub proof fn lemma_header_round_trip(m: Major, v: u64, rest: Seq<u8>)
    ensures
        spec_header(header_bytes(m, v) + rest) == Ok::<_, DecodeError>(
            (m, HeaderValue::Num(v), header_len(v)),
        ),
        header_bytes(m, v).len() == header_len(v),
{
    let s = header_bytes(m, v) + rest;
    let mb = major_bits(m);
    assert(mb % 32 == 0 && mb <= 0xE0);
    if v < 24 {
        assert(s[0] == (mb + v) as u8);
        assert(major_of((mb + v) as u8) == m);
        assert(((mb + v) as u8) % 32 == v);
    } else if v <= 0xFF {
        assert(s[0] == (mb + 24) as u8 && s[1] == (v & 0xFF) as u8);
        assert(major_of((mb + 24) as u8) == m);
        assert(((mb + 24) as u8) % 32 == 24);
        assert(v <= 0xFF ==> ((v & 0xFF) as u8) as u64 == v) by (bit_vector);
    } else if v <= 0xFFFF {
        assert(s[0] == (mb + 25) as u8);
        assert(major_of((mb + 25) as u8) == m);
        assert(((mb + 25) as u8) % 32 == 25);
        let b0 = ((v >> 8) & 0xFF) as u8;
        let b1 = (v & 0xFF) as u8;
        assert(s[1] == b0 && s[2] == b1);
        assert(v <= 0xFFFF ==> (((((v >> 8) & 0xFF) as u8 as u16) << 8) | ((v & 0xFF) as u8 as u16))
            as u64 == v) by (bit_vector);
    } else if v <= 0xFFFF_FFFF {
        assert(s[0] == (mb + 26) as u8);
        assert(major_of((mb + 26) as u8) == m);
        assert(((mb + 26) as u8) % 32 == 26);
        assert(s[1] == ((v >> 24) & 0xFF) as u8 && s[2] == ((v >> 16) & 0xFF) as u8 && s[3] == ((v
            >> 8) & 0xFF) as u8 && s[4] == (v & 0xFF) as u8);
        assert(v <= 0xFFFF_FFFF ==> (((((v >> 24) & 0xFF) as u8 as u32) << 24) | ((((v >> 16)
            & 0xFF) as u8 as u32) << 16) | ((((v >> 8) & 0xFF) as u8 as u32) << 8) | ((v
            & 0xFF) as u8 as u32)) as u64 == v) by (bit_vector);
    } else {
        assert(s[0] == (mb + 27) as u8);
        assert(major_of((mb + 27) as u8) == m);
        assert(((mb + 27) as u8) % 32 == 27);
        assert(s[1] == ((v >> 56) & 0xFF) as u8 && s[2] == ((v >> 48) & 0xFF) as u8 && s[3] == ((v
            >> 40) & 0xFF) as u8 && s[4] == ((v >> 32) & 0xFF) as u8 && s[5] == ((v >> 24)
            & 0xFF) as u8 && s[6] == ((v >> 16) & 0xFF) as u8 && s[7] == ((v >> 8) & 0xFF) as u8
            && s[8] == (v & 0xFF) as u8);
        assert(((((v >> 56) & 0xFF) as u8 as u64) << 56) | ((((v >> 48) & 0xFF) as u8 as u64) << 48)
            | ((((v >> 40) & 0xFF) as u8 as u64) << 40) | ((((v >> 32) & 0xFF) as u8 as u64) << 32)
            | ((((v >> 24) & 0xFF) as u8 as u64) << 24) | ((((v >> 16) & 0xFF) as u8 as u64) << 16)
            | ((((v >> 8) & 0xFF) as u8 as u64) << 8) | ((v & 0xFF) as u8 as u64) == v) by (
        bit_vector);
    }
}

/// Decoding an indefinite-length opening header (or, for the simple/float
/// major type, the break marker) yields the indefinite marker and consumes
/// one byte.
pub proof fn lemma_indef_header_round_trip(m: Major, rest: Seq<u8>)
    ensures
        spec_header(seq![indef_header_byte(m)] + rest) == Ok::<_, DecodeError>(
            (m, HeaderValue::Indefinite, 1int),
        ),
{
    let s = seq![indef_header_byte(m)] + rest;
    let mb = major_bits(m);
    assert(s[0] == (mb + 31) as u8);
    assert(major_of((mb + 31) as u8) == m);
    assert(((mb + 31) as u8) % 32 == 31);
}

/// Minimal encoding: among all byte sequences that decode as a header
/// carrying the definite value `v`, the canonical header is shortest;
/// with [`lemma_header_round_trip`], the encoder's choice of tier is
/// therefore the shortest legal header-plus-extension form for `v`.
pub proof fn lemma_header_minimal(m: Major, v: u64, k: int, s: Seq<u8>)
    requires
        spec_header(s) == Ok::<(Major, HeaderValue, int), DecodeError>(
            (m, HeaderValue::Num(v), k),
        ),
    ensures
        header_bytes(m, v).len() <= k,
{
}

} // verus!
