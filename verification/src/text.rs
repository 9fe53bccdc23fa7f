//! UTF-8 validation of text-string payloads, and the bridge from
//! validated byte payloads to `String`.

use vstd::prelude::*;
use vstd::utf8::{
    decode_utf8, partial_valid_partial_invalid_utf8, partial_valid_utf8, partial_valid_utf8_extend,
    valid_first_scalar, valid_utf8,
};

verus! {

/// Checks whether `bytes` form a valid UTF-8 encoding: a sequence of
/// well-formed leading and continuation bytes, with overlong encodings
/// and surrogate codepoints rejected.
pub fn check_utf8(bytes: &[u8]) -> (r: bool)
    ensures
        r == valid_utf8(bytes@),
{
    let n = bytes.len();
    let mut i: usize = 0;
    while i < n
        invariant
            i <= n,
            n == bytes@.len(),
            partial_valid_utf8(bytes@, i as int),
        decreases n - i,
    {
        let ghost suffix = bytes@.subrange(i as int, n as int);
        let b0 = bytes[i];
        proof {
            assert(suffix[0] == bytes@[i as int]);
        }
        if b0 <= 0x7F {
            proof {
                assert(b0 & 0x7F <= 0x7F) by (bit_vector);
                assert(valid_first_scalar(suffix));
                partial_valid_utf8_extend(bytes@, i as int);
            }
            i = i + 1;
        } else if 0xC0 <= b0 && b0 <= 0xDF {
            if n - i < 2 {
                proof {
                    lemma_suffix_invalid(bytes@, i as int, suffix);
                }
                return false;
            }
            let b1 = bytes[i + 1];
            proof {
                assert(suffix[1] == bytes@[i + 1]);
            }
            if !(0x80 <= b1 && b1 <= 0xBF) {
                proof {
                    lemma_suffix_invalid(bytes@, i as int, suffix);
                }
                return false;
            }
            let cp: u32 = (((b0 & 0x1F) as u32) << 6) | ((b1 & 0x3F) as u32);
            if cp < 0x80 {
                proof {
                    lemma_suffix_invalid(bytes@, i as int, suffix);
                }
                return false;
            }
            proof {
                assert((((b0 & 0x1F) as u32) << 6) | ((b1 & 0x3F) as u32) <= 0x7FF) by (bit_vector);
                assert(valid_first_scalar(suffix));
                partial_valid_utf8_extend(bytes@, i as int);
            }
            i = i + 2;
        } else if 0xE0 <= b0 && b0 <= 0xEF {
            if n - i < 3 {
                proof {
                    lemma_suffix_invalid(bytes@, i as int, suffix);
                }
                return false;
            }
            let b1 = bytes[i + 1];
            let b2 = bytes[i + 2];
            proof {
                assert(suffix[1] == bytes@[i + 1] && suffix[2] == bytes@[i + 2]);
            }
            if !(0x80 <= b1 && b1 <= 0xBF) || !(0x80 <= b2 && b2 <= 0xBF) {
                proof {
                    lemma_suffix_invalid(bytes@, i as int, suffix);
                }
                return false;
            }
            let cp: u32 = (((b0 & 0x0F) as u32) << 12) | (((b1 & 0x3F) as u32) << 6) | ((b2
                & 0x3F) as u32);
            if cp < 0x800 || (0xD800 <= cp && cp <= 0xDFFF) {
                proof {
                    lemma_suffix_invalid(bytes@, i as int, suffix);
                }
                return false;
            }
            proof {
                assert(valid_first_scalar(suffix));
                partial_valid_utf8_extend(bytes@, i as int);
            }
            i = i + 3;
        } else if 0xF0 <= b0 && b0 <= 0xF7 {
            if n - i < 4 {
                proof {
                    lemma_suffix_invalid(bytes@, i as int, suffix);
                }
                return false;
            }
            let b1 = bytes[i + 1];
            let b2 = bytes[i + 2];
            let b3 = bytes[i + 3];
            proof {
                assert(suffix[1] == bytes@[i + 1] && suffix[2] == bytes@[i + 2] && suffix[3]
                    == bytes@[i + 3]);
            }
            if !(0x80 <= b1 && b1 <= 0xBF) || !(0x80 <= b2 && b2 <= 0xBF) || !(0x80 <= b3 && b3
                <= 0xBF) {
                proof {
                    lemma_suffix_invalid(bytes@, i as int, suffix);
                }
                return false;
            }
            let cp: u32 = (((b0 & 0x07) as u32) << 18) | (((b1 & 0x3F) as u32) << 12) | (((b2
                & 0x3F) as u32) << 6) | ((b3 & 0x3F) as u32);
            if cp < 0x10000 || cp > 0x10FFFF {
                proof {
                    lemma_suffix_invalid(bytes@, i as int, suffix);
                }
                return false;
            }
            proof {
                assert(valid_first_scalar(suffix));
                partial_valid_utf8_extend(bytes@, i as int);
            }
            i = i + 4;
        } else {
            proof {
                lemma_suffix_invalid(bytes@, i as int, suffix);
            }
            return false;
        }
    }
    proof {
        assert(bytes@.subrange(0, n as int) =~= bytes@);
    }
    true
}

/// A byte sequence with a valid prefix and a suffix that does not begin
/// with a well-formed scalar encoding is not valid UTF-8 as a whole.
proof fn lemma_suffix_invalid(bytes: Seq<u8>, i: int, suffix: Seq<u8>)
    requires
        0 <= i < bytes.len(),
        partial_valid_utf8(bytes, i),
        suffix == bytes.subrange(i, bytes.len() as int),
        !valid_first_scalar(suffix),
    ensures
        !valid_utf8(bytes),
{
    assert(!valid_utf8(suffix));
    partial_valid_partial_invalid_utf8(bytes, i);
}

/// Relies on `String::from_utf8`: building a `String` from bytes already
/// known to form valid UTF-8 cannot fail, and the resulting characters
/// are exactly what the bytes decode to.
#[verifier::external_body]
pub(crate) fn string_from_utf8(bytes: Vec<u8>) -> (s: String)
    requires
        valid_utf8(bytes@),
    ensures
        s@ == decode_utf8(bytes@),
{
    match String::from_utf8(bytes) {
        Ok(s) => s,
        Err(_) => String::new(),
    }
}

} // verus!
