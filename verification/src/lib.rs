//! A verified codec for a CBOR-style binary interchange format.
//!
//! Values (booleans, integers, strings, byte strings, arrays, maps and
//! sum-type variants) are encoded into a compact, self-describing byte
//! stream and decoded back, with canonical minimal-width integer headers
//! on encode and defensive validation on decode.

pub mod de;
pub mod error;
pub mod ser;
pub mod text;
pub mod value;
pub mod wire;
