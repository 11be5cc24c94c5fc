//! Big-endian integers and the sign-and-magnitude fields of GRIB2.

use vstd::prelude::*;
use crate::error::{text, text_number, with_number, DecodeError, DecodeFault};

verus! {

/// The big-endian 16-bit integer at `off`.
pub open spec fn be16(s: Seq<u8>, off: int) -> u16 {
    (s[off] as int * 256 + s[off + 1] as int) as u16
}

/// The big-endian 32-bit integer at `off`.
pub open spec fn be32(s: Seq<u8>, off: int) -> u32 {
    (s[off] as int * 16777216 + s[off + 1] as int * 65536 + s[off + 2] as int * 256
        + s[off + 3] as int) as u32
}

/// The big-endian 64-bit integer at `off`.
pub open spec fn be64(s: Seq<u8>, off: int) -> u64 {
    (be32(s, off) as int * 4294967296 + be32(s, off + 4) as int) as u64
}

/// The message of a read past the end of a section.
pub open spec fn read_past_end_msg(kind: Seq<char>, offset: nat) -> Seq<char> {
    kind + with_number(" read past end at offset "@, offset)
}

/// Reads a big-endian `u16` at `offset`.
pub fn be_u16(bytes: &[u8], offset: usize) -> (r: Result<u16, DecodeError>)
    requires
        offset <= usize::MAX - 2,
    ensures
        offset + 2 <= bytes@.len() ==> r == Ok::<u16, DecodeError>(be16(bytes@, offset as int)),
        offset + 2 > bytes@.len() ==> (r matches Err(e)
            && e@ == DecodeFault::Invalid(read_past_end_msg("u16"@, offset as nat))),
{
    if offset + 2 > bytes.len() {
        let mut m = text("u16");
        let rest = text_number(" read past end at offset ", offset as u64);
        crate::text::push_str(&mut m, rest.as_str());
        return Err(DecodeError::Invalid(m));
    }
    let v: u16 = bytes[offset] as u16 * 256 + bytes[offset + 1] as u16;
    Ok(v)
}

/// Reads a big-endian `u32` at `offset`.
pub fn be_u32(bytes: &[u8], offset: usize) -> (r: Result<u32, DecodeError>)
    requires
        offset <= usize::MAX - 4,
    ensures
        offset + 4 <= bytes@.len() ==> r == Ok::<u32, DecodeError>(be32(bytes@, offset as int)),
        offset + 4 > bytes@.len() ==> (r matches Err(e)
            && e@ == DecodeFault::Invalid(read_past_end_msg("u32"@, offset as nat))),
{
    if offset + 4 > bytes.len() {
        let mut m = text("u32");
        let rest = text_number(" read past end at offset ", offset as u64);
        crate::text::push_str(&mut m, rest.as_str());
        return Err(DecodeError::Invalid(m));
    }
    let v: u32 = bytes[offset] as u32 * 16777216 + bytes[offset + 1] as u32 * 65536
        + bytes[offset + 2] as u32 * 256 + bytes[offset + 3] as u32;
    Ok(v)
}

/// Reads a big-endian `u64` at `offset`.
pub fn be_u64(bytes: &[u8], offset: usize) -> (r: Result<u64, DecodeError>)
    requires
        offset <= usize::MAX - 8,
    ensures
        offset + 8 <= bytes@.len() ==> r == Ok::<u64, DecodeError>(be64(bytes@, offset as int)),
        offset + 8 > bytes@.len() ==> (r matches Err(e)
            && e@ == DecodeFault::Invalid(read_past_end_msg("u64"@, offset as nat))),
{
    if offset + 8 > bytes.len() {
        let mut m = text("u64");
        let rest = text_number(" read past end at offset ", offset as u64);
        crate::text::push_str(&mut m, rest.as_str());
        return Err(DecodeError::Invalid(m));
    }
    let high: u64 = bytes[offset] as u64 * 16777216 + bytes[offset + 1] as u64 * 65536
        + bytes[offset + 2] as u64 * 256 + bytes[offset + 3] as u64;
    let low: u64 = bytes[offset + 4] as u64 * 16777216 + bytes[offset + 5] as u64 * 65536
        + bytes[offset + 6] as u64 * 256 + bytes[offset + 7] as u64;
    Ok(high * 4294967296 + low)
}

/// The value of a 16-bit sign-and-magnitude field: the top bit is the sign,
/// the other bits the magnitude, and all bits set mean "missing".
pub open spec fn sign_magnitude16(raw: u16) -> Option<i16> {
    if raw == 0xffff {
        None
    } else if raw >= 0x8000 {
        Some((-(raw - 0x8000)) as i16)
    } else {
        Some(raw as i16)
    }
}

/// The value of a 32-bit sign-and-magnitude field, as `sign_magnitude16`.
pub open spec fn sign_magnitude32(raw: u32) -> Option<i32> {
    if raw == 0xffff_ffff {
        None
    } else if raw >= 0x8000_0000 {
        Some((-(raw - 0x8000_0000)) as i32)
    } else {
        Some(raw as i32)
    }
}

/// Decodes a 16-bit sign-and-magnitude field.
pub fn signed_magnitude_i16(raw: u16) -> (r: Option<i16>)
    ensures
        r == sign_magnitude16(raw),
{
    if raw == u16::MAX {
        return None;
    }
    if raw >= 0x8000 {
        let magnitude: i16 = (raw - 0x8000) as i16;
        Some(-magnitude)
    } else {
        Some(raw as i16)
    }
}

/// Decodes a 32-bit sign-and-magnitude field.
pub fn signed_magnitude_i32(raw: u32) -> (r: Option<i32>)
    ensures
        r == sign_magnitude32(raw),
{
    if raw == u32::MAX {
        return None;
    }
    if raw >= 0x8000_0000 {
        let magnitude: i32 = (raw - 0x8000_0000) as i32;
        Some(-magnitude)
    } else {
        Some(raw as i32)
    }
}

/// A 32-bit field where all bits set mean "missing".
pub fn optional_u32(value: u32) -> (r: Option<u32>)
    ensures
        r == (if value == u32::MAX { None } else { Some(value) }),
{
    if value == u32::MAX {
        None
    } else {
        Some(value)
    }
}

/// The 16-bit sign-and-magnitude field of a value.
pub open spec fn encode_sign_magnitude16(v: int) -> u16 {
    if v < 0 { (0x8000 - v) as u16 } else { v as u16 }
}

/// Sign and magnitude round-trips: every value from `-32766` to `32767` is
/// read back from its field (the field of `-32767` is all ones, which means
/// "missing"), and every field but "missing" and negative zero is written
/// back from its value.
pub proof fn sign_magnitude_round_trip(v: int, raw: u16)
    ensures
        -32766 <= v <= 32767 ==> sign_magnitude16(encode_sign_magnitude16(v)) == Some(v as i16),
        raw != 0xffff && raw != 0x8000 ==> (sign_magnitude16(raw) matches Some(x)
            && encode_sign_magnitude16(x as int) == raw),
{
}

} // verus!
