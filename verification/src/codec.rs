//! Packed attribute codec: four 8-bit channels in one 32-bit word.
//!
//! A packed word stores channel 0 in the most significant byte and channel 3
//! in the least significant byte. Colours store (r, g, b, a); surface
//! directions store (x, y, z, density). The float-channel boundary (a channel
//! in [0, 1] quantized by multiplication with 255 and truncation) is lossy by
//! design; the byte-level packing below is exact and round-trips.

use vstd::prelude::*;

verus! {

use vstd::arithmetic::div_mod::{
    lemma_fundamental_div_mod_converse,
    lemma_fundamental_div_mod_converse_mod,
};

/// Channel 0 of a packed word: the most significant byte.
pub open spec fn spec_byte0(w: u32) -> int {
    w as int / 0x0100_0000
}

/// Channel 1 of a packed word.
pub open spec fn spec_byte1(w: u32) -> int {
    (w as int / 0x0001_0000) % 256
}

/// Channel 2 of a packed word.
pub open spec fn spec_byte2(w: u32) -> int {
    (w as int / 0x100) % 256
}

/// Channel 3 of a packed word: the least significant byte.
pub open spec fn spec_byte3(w: u32) -> int {
    w as int % 256
}

/// The word that packs four byte channels, channel 0 most significant.
pub open spec fn spec_pack(b0: int, b1: int, b2: int, b3: int) -> int {
    ((b0 * 256 + b1) * 256 + b2) * 256 + b3
}

/// Packs four 8-bit channels into one word, channel 0 in the most
/// significant byte.
pub fn pack_u8_u32(data: (u8, u8, u8, u8)) -> (r: u32)
    ensures
        r == spec_pack(data.0 as int, data.1 as int, data.2 as int, data.3 as int),
{
    (data.0 as u32) * 0x0100_0000 + (data.1 as u32) * 0x0001_0000 + (data.2 as u32) * 0x100
        + (data.3 as u32)
}

/// Splits a packed word back into its four 8-bit channels, channel 0 taken
/// from the most significant byte.
pub fn unpack_u8_u32(data: u32) -> (r: (u8, u8, u8, u8))
    ensures
        r.0 == spec_byte0(data),
        r.1 == spec_byte1(data),
        r.2 == spec_byte2(data),
        r.3 == spec_byte3(data),
{
    proof {
        lemma_unpack_in_range(data);
    }
    (
        (data / 0x0100_0000) as u8,
        ((data / 0x0001_0000) % 256) as u8,
        ((data / 0x100) % 256) as u8,
        (data % 256) as u8,
    )
}

/// Every channel of a packed word is a byte value.
pub proof fn lemma_unpack_in_range(w: u32)
    ensures
        0 <= spec_byte0(w) < 256,
        0 <= spec_byte1(w) < 256,
        0 <= spec_byte2(w) < 256,
        0 <= spec_byte3(w) < 256,
{
    assert(0 <= w / 0x0100_0000 < 256) by (nonlinear_arith)
        requires 0 <= w <= 0xFFFF_FFFFu32,
    ;
    assert(0 <= (w / 0x0001_0000) % 256 < 256) by (nonlinear_arith)
        requires 0 <= w,
    ;
    assert(0 <= (w / 0x100) % 256 < 256) by (nonlinear_arith)
        requires 0 <= w,
    ;
    assert(0 <= w % 256 < 256) by (nonlinear_arith)
        requires 0 <= w,
    ;
}

/// Unpacking a packed word recovers each channel exactly: the byte-level
/// round trip is lossless.
pub proof fn lemma_unpack_pack(b0: int, b1: int, b2: int, b3: int)
    requires
        0 <= b0 < 256,
        0 <= b1 < 256,
        0 <= b2 < 256,
        0 <= b3 < 256,
    ensures
        0 <= spec_pack(b0, b1, b2, b3) <= u32::MAX,
        spec_byte0(spec_pack(b0, b1, b2, b3) as u32) == b0,
        spec_byte1(spec_pack(b0, b1, b2, b3) as u32) == b1,
        spec_byte2(spec_pack(b0, b1, b2, b3) as u32) == b2,
        spec_byte3(spec_pack(b0, b1, b2, b3) as u32) == b3,
{
    let w = spec_pack(b0, b1, b2, b3);
    assert(w == b0 * 0x0100_0000 + b1 * 0x0001_0000 + b2 * 0x100 + b3);
    assert(0 <= w <= u32::MAX);
    let u = w as u32;
    assert(u == w);
    // Most significant byte: w = b0 * 2^24 + rest, rest < 2^24.
    lemma_fundamental_div_mod_converse(w, 0x0100_0000, b0, b1 * 0x0001_0000 + b2 * 0x100 + b3);
    // Channel 1: w / 2^16 = b0 * 256 + b1, then reduce mod 256.
    lemma_fundamental_div_mod_converse(w, 0x0001_0000, b0 * 256 + b1, b2 * 0x100 + b3);
    lemma_fundamental_div_mod_converse_mod(b0 * 256 + b1, 256, b0, b1);
    // Channel 2: w / 2^8 = (b0 * 256 + b1) * 256 + b2, then reduce mod 256.
    lemma_fundamental_div_mod_converse(w, 0x100, (b0 * 256 + b1) * 256 + b2, b3);
    lemma_fundamental_div_mod_converse_mod((b0 * 256 + b1) * 256 + b2, 256, b0 * 256 + b1, b2);
    // Channel 3: the remainder mod 256.
    lemma_fundamental_div_mod_converse_mod(w, 256, (b0 * 256 + b1) * 256 + b2, b3);
}

/// Packing the channels of a word rebuilds the word: the other direction of
/// the byte-level round trip.
pub proof fn lemma_pack_unpack(w: u32)
    ensures
        spec_pack(spec_byte0(w), spec_byte1(w), spec_byte2(w), spec_byte3(w)) == w,
{
    vstd::arithmetic::div_mod::lemma_fundamental_div_mod(w as int, 0x100);
    vstd::arithmetic::div_mod::lemma_fundamental_div_mod(w as int / 0x100, 0x100);
    vstd::arithmetic::div_mod::lemma_fundamental_div_mod(w as int / 0x100 / 0x100, 0x100);
    vstd::arithmetic::div_mod::lemma_div_denominator(w as int, 0x100, 0x100);
    vstd::arithmetic::div_mod::lemma_div_denominator(w as int, 0x0001_0000, 0x100);
    assert(w / 0x0001_0000 == w / 0x100 / 0x100);
    assert(w / 0x0100_0000 == w / 0x0001_0000 / 0x100);
    assert(0 <= w / 0x0100_0000 < 256) by (nonlinear_arith)
        requires 0 <= w <= 0xFFFF_FFFFu32,
    ;
    vstd::arithmetic::div_mod::lemma_small_mod((w / 0x0100_0000) as nat, 256);
}

} // verus!
