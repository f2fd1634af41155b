//! Material baker: a quantized colour for a cell position, per material kind.
//!
//! Colour channels are bytes; a channel byte b stands for the float channel
//! b / 255. The constant materials carry the bytes their float constants
//! quantize to under multiplication by 255 with truncation.

use vstd::prelude::*;

verus! {

use crate::codec::{pack_u8_u32, spec_pack};
use crate::geom::IVec3;
use crate::oct_dag::{spec_empty_octant, Octant, NULL_INDEX};

/// The material kinds a scene can bake.
#[derive(Clone, Copy)]
pub enum ColourType {
    /// Coordinates tiled into [0, max_level_size), then mapped linearly to
    /// the r/g/b channels; alpha 255.
    TiledSpectrum,
    /// Red from the z coordinate mapped linearly (negative z wraps through
    /// the byte range); green and blue fixed at 50; alpha 255.
    RedZGradient,
    /// The constant colour (0.1, 0.1, 0.5, 0.01), quantized to bytes
    /// (25, 25, 127, 2).
    ClearBlue,
    /// Pure red, green or blue after the axis of greatest absolute
    /// coordinate (y and z only override strictly greater); alpha 255.
    ColouredWalls,
}

/// A coordinate wrapped into [0, max_level_size): negative coordinates are
/// offset by the extent.
pub open spec fn spec_tile(c: int, mls: int) -> int {
    if c >= 0 {
        c
    } else {
        mls + c
    }
}

/// A tiled coordinate mapped linearly to a byte: c * 255 / mls, truncated.
pub open spec fn spec_spectrum_channel(c: int, mls: int) -> int {
    spec_tile(c, mls) * 255 / mls
}

/// The red channel of the z gradient: z * 255 / mls under truncating
/// division, wrapped into the byte range when z is negative.
pub open spec fn spec_gradient_byte(z: int, mls: int) -> int {
    if z >= 0 {
        (z * 255) / mls
    } else {
        let m = ((-z) * 255) / mls;
        if m == 0 {
            0
        } else {
            256 - m
        }
    }
}

/// The packed colour a material kind bakes for a cell position.
pub open spec fn spec_colour_word(c: ColourType, x: int, y: int, z: int, mls: int) -> int {
    match c {
        ColourType::TiledSpectrum => spec_pack(
            spec_spectrum_channel(x, mls),
            spec_spectrum_channel(y, mls),
            spec_spectrum_channel(z, mls),
            255,
        ),
        ColourType::RedZGradient => spec_pack(spec_gradient_byte(z, mls), 50, 50, 255),
        ColourType::ClearBlue => spec_pack(25, 25, 127, 2),
        ColourType::ColouredWalls => {
            let ax = if x >= 0 { x } else { -x };
            let ay = if y >= 0 { y } else { -y };
            let az = if z >= 0 { z } else { -z };
            if az > ax && az > ay {
                spec_pack(0, 0, 255, 255)
            } else if ay > ax {
                spec_pack(0, 255, 0, 255)
            } else {
                spec_pack(255, 0, 0, 255)
            }
        },
    }
}

/// A spectrum channel byte for an in-range coordinate is a byte value.
pub proof fn lemma_spectrum_channel_range(c: int, mls: int)
    requires
        1 <= mls,
        -mls <= c < mls,
    ensures
        0 <= spec_spectrum_channel(c, mls) < 256,
{
    let t = spec_tile(c, mls);
    assert(0 <= t < mls);
    assert(0 <= t * 255 / mls < 256) by (nonlinear_arith)
        requires 0 <= t < mls, 1 <= mls,
    ;
}

/// A gradient byte for an in-range coordinate is a byte value.
pub proof fn lemma_gradient_byte_range(z: int, mls: int)
    requires
        1 <= mls,
        -mls <= z < mls,
    ensures
        0 <= spec_gradient_byte(z, mls) < 256,
{
    if z >= 0 {
        assert(0 <= (z * 255) / mls < 256) by (nonlinear_arith)
            requires 0 <= z < mls, 1 <= mls,
        ;
    } else {
        let nz = -z;
        assert(nz * 255 <= mls * 255);
        vstd::arithmetic::div_mod::lemma_div_is_ordered(nz * 255, mls * 255, mls);
        vstd::arithmetic::div_mod::lemma_div_multiples_vanish(255, mls);
        vstd::arithmetic::div_mod::lemma_div_pos_is_pos(nz * 255, mls);
        assert(0 <= (nz * 255) / mls <= 255);
    }
}

/// The baked colour word for an in-range position fits a 32-bit word.
pub proof fn lemma_colour_word_range(c: ColourType, x: int, y: int, z: int, mls: int)
    requires
        1 <= mls,
        -mls <= x < mls,
        -mls <= y < mls,
        -mls <= z < mls,
    ensures
        0 <= spec_colour_word(c, x, y, z, mls) <= u32::MAX,
{
    match c {
        ColourType::TiledSpectrum => {
            lemma_spectrum_channel_range(x, mls);
            lemma_spectrum_channel_range(y, mls);
            lemma_spectrum_channel_range(z, mls);
        },
        ColourType::RedZGradient => {
            lemma_gradient_byte_range(z, mls);
        },
        ColourType::ClearBlue => {},
        ColourType::ColouredWalls => {},
    }
}

/// One tiled spectrum channel, as executable arithmetic.
fn spectrum_channel(c: i32, mls: i32) -> (r: u8)
    requires
        1 <= mls <= 65536,
        -mls <= c < mls,
    ensures
        r == spec_spectrum_channel(c as int, mls as int),
{
    proof {
        lemma_spectrum_channel_range(c as int, mls as int);
    }
    let t: i32 = if c >= 0 {
        c
    } else {
        mls + c
    };
    (t * 255 / mls) as u8
}

/// The z-gradient red channel, as executable arithmetic.
fn gradient_byte(z: i32, mls: i32) -> (r: u8)
    requires
        1 <= mls <= 65536,
        -mls <= z < mls,
    ensures
        r == spec_gradient_byte(z as int, mls as int),
{
    proof {
        lemma_gradient_byte_range(z as int, mls as int);
    }
    if z >= 0 {
        (z * 255 / mls) as u8
    } else {
        let m: i32 = (-z) * 255 / mls;
        proof {
            let nz = -(z as int);
            vstd::arithmetic::div_mod::lemma_div_is_ordered(nz * 255, mls as int * 255, mls as int);
            vstd::arithmetic::div_mod::lemma_div_multiples_vanish(255, mls as int);
            vstd::arithmetic::div_mod::lemma_div_pos_is_pos(nz * 255, mls as int);
            assert(0 <= m <= 255);
        }
        if m == 0 {
            0
        } else {
            (256 - m) as u8
        }
    }
}

impl ColourType {
    /// Bakes this material at a cell position: a leaf octant whose `colour`
    /// is the packed quantized colour and whose other fields are null.
    pub fn new(&self, pos: IVec3, max_level_size: i32) -> (r: Octant)
        requires
            1 <= max_level_size <= 65536,
            -max_level_size <= pos.x < max_level_size,
            -max_level_size <= pos.y < max_level_size,
            -max_level_size <= pos.z < max_level_size,
        ensures
            r.index == NULL_INDEX,
            r.colour == spec_colour_word(
                *self,
                pos.x as int,
                pos.y as int,
                pos.z as int,
                max_level_size as int,
            ),
            r.normal == 0,
            r.extra == 0,
    {
        let mut octant = Octant::new();
        match self {
            ColourType::TiledSpectrum => {
                let r = spectrum_channel(pos.x, max_level_size);
                let g = spectrum_channel(pos.y, max_level_size);
                let b = spectrum_channel(pos.z, max_level_size);
                octant.colour = pack_u8_u32((r, g, b, 255));
            },
            ColourType::RedZGradient => {
                let r = gradient_byte(pos.z, max_level_size);
                octant.colour = pack_u8_u32((r, 50, 50, 255));
            },
            ColourType::ClearBlue => {
                octant.colour = pack_u8_u32((25, 25, 127, 2));
            },
            ColourType::ColouredWalls => {
                let ax = if pos.x >= 0 { pos.x } else { -pos.x };
                let ay = if pos.y >= 0 { pos.y } else { -pos.y };
                let az = if pos.z >= 0 { pos.z } else { -pos.z };
                octant.colour = if az > ax && az > ay {
                    pack_u8_u32((0, 0, 255, 255))
                } else if ay > ax {
                    pack_u8_u32((0, 255, 0, 255))
                } else {
                    pack_u8_u32((255, 0, 0, 255))
                };
            },
        }
        octant
    }
}

} // verus!

