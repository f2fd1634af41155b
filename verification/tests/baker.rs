//! The material baker: exact quantized colours per material kind.

use voxel_dag::codec::{pack_u8_u32, unpack_u8_u32};
use voxel_dag::geom::IVec3;
use voxel_dag::material::ColourType;
use voxel_dag::oct_dag::NULL_INDEX;

#[test]
fn coloured_walls_picks_dominant_axis() {
    // Position (5, 2, 1): x dominates (|5| > |2|, |1|), so the colour
    // decodes to pure red (1.0, 0.0, 0.0, 1.0).
    let octant = ColourType::ColouredWalls.new(IVec3::new(5, 2, 1), 8);
    assert_eq!(octant.index, NULL_INDEX);
    let (r, g, b, a) = unpack_u8_u32(octant.colour);
    assert_eq!((r, g, b, a), (255, 0, 0, 255));
    assert_eq!(r as f32 / 255.0, 1.0);
    assert_eq!(g as f32 / 255.0, 0.0);
    assert_eq!(b as f32 / 255.0, 0.0);
    assert_eq!(a as f32 / 255.0, 1.0);
}

#[test]
fn coloured_walls_overrides_only_strictly_greater() {
    // Equal magnitudes keep the earlier axis: x before y before z.
    let o = ColourType::ColouredWalls.new(IVec3::new(3, 3, 3), 8);
    assert_eq!(unpack_u8_u32(o.colour), (255, 0, 0, 255));
    let o = ColourType::ColouredWalls.new(IVec3::new(1, 3, 3), 8);
    assert_eq!(unpack_u8_u32(o.colour), (0, 255, 0, 255));
    let o = ColourType::ColouredWalls.new(IVec3::new(1, 2, 3), 8);
    assert_eq!(unpack_u8_u32(o.colour), (0, 0, 255, 255));
}

#[test]
fn tiled_spectrum_wraps_and_scales() {
    // Position (2, -1, 3) with extent 4 tiles to (2, 3, 3); each channel is
    // coordinate * 255 / 4 with integer truncation.
    let octant = ColourType::TiledSpectrum.new(IVec3::new(2, -1, 3), 4);
    assert_eq!(unpack_u8_u32(octant.colour), (127, 191, 191, 255));
}

#[test]
fn tiled_spectrum_at_origin_is_black() {
    let octant = ColourType::TiledSpectrum.new(IVec3::new(0, 0, 0), 4);
    assert_eq!(unpack_u8_u32(octant.colour), (0, 0, 0, 255));
}

#[test]
fn red_z_gradient_maps_z_linearly() {
    let octant = ColourType::RedZGradient.new(IVec3::new(0, 0, 2), 4);
    assert_eq!(unpack_u8_u32(octant.colour), (127, 50, 50, 255));
}

#[test]
fn red_z_gradient_wraps_negative_z() {
    // z = -1, extent 4: -255 / 4 truncates to -63, which wraps to 193.
    let octant = ColourType::RedZGradient.new(IVec3::new(0, 0, -1), 4);
    assert_eq!(unpack_u8_u32(octant.colour), (193, 50, 50, 255));
}

#[test]
fn clear_blue_is_the_quantized_constant() {
    // (0.1, 0.1, 0.5, 0.01) quantized by truncation: (25, 25, 127, 2).
    let octant = ColourType::ClearBlue.new(IVec3::new(1, 1, 1), 8);
    assert_eq!(octant.colour, pack_u8_u32((25, 25, 127, 2)));
}

#[test]
fn baked_octants_are_leaves_with_null_attributes() {
    let octant = ColourType::TiledSpectrum.new(IVec3::new(1, 1, 1), 4);
    assert_eq!(octant.index, NULL_INDEX);
    assert_eq!(octant.normal, 0);
    assert_eq!(octant.extra, 0);
}
