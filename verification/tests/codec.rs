//! The packed attribute codec: exact byte-level round trips and the lossy
//! float-channel boundary.

use voxel_dag::codec::{pack_u8_u32, unpack_u8_u32};

#[test]
fn pack_is_big_endian_within_word() {
    assert_eq!(pack_u8_u32((0xAB, 0xCD, 0xEF, 0x01)), 0xABCDEF01);
    assert_eq!(pack_u8_u32((0, 0, 0, 0)), 0);
    assert_eq!(pack_u8_u32((255, 255, 255, 255)), 0xFFFFFFFF);
    assert_eq!(pack_u8_u32((255, 0, 0, 255)), 0xFF0000FF);
}

#[test]
fn unpack_splits_channels() {
    assert_eq!(unpack_u8_u32(0xABCDEF01), (0xAB, 0xCD, 0xEF, 0x01));
    assert_eq!(unpack_u8_u32(0), (0, 0, 0, 0));
    assert_eq!(unpack_u8_u32(0xFFFFFFFF), (255, 255, 255, 255));
}

#[test]
fn byte_round_trip_is_exact() {
    let cases: Vec<(u8, u8, u8, u8)> = vec![
        (0, 0, 0, 0),
        (1, 2, 3, 4),
        (255, 0, 127, 255),
        (25, 25, 127, 2),
        (193, 50, 50, 255),
    ];
    for c in cases {
        assert_eq!(unpack_u8_u32(pack_u8_u32(c)), c);
    }
}

#[test]
fn float_channels_round_trip_within_one_part_in_255() {
    // The quantization boundary: a channel in [0, 1] becomes a byte by
    // multiplication with 255 and truncation, and comes back as byte / 255.
    let channels: [f32; 5] = [0.0, 0.25, 0.5, 0.75, 1.0];
    for &v in channels.iter() {
        let b = (v * 255.0) as u8;
        let word = pack_u8_u32((b, b, b, b));
        let (r, g, bl, a) = unpack_u8_u32(word);
        for &back in [r, g, bl, a].iter() {
            let f = back as f32 / 255.0;
            assert!((f - v).abs() <= 1.0 / 255.0);
        }
    }
}

#[test]
fn specific_colour_round_trip() {
    // Packing (1.0, 0.0, 0.5, 1.0) and unpacking returns approximately
    // (1.0, 0.0, 0.498, 1.0): the bytes 255, 0, 127, 255.
    let v: [f32; 4] = [1.0, 0.0, 0.5, 1.0];
    let packed = pack_u8_u32((
        (v[0] * 255.0) as u8,
        (v[1] * 255.0) as u8,
        (v[2] * 255.0) as u8,
        (v[3] * 255.0) as u8,
    ));
    assert_eq!(packed, 0xFF007FFF);
    let (r, g, b, a) = unpack_u8_u32(packed);
    assert_eq!((r, g, b, a), (255, 0, 127, 255));
    let back = [
        r as f32 / 255.0,
        g as f32 / 255.0,
        b as f32 / 255.0,
        a as f32 / 255.0,
    ];
    assert_eq!(back[0], 1.0);
    assert_eq!(back[1], 0.0);
    assert!((back[2] - 0.498).abs() < 0.001);
    assert_eq!(back[3], 1.0);
}
