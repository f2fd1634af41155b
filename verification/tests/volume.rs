//! The signed-distance evaluator: exact distances in tenths and raw
//! directions per volume kind.

use voxel_dag::geom::IVec3;
use voxel_dag::volume::{select_volume, VolumeType};

#[test]
fn perimeter_distance_and_axis_direction() {
    // Distance is extent - max(|x|, |y|, |z|) - 1, held in tenths.
    let s = VolumeType::Perimiter.new(IVec3::new(5, 2, 1), 8);
    assert_eq!(s.dist10, 10 * (8 - 5 - 1));
    assert_eq!((s.dir_x, s.dir_y, s.dir_z), (1, 0, 0));
}

#[test]
fn perimeter_direction_tie_breaking() {
    // y and z only override a strictly greater magnitude.
    let s = VolumeType::Perimiter.new(IVec3::new(2, 2, 1), 8);
    assert_eq!((s.dir_x, s.dir_y, s.dir_z), (1, 0, 0));
    let s = VolumeType::Perimiter.new(IVec3::new(1, 2, 2), 8);
    assert_eq!((s.dir_x, s.dir_y, s.dir_z), (0, 1, 0));
    let s = VolumeType::Perimiter.new(IVec3::new(1, 2, 3), 8);
    assert_eq!((s.dir_x, s.dir_y, s.dir_z), (0, 0, 1));
}

#[test]
fn plane_distance_and_normal() {
    // Distance is (x + y) / 10 + extent - z, in tenths: (x + y) + 10 * (extent - z).
    let s = VolumeType::Plane.new(IVec3::new(1, 2, 3), 16);
    assert_eq!(s.dist10, (1 + 2) + 10 * (16 - 3));
    assert_eq!((s.dir_x, s.dir_y, s.dir_z), (1, 1, 10));
}

#[test]
fn pillar_distance_uses_floor_square_root() {
    // At (0, 0, 0) with extent 8 the offset is (4, 0, 0): the distance in
    // tenths is 2 * 8 - isqrt(100 * 16) = 16 - 40.
    let s = VolumeType::Pillar.new(IVec3::new(0, 0, 0), 8);
    assert_eq!(s.dist10, 16 - 40);
    assert_eq!((s.dir_x, s.dir_y, s.dir_z), (4, 0, 0));

    // At (1, 0, 2): offset (5, 0, 2), 100 * 29 = 2900, isqrt = 53.
    let s = VolumeType::Pillar.new(IVec3::new(1, 0, 2), 8);
    assert_eq!(s.dist10, 16 - 53);
    assert_eq!((s.dir_x, s.dir_y, s.dir_z), (5, 0, 2));
}

#[test]
fn select_volume_takes_first_minimum() {
    // At the origin of an extent-8 scene: Perimiter scores 10 * (8 - 0 - 1)
    // = 70, Plane (0 + 0) + 10 * 8 = 80, Pillar 16 - 40 = -24. The pillar
    // wins; among equals the earliest pair would win.
    let vols = vec![
        (VolumeType::Perimiter, voxel_dag::material::ColourType::TiledSpectrum),
        (VolumeType::Plane, voxel_dag::material::ColourType::RedZGradient),
        (VolumeType::Pillar, voxel_dag::material::ColourType::ClearBlue),
    ];
    assert_eq!(select_volume(&vols, IVec3::new(0, 0, 0), 8), 2);
    let twice = vec![
        (VolumeType::Perimiter, voxel_dag::material::ColourType::ClearBlue),
        (VolumeType::Perimiter, voxel_dag::material::ColourType::RedZGradient),
    ];
    assert_eq!(select_volume(&twice, IVec3::new(1, 2, 3), 8), 0);
}
