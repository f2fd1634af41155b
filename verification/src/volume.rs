//! Signed-distance evaluator: a distance and an unnormalized surface
//! direction for each volume kind at a cell position.
//!
//! Distances are exact integers held in tenths of a voxel unit, so the
//! plane's slope of one tenth and the cylinder's radius of one fifth of the
//! scene extent need no rounding; the cylinder's square root is taken as an
//! integer floor. Under this scheme a more negative distance means a point
//! lying deeper inside a volume, and the builder selects the volume with the
//! smallest distance value.

use vstd::prelude::*;

verus! {

use crate::geom::IVec3;
use crate::material::ColourType;
use crate::num::{isqrt_u64, lemma_isqrt_le, spec_isqrt};

/// The volume kinds a scene can evaluate.
#[derive(Clone, Copy)]
pub enum VolumeType {
    /// The box shell: distance max_level_size - max(|x|, |y|, |z|) - 1;
    /// direction is the dominant axis (y and z only override strictly
    /// greater magnitudes).
    Perimiter,
    /// An inclined plane with normal (1, 1, 10): distance
    /// (x + y) / 10 + max_level_size - z; direction is the plane normal.
    Plane,
    /// A cylinder centred at x = -max_level_size / 2 with radius one fifth
    /// of the extent: distance radius - sqrt((x + max_level_size / 2)^2 + z^2);
    /// direction is the raw offset (x + max_level_size / 2, y, z).
    Pillar,
}

/// A sampled volume: the signed distance in tenths of a voxel unit, and an
/// unnormalized surface-direction estimate.
#[derive(Clone, Copy, PartialEq, Eq, Structural)]
pub struct VolumeSample {
    pub dist10: i64,
    pub dir_x: i64,
    pub dir_y: i64,
    pub dir_z: i64,
}

/// Absolute value.
pub open spec fn spec_abs(c: int) -> int {
    if c >= 0 {
        c
    } else {
        -c
    }
}

/// The greatest absolute coordinate of a position.
pub open spec fn spec_max_abs(x: int, y: int, z: int) -> int {
    let ax = spec_abs(x);
    let ay = spec_abs(y);
    let az = spec_abs(z);
    if az > ax && az > ay {
        az
    } else if ay > ax {
        ay
    } else {
        ax
    }
}

/// Ten times the signed distance of a volume kind at a position, for a
/// scene of extent `mls`.
pub open spec fn spec_dist10(v: VolumeType, x: int, y: int, z: int, mls: int) -> int {
    match v {
        VolumeType::Perimiter => 10 * (mls - spec_max_abs(x, y, z) - 1),
        VolumeType::Plane => (x + y) + 10 * (mls - z),
        VolumeType::Pillar => {
            let dx = x + mls / 2;
            2 * mls - spec_isqrt((100 * (dx * dx + z * z)) as nat)
        },
    }
}

/// The unnormalized direction of a volume kind at a position.
pub open spec fn spec_dir(v: VolumeType, x: int, y: int, z: int, mls: int) -> (int, int, int) {
    match v {
        VolumeType::Perimiter => {
            let ax = spec_abs(x);
            let ay = spec_abs(y);
            let az = spec_abs(z);
            if az > ax && az > ay {
                (0, 0, 1)
            } else if ay > ax {
                (0, 1, 0)
            } else {
                (1, 0, 0)
            }
        },
        VolumeType::Plane => (1, 1, 10),
        VolumeType::Pillar => (x + mls / 2, y, z),
    }
}

/// For in-range positions the distance in tenths is bounded by 22 times the
/// extent, and each direction component by twice the extent plus ten.
pub proof fn lemma_sample_bounds(v: VolumeType, x: int, y: int, z: int, mls: int)
    requires
        1 <= mls <= 65536,
        -mls <= x <= mls,
        -mls <= y <= mls,
        -mls <= z <= mls,
    ensures
        -22 * mls <= spec_dist10(v, x, y, z, mls) <= 22 * mls,
        spec_abs(spec_dir(v, x, y, z, mls).0) <= 2 * mls + 10,
        spec_abs(spec_dir(v, x, y, z, mls).1) <= 2 * mls + 10,
        spec_abs(spec_dir(v, x, y, z, mls).2) <= 2 * mls + 10,
{
    match v {
        VolumeType::Perimiter => {},
        VolumeType::Plane => {},
        VolumeType::Pillar => {
            let dx = x + mls / 2;
            let s = dx * dx + z * z;
            assert(0 <= dx * dx <= 4 * (mls * mls)) by (nonlinear_arith)
                requires -2 * mls <= dx <= 2 * mls, 0 <= mls,
            ;
            assert(0 <= z * z <= mls * mls) by (nonlinear_arith)
                requires -mls <= z <= mls, 0 <= mls,
            ;
            assert((23 * mls) * (23 * mls) == 529 * (mls * mls)) by (nonlinear_arith);
            lemma_isqrt_le((100 * s) as nat, (23 * mls) as nat);
        },
    }
}

impl VolumeType {
    /// Samples this volume kind at a cell position in a scene of extent
    /// `max_level_size`: the signed distance in tenths, and the
    /// unnormalized surface direction.
    pub fn new(&self, pos: IVec3, max_level_size: i32) -> (r: VolumeSample)
        requires
            1 <= max_level_size <= 65536,
            -max_level_size <= pos.x <= max_level_size,
            -max_level_size <= pos.y <= max_level_size,
            -max_level_size <= pos.z <= max_level_size,
        ensures
            r.dist10 == spec_dist10(
                *self,
                pos.x as int,
                pos.y as int,
                pos.z as int,
                max_level_size as int,
            ),
            (r.dir_x as int, r.dir_y as int, r.dir_z as int) == spec_dir(
                *self,
                pos.x as int,
                pos.y as int,
                pos.z as int,
                max_level_size as int,
            ),
    {
        let x = pos.x as i64;
        let y = pos.y as i64;
        let z = pos.z as i64;
        let mls = max_level_size as i64;
        match self {
            VolumeType::Perimiter => {
                let ax = if x >= 0 { x } else { -x };
                let ay = if y >= 0 { y } else { -y };
                let az = if z >= 0 { z } else { -z };
                let (m, dir_x, dir_y, dir_z): (i64, i64, i64, i64) = if az > ax && az > ay {
                    (az, 0, 0, 1)
                } else if ay > ax {
                    (ay, 0, 1, 0)
                } else {
                    (ax, 1, 0, 0)
                };
                VolumeSample { dist10: 10 * (mls - m - 1), dir_x, dir_y, dir_z }
            },
            VolumeType::Plane => {
                VolumeSample { dist10: (x + y) + 10 * (mls - z), dir_x: 1, dir_y: 1, dir_z: 10 }
            },
            VolumeType::Pillar => {
                let dx = x + mls / 2;
                proof {
                    assert(0 <= dx * dx <= 4 * (mls * mls)) by (nonlinear_arith)
                        requires -2 * mls <= dx <= 2 * mls, 0 <= mls,
                    ;
                    assert(0 <= z * z <= mls * mls) by (nonlinear_arith)
                        requires -mls <= z <= mls, 0 <= mls,
                    ;
                    assert(mls * mls <= 0x1_0000_0000) by (nonlinear_arith)
                        requires 0 <= mls <= 65536,
                    ;
                }
                let s = dx * dx + z * z;
                let q = isqrt_u64((100 * s) as u64);
                proof {
                    assert((23 * mls) * (23 * mls) == 529 * (mls * mls)) by (nonlinear_arith);
                    lemma_isqrt_le((100 * s) as nat, (23 * mls) as nat);
                }
                VolumeSample { dist10: 2 * mls - q as i64, dir_x: dx, dir_y: y, dir_z: z }
            },
        }
    }
}

/// The index of the volume pair with the smallest distance among the first
/// `n` pairs, earliest first on ties.
pub open spec fn spec_best_upto(
    vols: Seq<(VolumeType, ColourType)>,
    x: int,
    y: int,
    z: int,
    mls: int,
    n: int,
) -> int
    decreases n,
{
    if n <= 1 {
        0
    } else {
        let b = spec_best_upto(vols, x, y, z, mls, n - 1);
        if spec_dist10(vols[n - 1].0, x, y, z, mls) < spec_dist10(vols[b].0, x, y, z, mls) {
            n - 1
        } else {
            b
        }
    }
}

/// The selected volume pair of a scene at a position: the first pair whose
/// distance is minimal.
pub open spec fn spec_selected(
    vols: Seq<(VolumeType, ColourType)>,
    x: int,
    y: int,
    z: int,
    mls: int,
) -> int {
    spec_best_upto(vols, x, y, z, mls, vols.len() as int)
}

/// Finds the scene's selected volume pair at a position: the index of the
/// first pair whose distance is minimal.
pub fn select_volume(
    volumes: &Vec<(VolumeType, ColourType)>,
    pos: IVec3,
    max_level_size: i32,
) -> (idx: usize)
    requires
        volumes@.len() >= 1,
        1 <= max_level_size <= 65536,
        -max_level_size <= pos.x <= max_level_size,
        -max_level_size <= pos.y <= max_level_size,
        -max_level_size <= pos.z <= max_level_size,
    ensures
        idx < volumes@.len(),
        idx == spec_selected(
            volumes@,
            pos.x as int,
            pos.y as int,
            pos.z as int,
            max_level_size as int,
        ),
{
    let ghost gx = pos.x as int;
    let ghost gy = pos.y as int;
    let ghost gz = pos.z as int;
    let ghost gm = max_level_size as int;
    let mut best: usize = 0;
    let mut best_dist: i64 = volumes[0].0.new(pos, max_level_size).dist10;
    let mut i: usize = 1;
    while i < volumes.len()
        invariant
            gx == pos.x as int,
            gy == pos.y as int,
            gz == pos.z as int,
            gm == max_level_size as int,
            1 <= i <= volumes@.len(),
            volumes@.len() >= 1,
            1 <= max_level_size <= 65536,
            -max_level_size <= pos.x <= max_level_size,
            -max_level_size <= pos.y <= max_level_size,
            -max_level_size <= pos.z <= max_level_size,
            best < i,
            best == spec_best_upto(volumes@, gx, gy, gz, gm, i as int),
            best_dist == spec_dist10(volumes@[best as int].0, gx, gy, gz, gm),
        decreases volumes@.len() - i,
    {
        let d = volumes[i].0.new(pos, max_level_size).dist10;
        proof {
            let b = spec_best_upto(volumes@, gx, gy, gz, gm, i as int);
            assert(spec_best_upto(volumes@, gx, gy, gz, gm, i as int + 1) == (
                if spec_dist10(volumes@[i as int].0, gx, gy, gz, gm)
                    < spec_dist10(volumes@[b].0, gx, gy, gz, gm) {
                    i as int
                } else {
                    b
                }
            ));
        }
        if d < best_dist {
            best = i;
            best_dist = d;
        }
        i = i + 1;
    }
    best
}

} // verus!
