//! Scene descriptors: the named presets, each an ordered, non-empty list of
//! (volume kind, material kind) pairs, and the configuration errors a build
//! can be refused with.

use vstd::prelude::*;

verus! {

use crate::material::ColourType;
use crate::volume::VolumeType;

/// The named test scenes.
#[derive(Clone, Copy)]
pub enum TestDagType {
    /// A single perimeter volume with wall colouring; needs depth >= 2.
    Box,
    /// Perimeter, inclined plane and cylindrical pillar; needs depth >= 4.
    Pillar,
}

/// Why a build configuration was refused.
#[derive(Clone, Copy, Debug, PartialEq, Eq, Structural)]
pub enum ConfigError {
    /// The requested depth lies outside [2, 16].
    DepthOutOfRange,
    /// The requested depth lies below the preset's own minimum.
    DepthBelowPresetMin,
}

impl TestDagType {
    /// The least depth this preset can be built at.
    pub open spec fn spec_min_depth(self) -> int {
        match self {
            TestDagType::Box => 2,
            TestDagType::Pillar => 4,
        }
    }

    /// The preset's ordered (volume kind, material kind) pairs.
    pub open spec fn spec_volumes(self) -> Seq<(VolumeType, ColourType)> {
        match self {
            TestDagType::Box => seq![(VolumeType::Perimiter, ColourType::ColouredWalls)],
            TestDagType::Pillar => seq![
                (VolumeType::Perimiter, ColourType::TiledSpectrum),
                (VolumeType::Plane, ColourType::RedZGradient),
                (VolumeType::Pillar, ColourType::ClearBlue),
            ],
        }
    }

    /// The preset's volume list, or an error when the requested depth lies
    /// below the preset's minimum.
    pub fn new(&self, depth: u32) -> (r: Result<Vec<(VolumeType, ColourType)>, ConfigError>)
        ensures
            match r {
                Ok(v) => depth >= self.spec_min_depth() && v@ == self.spec_volumes(),
                Err(e) => depth < self.spec_min_depth() && e == ConfigError::DepthBelowPresetMin,
            },
    {
        match self {
            TestDagType::Box => {
                if depth < 2 {
                    Err(ConfigError::DepthBelowPresetMin)
                } else {
                    let mut v: Vec<(VolumeType, ColourType)> = Vec::new();
                    v.push((VolumeType::Perimiter, ColourType::ColouredWalls));
                    proof {
                        assert(v@ =~= self.spec_volumes());
                    }
                    Ok(v)
                }
            },
            TestDagType::Pillar => {
                if depth < 4 {
                    Err(ConfigError::DepthBelowPresetMin)
                } else {
                    let mut v: Vec<(VolumeType, ColourType)> = Vec::new();
                    v.push((VolumeType::Perimiter, ColourType::TiledSpectrum));
                    v.push((VolumeType::Plane, ColourType::RedZGradient));
                    v.push((VolumeType::Pillar, ColourType::ClearBlue));
                    proof {
                        assert(v@ =~= self.spec_volumes());
                    }
                    Ok(v)
                }
            },
        }
    }
}

} // verus!
