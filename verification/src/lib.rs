//! A compressed sparse-voxel scene representation: a directed acyclic graph
//! of octree nodes built from procedural signed-distance volumes.
//!
//! The builder subdivides space top-down, classifies each cell against a
//! scene's volumes, bakes quantized colours and surface directions for leaf
//! cells, aggregates child attributes bottom-up for interior cells, and
//! deduplicates structurally identical nodes per depth so that the octree
//! collapses into a DAG.
//!
//! All geometry is carried in exact integer arithmetic: signed distances are
//! held in tenths of a cell unit, and square roots are taken as integer
//! floors, so every build is a pure function of its scene and depth.

pub mod codec;
pub mod geom;
pub mod material;
pub mod num;
pub mod oct_dag;
pub mod scene;
pub mod volume;
