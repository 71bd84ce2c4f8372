//! Surface meshing of dense voxel chunks.
//!
//! A chunk is a `WIDTH x HEIGHT x WIDTH` grid of solid/air flags. The mesher
//! emits one quad for every face of a solid voxel whose neighbour in that
//! direction is air; everything outside the chunk counts as air.

pub mod chunk;
pub mod laws;
pub mod mesh;
pub mod noise;
pub mod tables;
pub mod worldgen;
