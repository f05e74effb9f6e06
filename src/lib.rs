//! A sparse voxel world for ray tracing: the voxel store with its loose
//! bounds and top-exposure set, fixed-point materials, the lattice hashes
//! behind procedural textures, and the shading decisions of the tracer.

pub mod island;
pub mod material;
pub mod noise;
pub mod scene;
pub mod shading;
pub mod voxel_world;
