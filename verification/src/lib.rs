//! Voxel terrain: heightmap chunks with face-culled meshes, and a sparse
//! voxel octree over a cubic grid, with the small decisions a renderer makes
//! around them.

pub mod color;
pub mod chunk;
pub mod svo;
pub mod bytes;
pub mod terrain;
pub mod state;
pub mod orientation;
