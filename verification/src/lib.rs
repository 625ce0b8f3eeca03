//! A chunked voxel world: terrain classification, chunk storage, the world-wide
//! voxel lookup and the extraction of a face-culled triangle mesh.

pub mod block;
pub mod chunk_map;
pub mod grid;
mod key;
pub mod mesh;
pub mod terrain;
pub mod world_map;
