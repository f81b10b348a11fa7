//! Block-world logic of a voxel engine: chunk storage and meshing, terrain
//! column rules, tree placement, chunk bookkeeping around the player, and the
//! decisions taken when the player mines, places or selects blocks.

pub mod chunk;
pub mod chunk_map;
pub mod chunk_manager;
pub mod mesh;
pub mod mesh_laws;
pub mod world;
pub mod world_gen;
pub mod player;
