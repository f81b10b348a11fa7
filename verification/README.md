# voxel_engine

The logic of a small voxel world, verified with Verus, and the game around it.

- `src/` is the verified library:
  - `chunk.rs`: blocks, chunk positions, chunks of 16 x 128 x 16 blocks,
    generation of a chunk from terrain columns, solidity queries and the
    block mesh (hidden faces culled).
  - `mesh.rs`, `mesh_laws.rs`: the vertex and index buffers of a mesh and
    what is proved of them.
  - `world/`: biomes, the terrain rule of a column, and tree placement;
    `world_gen.rs` holds the rules of the earlier generator.
  - `chunk_map.rs`, `chunk_manager.rs`: loaded chunks by position, which
    chunks to spawn around the player and which to unload.
  - `player.rs`: block selection and what a mining or placing ray acts on.
- `app/` is the Bevy game: rendering, input, physics, and the noise that
  yields terrain heights, biomes and tree chances (all floating point).
- `tests/` runs the library on concrete worlds.
