use voxel_engine::chunk::{BlockType, Chunk, ChunkPos, CHUNK_HEIGHT, CHUNK_WIDTH};
use voxel_engine::chunk_map::ChunkMap;
use voxel_engine::world::biomes::Biome;
use voxel_engine::world::ColumnSample;

fn flat_columns(height: i32, biome: Biome) -> Vec<ColumnSample> {
    let mut cols = Vec::new();
    for _ in 0..256 {
        cols.push(ColumnSample { height, biome, tree_roll: false });
    }
    cols
}

/// A chunk whose blocks are all air.
fn air_chunk(pos: ChunkPos) -> Chunk {
    let mut chunk = Chunk::new(pos, &flat_columns(-10, Biome::Plains));
    for y in 0..CHUNK_HEIGHT {
        for z in 0..CHUNK_WIDTH {
            for x in 0..CHUNK_WIDTH {
                chunk.set_block(x, y, z, BlockType::Air);
            }
        }
    }
    chunk
}

#[test]
fn index_orders_x_then_z_then_y() {
    assert_eq!(Chunk::index(0, 0, 0), 0);
    assert_eq!(Chunk::index(1, 0, 0), 1);
    assert_eq!(Chunk::index(0, 0, 1), 16);
    assert_eq!(Chunk::index(0, 1, 0), 256);
    assert_eq!(Chunk::index(1, 2, 3), 561);
    assert_eq!(Chunk::index(15, 127, 15), 32767);
}

#[test]
fn new_chunk_layers_terrain() {
    let chunk = Chunk::new(ChunkPos::new(3, -2), &flat_columns(30, Biome::Hills));
    for x in 0..CHUNK_WIDTH {
        for z in 0..CHUNK_WIDTH {
            assert_eq!(chunk.get_block(x, 0, z), BlockType::Stone);
            assert_eq!(chunk.get_block(x, 25, z), BlockType::Stone);
            assert_eq!(chunk.get_block(x, 26, z), BlockType::Dirt);
            assert_eq!(chunk.get_block(x, 28, z), BlockType::Dirt);
            assert_eq!(chunk.get_block(x, 29, z), BlockType::Grass);
            assert_eq!(chunk.get_block(x, 30, z), BlockType::Air);
            assert_eq!(chunk.get_block(x, 127, z), BlockType::Air);
        }
    }
}

#[test]
fn new_chunk_fills_water_below_water_level() {
    let chunk = Chunk::new(ChunkPos::new(0, 0), &flat_columns(10, Biome::Plains));
    assert_eq!(chunk.get_block(4, 9, 4), BlockType::Grass);
    assert_eq!(chunk.get_block(4, 10, 4), BlockType::Water);
    assert_eq!(chunk.get_block(4, 23, 4), BlockType::Water);
    assert_eq!(chunk.get_block(4, 24, 4), BlockType::Air);
}

#[test]
fn new_chunk_has_sand_beaches() {
    let chunk = Chunk::new(ChunkPos::new(0, 0), &flat_columns(22, Biome::Plains));
    assert_eq!(chunk.get_block(0, 21, 0), BlockType::Sand);
    assert_eq!(chunk.get_block(0, 20, 0), BlockType::Dirt);
    assert_eq!(chunk.get_block(0, 22, 0), BlockType::Water);
}

#[test]
fn columns_are_read_by_x_then_z() {
    let mut cols = flat_columns(30, Biome::Plains);
    cols[3 + 16 * 5] = ColumnSample { height: 40, biome: Biome::Plains, tree_roll: false };
    let chunk = Chunk::new(ChunkPos::new(0, 0), &cols);
    assert_eq!(chunk.get_block(3, 39, 5), BlockType::Grass);
    assert_eq!(chunk.get_block(5, 39, 3), BlockType::Air);
    assert_eq!(chunk.get_block(5, 29, 3), BlockType::Grass);
}

#[test]
fn set_block_then_get_block() {
    let mut chunk = Chunk::new(ChunkPos::new(0, 0), &flat_columns(30, Biome::Plains));
    chunk.set_block(7, 60, 9, BlockType::Wood);
    assert_eq!(chunk.get_block(7, 60, 9), BlockType::Wood);
    assert_eq!(chunk.get_block(8, 60, 9), BlockType::Air);
    assert_eq!(chunk.get_block(7, 59, 9), BlockType::Air);
    chunk.set_block(7, 60, 9, BlockType::Air);
    assert_eq!(chunk.get_block(7, 60, 9), BlockType::Air);
}

#[test]
fn is_solid_treats_outside_as_empty() {
    let chunk = Chunk::new(ChunkPos::new(0, 0), &flat_columns(30, Biome::Plains));
    assert!(chunk.is_solid(0, 0, 0));
    assert!(chunk.is_solid(15, 29, 15));
    assert!(!chunk.is_solid(15, 30, 15));
    assert!(!chunk.is_solid(-1, 0, 0));
    assert!(!chunk.is_solid(16, 0, 0));
    assert!(!chunk.is_solid(0, -1, 0));
    assert!(!chunk.is_solid(0, 128, 0));
    assert!(!chunk.is_solid(0, 0, 16));
}

#[test]
fn is_solid_counts_water_as_solid() {
    let chunk = Chunk::new(ChunkPos::new(0, 0), &flat_columns(10, Biome::Plains));
    assert!(chunk.is_solid(0, 15, 0));
}

#[test]
fn is_solid_global_looks_into_neighbours() {
    let center = Chunk::new(ChunkPos::new(0, 0), &flat_columns(30, Biome::Plains));
    let east = Chunk::new(ChunkPos::new(1, 0), &flat_columns(40, Biome::Plains));
    let mut neighbors: ChunkMap<&Chunk> = ChunkMap::new();
    neighbors.insert(ChunkPos::new(1, 0), &east);
    // inside the chunk
    assert!(center.is_solid_global(3, 29, 3, &neighbors));
    assert!(!center.is_solid_global(3, 30, 3, &neighbors));
    // in the loaded neighbour at x + 1: its terrain is higher
    assert!(center.is_solid_global(16, 35, 3, &neighbors));
    assert!(!center.is_solid_global(16, 45, 3, &neighbors));
    assert!(center.is_solid_global(31, 39, 0, &neighbors));
    // in neighbours that are not loaded: solid
    assert!(center.is_solid_global(-1, 100, 3, &neighbors));
    assert!(center.is_solid_global(3, 100, 16, &neighbors));
    assert!(center.is_solid_global(32, 100, 3, &neighbors));
    // outside the height range: never solid
    assert!(!center.is_solid_global(16, -1, 3, &neighbors));
    assert!(!center.is_solid_global(16, 128, 3, &neighbors));
}
