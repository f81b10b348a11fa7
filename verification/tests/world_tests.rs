use voxel_engine::chunk::{BlockType, Chunk, ChunkPos, CHUNK_VOLUME};
use voxel_engine::world::biomes::Biome;
use voxel_engine::world::features::generate_leave_structure;
use voxel_engine::world::{self, ColumnSample};
use voxel_engine::world_gen;

fn columns_with_trees(height: i32, trees: &[(usize, usize)]) -> Vec<ColumnSample> {
    let mut cols = Vec::new();
    for _ in 0..256 {
        cols.push(ColumnSample { height, biome: Biome::Plains, tree_roll: false });
    }
    for &(x, z) in trees {
        cols[x + 16 * z].tree_roll = true;
    }
    cols
}

#[test]
fn next_biom_follows_the_chain() {
    assert_eq!(Biome::Plains.next_biom(), Some(Biome::Hills));
    assert_eq!(Biome::Hills.next_biom(), Some(Biome::MidMountains));
    assert_eq!(Biome::MidMountains.next_biom(), Some(Biome::HighMountains));
    assert_eq!(Biome::HighMountains.next_biom(), Some(Biome::SpikyMountains));
    assert_eq!(Biome::SpikyMountains.next_biom(), None);
}

#[test]
fn biome_chain_ends_at_spiky_mountains() {
    let mut b = Biome::Plains;
    let mut steps = 0;
    while let Some(n) = b.next_biom() {
        b = n;
        steps += 1;
    }
    assert_eq!(b, Biome::SpikyMountains);
    assert_eq!(steps, 4);
}

#[test]
fn surface_block_by_depth() {
    for b in [Biome::Plains, Biome::Hills, Biome::MidMountains, Biome::HighMountains, Biome::SpikyMountains] {
        assert_eq!(b.get_surface_block(0), BlockType::Grass);
        assert_eq!(b.get_surface_block(2), BlockType::Grass);
        assert_eq!(b.get_surface_block(3), BlockType::Sand);
        assert_eq!(b.get_surface_block(-1), BlockType::Sand);
    }
}

#[test]
fn block_at_layers() {
    assert_eq!(world::get_block_at(30, Biome::Plains, 40), BlockType::Air);
    assert_eq!(world::get_block_at(30, Biome::Plains, 30), BlockType::Air);
    assert_eq!(world::get_block_at(30, Biome::Plains, 29), BlockType::Grass);
    assert_eq!(world::get_block_at(30, Biome::Plains, 28), BlockType::Dirt);
    assert_eq!(world::get_block_at(30, Biome::Plains, 26), BlockType::Dirt);
    assert_eq!(world::get_block_at(30, Biome::Plains, 25), BlockType::Stone);
    assert_eq!(world::get_block_at(10, Biome::Hills, 23), BlockType::Water);
    assert_eq!(world::get_block_at(10, Biome::Hills, 24), BlockType::Air);
    assert_eq!(world::get_block_at(20, Biome::Hills, 19), BlockType::Sand);
    assert_eq!(world::get_block_at(24, Biome::Hills, 23), BlockType::Sand);
    assert_eq!(world::get_block_at(25, Biome::Hills, 24), BlockType::Grass);
    assert_eq!(world::get_block_at(i32::MIN, Biome::Hills, i32::MAX), BlockType::Air);
    assert_eq!(world::get_block_at(i32::MAX, Biome::Hills, i32::MIN), BlockType::Stone);
}

#[test]
fn old_generator_block_at_layers() {
    assert_eq!(world_gen::get_block_at(10, 22), BlockType::Water);
    assert_eq!(world_gen::get_block_at(10, 23), BlockType::Air);
    assert_eq!(world_gen::get_block_at(30, 29), BlockType::Grass);
    assert_eq!(world_gen::get_block_at(21, 20), BlockType::Sand);
    assert_eq!(world_gen::get_block_at(30, 27), BlockType::Dirt);
    assert_eq!(world_gen::get_block_at(30, 10), BlockType::Stone);
}

#[test]
fn leave_structure_is_the_crown() {
    let leaves = generate_leave_structure();
    assert_eq!(
        leaves,
        vec![
            (-1, -2, 0), (1, -2, 0), (0, -2, 1), (0, -2, -1),
            (-1, -1, 1), (0, -1, 1), (1, -1, 1),
            (1, -1, 0), (-1, -1, 0),
            (-1, -1, -1), (0, -1, -1), (1, -1, -1),
            (-1, 0, 0), (1, 0, 0), (0, 0, 1), (0, 0, -1),
            (0, 0, 0),
        ]
    );
}

#[test]
fn a_tree_grows_on_a_rolled_grass_column() {
    let chunk = Chunk::new(ChunkPos::new(0, 0), &columns_with_trees(30, &[(5, 5)]));
    assert_eq!(chunk.get_block(5, 29, 5), BlockType::Grass);
    for y in 30..35 {
        assert_eq!(chunk.get_block(5, y, 5), BlockType::Wood);
    }
    assert_eq!(chunk.get_block(5, 35, 5), BlockType::Leaves);
    assert_eq!(chunk.get_block(4, 35, 5), BlockType::Leaves);
    assert_eq!(chunk.get_block(4, 35, 4), BlockType::Air);
    assert_eq!(chunk.get_block(4, 34, 4), BlockType::Leaves);
    assert_eq!(chunk.get_block(6, 34, 6), BlockType::Leaves);
    assert_eq!(chunk.get_block(6, 33, 5), BlockType::Leaves);
    assert_eq!(chunk.get_block(6, 33, 6), BlockType::Air);
    assert_eq!(chunk.get_block(5, 36, 5), BlockType::Air);
    assert_eq!(chunk.get_block(4, 30, 5), BlockType::Air);
    // nowhere else
    assert_eq!(chunk.get_block(10, 30, 10), BlockType::Air);
}

#[test]
fn trees_keep_their_distance() {
    // (6, 6) is closer than 4 to (5, 5) along both axes
    let chunk = Chunk::new(ChunkPos::new(0, 0), &columns_with_trees(30, &[(5, 5), (7, 7)]));
    assert_eq!(chunk.get_block(5, 30, 5), BlockType::Wood);
    assert_eq!(chunk.get_block(7, 30, 7), BlockType::Air);
    // (9, 5) is 4 away along x
    let chunk = Chunk::new(ChunkPos::new(0, 0), &columns_with_trees(30, &[(5, 5), (9, 5)]));
    assert_eq!(chunk.get_block(5, 30, 5), BlockType::Wood);
    assert_eq!(chunk.get_block(9, 30, 5), BlockType::Wood);
}

#[test]
fn trees_need_grass_height_and_inner_columns() {
    for h in [23, 24, 50, 60] {
        let chunk = Chunk::new(ChunkPos::new(0, 0), &columns_with_trees(h, &[(5, 5)]));
        assert_ne!(chunk.get_block(5, h as usize, 5), BlockType::Wood);
    }
    for h in [25, 49] {
        let chunk = Chunk::new(ChunkPos::new(0, 0), &columns_with_trees(h, &[(5, 5)]));
        assert_eq!(chunk.get_block(5, h as usize, 5), BlockType::Wood);
    }
    let chunk = Chunk::new(ChunkPos::new(0, 0), &columns_with_trees(30, &[(1, 5), (14, 5), (5, 1), (5, 14)]));
    assert_eq!(chunk.get_block(1, 30, 5), BlockType::Air);
    assert_eq!(chunk.get_block(14, 30, 5), BlockType::Air);
    assert_eq!(chunk.get_block(5, 30, 1), BlockType::Air);
    assert_eq!(chunk.get_block(5, 30, 14), BlockType::Air);
}

#[test]
fn tree_blocks_stay_inside_the_chunk() {
    let mut all = Vec::new();
    for x in 0..16 {
        for z in 0..16 {
            all.push((x, z));
        }
    }
    let chunk = Chunk::new(ChunkPos::new(0, 0), &columns_with_trees(30, &all));
    for x in 0..16usize {
        for z in 0..16usize {
            for y in 0..128usize {
                let b = chunk.get_block(x, y, z);
                if b == BlockType::Wood || b == BlockType::Leaves {
                    assert!(1 <= x && x <= 14 && 1 <= z && z <= 14 && 24 <= y && y <= 54);
                }
            }
        }
    }
    // the first tree in scan order stands at (2, 2)
    assert_eq!(chunk.get_block(2, 30, 2), BlockType::Wood);
}

#[test]
fn generate_trees_reads_the_current_ground() {
    let mut blocks = vec![BlockType::Air; CHUNK_VOLUME];
    let cols = columns_with_trees(30, &[(5, 5)]);
    // no grass below the column: no tree
    world::generate_trees(&mut blocks, &cols);
    assert!(blocks.iter().all(|b| *b == BlockType::Air));
    blocks[Chunk::index(5, 29, 5)] = BlockType::Grass;
    world::generate_trees(&mut blocks, &cols);
    assert_eq!(blocks[Chunk::index(5, 30, 5)], BlockType::Wood);
    assert_eq!(blocks[Chunk::index(5, 35, 5)], BlockType::Leaves);
}

#[test]
fn old_generator_trees_are_closer_in_forests() {
    let mut base = vec![BlockType::Air; CHUNK_VOLUME];
    for x in 0..16 {
        for z in 0..16 {
            base[Chunk::index(x, 29, z)] = BlockType::Grass;
        }
    }
    let columns = |forest: bool| {
        let mut cols = Vec::new();
        for _ in 0..256 {
            cols.push(world_gen::ColumnSample { height: 30, tree_roll: false, forest });
        }
        cols[5 + 16 * 5].tree_roll = true;
        cols[9 + 16 * 5].tree_roll = true;
        cols
    };
    let mut plain = base.clone();
    world_gen::generate_trees(&mut plain, &columns(false));
    assert_eq!(plain[Chunk::index(5, 30, 5)], BlockType::Wood);
    assert_eq!(plain[Chunk::index(9, 30, 5)], BlockType::Air);
    let mut forest = base.clone();
    world_gen::generate_trees(&mut forest, &columns(true));
    assert_eq!(forest[Chunk::index(5, 30, 5)], BlockType::Wood);
    assert_eq!(forest[Chunk::index(9, 30, 5)], BlockType::Wood);
}
