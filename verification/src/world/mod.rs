pub mod biomes;
pub mod features;

use vstd::prelude::*;
use crate::chunk::{BlockType, CHUNK_VOLUME, in_chunk, spec_index};
use crate::world::features::{TreeColumn, place_trees, tree_block, seq_ground, column_index};
use crate::world::biomes::{Biome, surface_block};

verus! {

/// Below this height, open space above the terrain is filled with water.
pub const WATER_LEVEL: i32 = 24;

/// What the terrain generator reports for one column of a chunk.
#[derive(Clone, Copy, Debug, PartialEq, Eq, Structural)]
pub struct ColumnSample {
    /// Terrain height: the first y above the ground.
    pub height: i32,
    /// Biome of the column.
    pub biome: Biome,
    /// The tree noise at this column is above the tree threshold.
    pub tree_roll: bool,
}

/// The terrain block at height `y` of a column of the given height and biome.
pub open spec fn terrain_block(height: int, biome: Biome, y: int) -> BlockType {
    if y >= height {
        if y < WATER_LEVEL as int {
            BlockType::Water
        } else {
            BlockType::Air
        }
    } else if y < height - 4 {
        BlockType::Stone
    } else if y <= height - 2 {
        BlockType::Dirt
    } else if 20 <= height <= 24 {
        BlockType::Sand
    } else {
        surface_block(height - y)
    }
}

/// The terrain block at height `world_y` of a column whose terrain height is
/// `height` and whose biome is `biome`: water or air above the ground, stone
/// deep down, dirt in the three layers below the top one, and on top sand at
/// beach heights or the biome's surface block elsewhere.
pub fn get_block_at(height: i32, biome: Biome, world_y: i32) -> (r: BlockType)
    ensures
        r == terrain_block(height as int, biome, world_y as int),
{
    let h = height as i64;
    let y = world_y as i64;
    let depth = h - y;
    if y >= h {
        if world_y < WATER_LEVEL {
            return BlockType::Water;
        }
        return BlockType::Air;
    }
    if y < h - 4 {
        BlockType::Stone
    } else if y <= h - 2 && y >= h - 4 {
        BlockType::Dirt
    } else {
        if height <= 24 && height >= 20 {
            BlockType::Sand
        } else {
            biome.get_surface_block(depth as i32)
        }
    }
}

/// Trees in the world keep this distance from each other along x or z.
pub const TREE_MIN_DIST: i32 = 4;

/// What tree placement reads of the columns of a chunk.
pub open spec fn tree_columns(cols: Seq<ColumnSample>) -> Seq<TreeColumn> {
    Seq::new(
        cols.len(),
        |i: int| TreeColumn { height: cols[i].height, roll: cols[i].tree_roll, min_dist: TREE_MIN_DIST },
    )
}

/// The terrain of a chunk, before trees, read by position.
pub open spec fn terrain_ground(cols: Seq<ColumnSample>) -> spec_fn(int, int, int) -> BlockType {
    |x: int, y: int, z: int|
        terrain_block(cols[column_index(x, z)].height as int, cols[column_index(x, z)].biome, y)
}

/// Places the trees of a chunk on its blocks; the columns of the chunk are
/// listed with x varying fastest. See `place_trees` for where trees grow.
pub fn generate_trees(blocks: &mut Vec<BlockType>, columns: &Vec<ColumnSample>)
    requires
        old(blocks)@.len() == CHUNK_VOLUME,
        columns@.len() == 256,
    ensures
        final(blocks)@.len() == CHUNK_VOLUME,
        forall|x: int, y: int, z: int|
            in_chunk(x, y, z) ==> #[trigger] final(blocks)@[spec_index(x, y, z)] == tree_block(
                seq_ground(old(blocks)@),
                tree_columns(columns@),
                x,
                y,
                z,
            ),
{
    let mut cols: Vec<TreeColumn> = Vec::new();
    let mut i: usize = 0;
    while i < columns.len()
        invariant
            i <= columns@.len(),
            columns@.len() == 256,
            cols@.len() == i,
            forall|k: int| 0 <= k < i ==> #[trigger] cols@[k] == tree_columns(columns@)[k],
        decreases columns@.len() - i,
    {
        let c = columns[i];
        cols.push(TreeColumn { height: c.height, roll: c.tree_roll, min_dist: TREE_MIN_DIST });
        i += 1;
    }
    assert(cols@ =~= tree_columns(columns@));
    place_trees(blocks, &cols);
}

/// A column is solid exactly below its height: below it lies neither air nor
/// water, and above it water fills up to the water level and air lies higher.
pub proof fn lemma_terrain_solid_below_height(height: int, biome: Biome, y: int)
    ensures
        y < height ==> terrain_block(height, biome, y) != BlockType::Air && terrain_block(height, biome, y)
            != BlockType::Water,
        y >= height ==> terrain_block(height, biome, y) == (if y < WATER_LEVEL as int {
            BlockType::Water
        } else {
            BlockType::Air
        }),
        y < height - 4 ==> terrain_block(height, biome, y) == BlockType::Stone,
{
}

/// The layers of a column below its height: stone up to five blocks below
/// the top, then three layers of dirt, then the top block, which is sand at
/// beach heights 20 to 24 and grass at every other height.
pub proof fn lemma_terrain_layers(height: int, biome: Biome, y: int)
    ensures
        y < height - 4 ==> terrain_block(height, biome, y) == BlockType::Stone,
        height - 4 <= y <= height - 2 ==> terrain_block(height, biome, y) == BlockType::Dirt,
        y == height - 1 && 20 <= height <= 24 ==> terrain_block(height, biome, y) == BlockType::Sand,
        y == height - 1 && !(20 <= height <= 24) ==> terrain_block(height, biome, y) == BlockType::Grass,
{
}

} // verus!
