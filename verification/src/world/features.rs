use vstd::prelude::*;
use crate::chunk::{BlockType, Chunk, in_chunk, spec_index, lemma_index_bounds_injective, CHUNK_VOLUME};

verus! {

/// What tree placement reads of one column of a chunk.
#[derive(Clone, Copy, Debug, PartialEq, Eq, Structural)]
pub struct TreeColumn {
    /// Terrain height of the column.
    pub height: i32,
    /// The tree noise at the column is above the threshold.
    pub roll: bool,
    /// A tree is refused when an earlier tree is closer than this along both x and z.
    pub min_dist: i32,
}

/// The offsets, relative to the block just above the trunk, of the leaf blocks
/// of a tree, in the order in which they are placed.
pub open spec fn leaf_offsets() -> Seq<(i32, i32, i32)> {
    seq![
        (-1i32, -2i32, 0i32), (1i32, -2i32, 0i32), (0i32, -2i32, 1i32), (0i32, -2i32, -1i32),
        (-1i32, -1i32, 1i32), (0i32, -1i32, 1i32), (1i32, -1i32, 1i32),
        (1i32, -1i32, 0i32), (-1i32, -1i32, 0i32),
        (-1i32, -1i32, -1i32), (0i32, -1i32, -1i32), (1i32, -1i32, -1i32),
        (-1i32, 0i32, 0i32), (1i32, 0i32, 0i32), (0i32, 0i32, 1i32), (0i32, 0i32, -1i32),
        (0i32, 0i32, 0i32),
    ]
}

pub open spec fn abs_int(a: int) -> int {
    if a < 0 { -a } else { a }
}

/// The crown of a tree, as offsets from the block just above the trunk: two
/// layers below it the four side neighbours of the trunk, one layer below it
/// the eight blocks around the trunk, and at its level a cross of five blocks.
pub open spec fn leaf_shape(dx: int, dy: int, dz: int) -> bool {
    ||| dy == -2 && abs_int(dx) + abs_int(dz) == 1
    ||| dy == -1 && abs_int(dx) <= 1 && abs_int(dz) <= 1 && !(dx == 0 && dz == 0)
    ||| dy == 0 && abs_int(dx) + abs_int(dz) <= 1
}

/// The leaf offsets are exactly the blocks of the crown shape.
pub proof fn lemma_leaf_offsets_are_leaf_shape(dx: int, dy: int, dz: int)
    ensures
        leaf_shape(dx, dy, dz) <==> exists|k: int|
            0 <= k < 17 && #[trigger] leaf_offsets()[k].0 == dx && leaf_offsets()[k].1 == dy
                && leaf_offsets()[k].2 == dz,
{
    let o = leaf_offsets();
    assert(o.len() == 17);
    assert(o[0] == (-1i32, -2i32, 0i32));
    assert(o[1] == (1i32, -2i32, 0i32));
    assert(o[2] == (0i32, -2i32, 1i32));
    assert(o[3] == (0i32, -2i32, -1i32));
    assert(o[4] == (-1i32, -1i32, 1i32));
    assert(o[5] == (0i32, -1i32, 1i32));
    assert(o[6] == (1i32, -1i32, 1i32));
    assert(o[7] == (1i32, -1i32, 0i32));
    assert(o[8] == (-1i32, -1i32, 0i32));
    assert(o[9] == (-1i32, -1i32, -1i32));
    assert(o[10] == (0i32, -1i32, -1i32));
    assert(o[11] == (1i32, -1i32, -1i32));
    assert(o[12] == (-1i32, 0i32, 0i32));
    assert(o[13] == (1i32, 0i32, 0i32));
    assert(o[14] == (0i32, 0i32, 1i32));
    assert(o[15] == (0i32, 0i32, -1i32));
    assert(o[16] == (0i32, 0i32, 0i32));
    if leaf_shape(dx, dy, dz) {
        let k: int = if dy == -2 {
            if dx == -1 { 0 } else if dx == 1 { 1 } else if dz == 1 { 2 } else { 3 }
        } else if dy == -1 {
            if dz == 1 {
                if dx == -1 { 4 } else if dx == 0 { 5 } else { 6 }
            } else if dz == 0 {
                if dx == 1 { 7 } else { 8 }
            } else {
                if dx == -1 { 9 } else if dx == 0 { 10 } else { 11 }
            }
        } else {
            if dx == -1 { 12 } else if dx == 1 { 13 } else if dz == 1 { 14 } else if dz == -1 { 15 } else { 16 }
        };
        assert(0 <= k < 17 && o[k].0 == dx && o[k].1 == dy && o[k].2 == dz);
    }
}

/// The leaf offsets of a tree, relative to the block just above its trunk.
pub fn generate_leave_structure() -> (r: Vec<(i32, i32, i32)>)
    ensures
        r@ == leaf_offsets(),
{
    let r = vec![
        (-1, -2, 0), (1, -2, 0), (0, -2, 1), (0, -2, -1),
        (-1, -1, 1), (0, -1, 1), (1, -1, 1),
        (1, -1, 0), (-1, -1, 0),
        (-1, -1, -1), (0, -1, -1), (1, -1, -1),
        (-1, 0, 0), (1, 0, 0), (0, 0, 1), (0, 0, -1),
        (0, 0, 0),
    ];
    assert(r@ =~= leaf_offsets());
    r
}

/// Index of the column `(x, z)` in a chunk's list of columns.
pub open spec fn column_index(x: int, z: int) -> int {
    x + 16 * z
}

/// The blocks of a chunk, read by position.
pub open spec fn seq_ground(b: Seq<BlockType>) -> spec_fn(int, int, int) -> BlockType {
    |x: int, y: int, z: int| b[spec_index(x, y, z)]
}

/// Terrain height of the column of a tree site.
pub open spec fn site_height(cols: Seq<TreeColumn>, s: (int, int)) -> int {
    cols[column_index(s.0, s.1)].height as int
}

/// Some site in `sites` lies closer than `md` to `(x, z)` along both axes.
pub open spec fn too_close(sites: Seq<(int, int)>, x: int, z: int, md: int) -> bool {
    exists|i: int|
        0 <= i < sites.len() && abs_int(#[trigger] sites[i].0 - x) < md && abs_int(sites[i].1 - z) < md
}

/// A tree grows at `(x, z)`, given the trees already placed: the column's
/// height lies in the chunk, the ground block below it is grass, the tree
/// noise rolled, the height lies strictly between 23 and 50, and no earlier
/// tree is too close.
pub open spec fn is_tree_site(
    ground: spec_fn(int, int, int) -> BlockType,
    cols: Seq<TreeColumn>,
    sites: Seq<(int, int)>,
    x: int,
    z: int,
) -> bool {
    let c = cols[column_index(x, z)];
    let h = c.height as int;
    &&& 0 < h < 128
    &&& ground(x, h - 1, z) == BlockType::Grass
    &&& c.roll
    &&& 23 < h < 50
    &&& !too_close(sites, x, z, c.min_dist as int)
}

/// The trees placed before column `(x, z)` is looked at, columns being scanned
/// with x from 2 to 13 and, for each x, z from 2 to 13.
pub open spec fn sites_before(
    ground: spec_fn(int, int, int) -> BlockType,
    cols: Seq<TreeColumn>,
    x: int,
    z: int,
) -> Seq<(int, int)>
    decreases x, z,
{
    if x <= 2 && z <= 2 {
        Seq::empty()
    } else if z <= 2 {
        sites_before(ground, cols, x - 1, 14)
    } else {
        let prev = sites_before(ground, cols, x, z - 1);
        if is_tree_site(ground, cols, prev, x, z - 1) {
            prev.push((x, z - 1))
        } else {
            prev
        }
    }
}

/// All trees of a chunk.
pub open spec fn tree_sites(ground: spec_fn(int, int, int) -> BlockType, cols: Seq<TreeColumn>) -> Seq<
    (int, int),
> {
    sites_before(ground, cols, 14, 2)
}

/// `(x, y, z)` is a trunk block of the tree at `s` growing from height `h`.
pub open spec fn in_trunk(s: (int, int), h: int, x: int, y: int, z: int) -> bool {
    x == s.0 && z == s.1 && h <= y < h + 5
}

/// `(x, y, z)` is a leaf block of the tree at `s` growing from height `h`.
pub open spec fn in_leaves(s: (int, int), h: int, x: int, y: int, z: int) -> bool {
    leaf_shape(x - s.0, y - (h + 5), z - s.1)
}

/// The block at `(x, y, z)` once the trees at `sites` stand on `ground`.
pub open spec fn with_trees(
    ground: spec_fn(int, int, int) -> BlockType,
    cols: Seq<TreeColumn>,
    sites: Seq<(int, int)>,
    x: int,
    y: int,
    z: int,
) -> BlockType {
    if exists|i: int|
        0 <= i < sites.len() && in_leaves(#[trigger] sites[i], site_height(cols, sites[i]), x, y, z) {
        BlockType::Leaves
    } else if exists|i: int|
        0 <= i < sites.len() && in_trunk(#[trigger] sites[i], site_height(cols, sites[i]), x, y, z) {
        BlockType::Wood
    } else {
        ground(x, y, z)
    }
}

/// The block at `(x, y, z)` once the trees of the chunk are placed on `ground`.
pub open spec fn tree_block(
    ground: spec_fn(int, int, int) -> BlockType,
    cols: Seq<TreeColumn>,
    x: int,
    y: int,
    z: int,
) -> BlockType {
    with_trees(ground, cols, tree_sites(ground, cols), x, y, z)
}

/// The block at position `(x, y, z)` after planting the tree whose trunk stands
/// on column `(tx, tz)` from height `h`, over `before`.
pub open spec fn planted(
    before: Seq<BlockType>,
    tx: int,
    tz: int,
    h: int,
    x: int,
    y: int,
    z: int,
) -> BlockType {
    if in_leaves((tx, tz), h, x, y, z) {
        BlockType::Leaves
    } else if in_trunk((tx, tz), h, x, y, z) {
        BlockType::Wood
    } else {
        before[spec_index(x, y, z)]
    }
}

/// Writes one tree into the chunk: five blocks of trunk from the terrain
/// height up, then the crown of leaves above it.
fn plant_tree(blocks: &mut Vec<BlockType>, x: usize, z: usize, height: i32)
    requires
        old(blocks)@.len() == CHUNK_VOLUME,
        2 <= x <= 13,
        2 <= z <= 13,
        23 < height < 50,
    ensures
        final(blocks)@.len() == CHUNK_VOLUME,
        forall|cx: int, cy: int, cz: int|
            in_chunk(cx, cy, cz) ==> #[trigger] final(blocks)@[spec_index(cx, cy, cz)] == planted(
                old(blocks)@,
                x as int,
                z as int,
                height as int,
                cx,
                cy,
                cz,
            ),
{
    let ghost before = blocks@;
    let ghost h = height as int;
    // Trunk
    for y in 0..5usize
        invariant
            blocks@.len() == CHUNK_VOLUME,
            2 <= x <= 13,
            2 <= z <= 13,
            23 < height < 50,
            h == height as int,
            forall|cx: int, cy: int, cz: int|
                in_chunk(cx, cy, cz) ==> #[trigger] blocks@[spec_index(cx, cy, cz)] == if cx == x
                    && cz == z && h <= cy < h + y {
                    BlockType::Wood
                } else {
                    before[spec_index(cx, cy, cz)]
                },
    {
        let block_y = height as usize + y;
        if block_y < 128 {
            let idx = Chunk::index(x, block_y, z);
            blocks.set(idx, BlockType::Wood);
            assert forall|cx: int, cy: int, cz: int| in_chunk(cx, cy, cz) implies #[trigger] blocks@[spec_index(cx, cy, cz)] == if cx == x
                && cz == z && h <= cy < h + y + 1 {
                BlockType::Wood
            } else {
                before[spec_index(cx, cy, cz)]
            } by {
                lemma_index_bounds_injective(cx, cy, cz, x as int, block_y as int, z as int);
            }
        }
    }
    // Crown
    let leaves = generate_leave_structure();
    let mut j: usize = 0;
    while j < leaves.len()
        invariant
            blocks@.len() == CHUNK_VOLUME,
            leaves@ == leaf_offsets(),
            0 <= j <= 17,
            2 <= x <= 13,
            2 <= z <= 13,
            23 < height < 50,
            h == height as int,
            forall|cx: int, cy: int, cz: int|
                in_chunk(cx, cy, cz) ==> #[trigger] blocks@[spec_index(cx, cy, cz)] == if exists|k: int|
                    0 <= k < j && #[trigger] leaves@[k].0 == cx - x && leaves@[k].1 == cy - (h + 5)
                        && leaves@[k].2 == cz - z {
                    BlockType::Leaves
                } else if cx == x && cz == z && h <= cy < h + 5 {
                    BlockType::Wood
                } else {
                    before[spec_index(cx, cy, cz)]
                },
        decreases 17 - j,
    {
        let leave = leaves[j];
        proof {
            lemma_leaf_offsets_are_leaf_shape(leave.0 as int, leave.1 as int, leave.2 as int);
        }
        let leaf_y = (height + 5) + leave.1;
        if leaf_y >= 0 && leaf_y < 128 {
            let lx = (x as i32 + leave.0) as usize;
            let lz = (z as i32 + leave.2) as usize;
            let idx = Chunk::index(lx, leaf_y as usize, lz);
            blocks.set(idx, BlockType::Leaves);
            assert forall|cx: int, cy: int, cz: int| in_chunk(cx, cy, cz) implies #[trigger] blocks@[spec_index(cx, cy, cz)] == if exists|k: int|
                0 <= k < j + 1 && #[trigger] leaves@[k].0 == cx - x && leaves@[k].1 == cy - (h + 5)
                    && leaves@[k].2 == cz - z {
                BlockType::Leaves
            } else if cx == x && cz == z && h <= cy < h + 5 {
                BlockType::Wood
            } else {
                before[spec_index(cx, cy, cz)]
            } by {
                lemma_index_bounds_injective(cx, cy, cz, lx as int, leaf_y as int, lz as int);
                if cx == lx && cy == leaf_y && cz == lz {
                    assert(leaves@[j as int].0 == cx - x);
                } else {
                    if exists|k: int|
                        0 <= k < j + 1 && #[trigger] leaves@[k].0 == cx - x && leaves@[k].1 == cy - (h + 5)
                            && leaves@[k].2 == cz - z {
                        let k = choose|k: int|
                            0 <= k < j + 1 && #[trigger] leaves@[k].0 == cx - x && leaves@[k].1 == cy - (h + 5)
                                && leaves@[k].2 == cz - z;
                        assert(k < j);
                    }
                }
            }
        }
        j += 1;
    }
    assert forall|cx: int, cy: int, cz: int| in_chunk(cx, cy, cz) implies #[trigger] blocks@[spec_index(cx, cy, cz)] == planted(
        before,
        x as int,
        z as int,
        h,
        cx,
        cy,
        cz,
    ) by {
        lemma_leaf_offsets_are_leaf_shape(cx - x, cy - (h + 5), cz - z);
    }
}

/// Columns that hold no block of any tree at `sites` keep their ground blocks.
pub proof fn lemma_far_column_untouched(
    ground: spec_fn(int, int, int) -> BlockType,
    cols: Seq<TreeColumn>,
    sites: Seq<(int, int)>,
    x: int,
    y: int,
    z: int,
    md: int,
)
    requires
        md >= 2,
        !too_close(sites, x, z, md),
    ensures
        with_trees(ground, cols, sites, x, y, z) == ground(x, y, z),
{
    assert forall|i: int| 0 <= i < sites.len() implies !in_leaves(
        #[trigger] sites[i],
        site_height(cols, sites[i]),
        x,
        y,
        z,
    ) && !in_trunk(sites[i], site_height(cols, sites[i]), x, y, z) by {
        assert(!(abs_int(sites[i].0 - x) < md && abs_int(sites[i].1 - z) < md));
    }
}

/// Adding a tree that is not too close to the earlier ones puts its trunk and
/// crown on top of what the earlier trees left.
pub proof fn lemma_add_site(
    ground: spec_fn(int, int, int) -> BlockType,
    cols: Seq<TreeColumn>,
    sites: Seq<(int, int)>,
    s: (int, int),
    md: int,
    x: int,
    y: int,
    z: int,
)
    requires
        md >= 3,
        !too_close(sites, s.0, s.1, md),
    ensures
        with_trees(ground, cols, sites.push(s), x, y, z) == if in_leaves(
            s,
            site_height(cols, s),
            x,
            y,
            z,
        ) {
            BlockType::Leaves
        } else if in_trunk(s, site_height(cols, s), x, y, z) {
            BlockType::Wood
        } else {
            with_trees(ground, cols, sites, x, y, z)
        },
{
    let ns = sites.push(s);
    let h = site_height(cols, s);
    assert(ns[sites.len() as int] == s);
    assert forall|i: int| 0 <= i < sites.len() implies #[trigger] ns[i] == sites[i] by {}
    if in_leaves(s, h, x, y, z) {
        assert(in_leaves(ns[sites.len() as int], site_height(cols, ns[sites.len() as int]), x, y, z));
    } else if in_trunk(s, h, x, y, z) {
        assert forall|i: int| 0 <= i < ns.len() implies !in_leaves(
            #[trigger] ns[i],
            site_height(cols, ns[i]),
            x,
            y,
            z,
        ) by {
            if i < sites.len() {
                assert(!(abs_int(sites[i].0 - s.0) < md && abs_int(sites[i].1 - s.1) < md));
            }
        }
        assert(in_trunk(ns[sites.len() as int], site_height(cols, ns[sites.len() as int]), x, y, z));
    } else {
        if exists|i: int|
            0 <= i < ns.len() && in_leaves(#[trigger] ns[i], site_height(cols, ns[i]), x, y, z) {
            let i = choose|i: int|
                0 <= i < ns.len() && in_leaves(#[trigger] ns[i], site_height(cols, ns[i]), x, y, z);
            assert(i < sites.len());
            assert(in_leaves(sites[i], site_height(cols, sites[i]), x, y, z));
        }
        if exists|i: int|
            0 <= i < ns.len() && in_trunk(#[trigger] ns[i], site_height(cols, ns[i]), x, y, z) {
            let i = choose|i: int|
                0 <= i < ns.len() && in_trunk(#[trigger] ns[i], site_height(cols, ns[i]), x, y, z);
            assert(i < sites.len());
            assert(in_trunk(sites[i], site_height(cols, sites[i]), x, y, z));
        }
        if exists|i: int|
            0 <= i < sites.len() && in_leaves(#[trigger] sites[i], site_height(cols, sites[i]), x, y, z) {
            let i = choose|i: int|
                0 <= i < sites.len() && in_leaves(#[trigger] sites[i], site_height(cols, sites[i]), x, y, z);
            assert(in_leaves(ns[i], site_height(cols, ns[i]), x, y, z));
        }
        if exists|i: int|
            0 <= i < sites.len() && in_trunk(#[trigger] sites[i], site_height(cols, sites[i]), x, y, z) {
            let i = choose|i: int|
                0 <= i < sites.len() && in_trunk(#[trigger] sites[i], site_height(cols, sites[i]), x, y, z);
            assert(in_trunk(ns[i], site_height(cols, ns[i]), x, y, z));
        }
    }
}

/// Distance between two small coordinates.
fn abs_diff(a: i32, b: i32) -> (r: i32)
    requires
        -1000 <= a <= 1000,
        -1000 <= b <= 1000,
    ensures
        r as int == abs_int(a - b),
{
    let d = a - b;
    if d < 0 {
        -d
    } else {
        d
    }
}

/// Tells whether some position in `positions` is closer than `min_dist` to
/// `(x, z)` along both axes.
fn is_too_close(positions: &Vec<(usize, usize)>, x: usize, z: usize, min_dist: i32) -> (r: bool)
    requires
        x <= 16,
        z <= 16,
        forall|k: int| 0 <= k < positions@.len() ==> #[trigger] positions@[k].0 <= 16 && positions@[k].1 <= 16,
    ensures
        r == exists|k: int|
            0 <= k < positions@.len() && abs_int(#[trigger] positions@[k].0 - x) < min_dist && abs_int(
                positions@[k].1 - z,
            ) < min_dist,
{
    let mut too_close = false;
    let mut i: usize = 0;
    while i < positions.len()
        invariant
            i <= positions@.len(),
            x <= 16,
            z <= 16,
            forall|k: int| 0 <= k < positions@.len() ==> #[trigger] positions@[k].0 <= 16 && positions@[k].1 <= 16,
            too_close == exists|k: int|
                0 <= k < i && abs_int(#[trigger] positions@[k].0 - x) < min_dist && abs_int(
                    positions@[k].1 - z,
                ) < min_dist,
        decreases positions@.len() - i,
    {
        let pos = positions[i];
        let dx = abs_diff(pos.0 as i32, x as i32);
        let dz = abs_diff(pos.1 as i32, z as i32);
        if dx < min_dist && dz < min_dist {
            too_close = true;
        }
        i += 1;
    }
    too_close
}

/// Looks at column `(x, z)` during tree placement and plants a tree there if
/// it is a tree site given the trees `prev` placed so far.
fn visit_column(
    blocks: &mut Vec<BlockType>,
    tree_positions: &mut Vec<(usize, usize)>,
    cols: &Vec<TreeColumn>,
    x: usize,
    z: usize,
    Ghost(g): Ghost<spec_fn(int, int, int) -> BlockType>,
    Ghost(prev): Ghost<Seq<(int, int)>>,
)
    requires
        2 <= x <= 13,
        2 <= z <= 13,
        old(blocks)@.len() == CHUNK_VOLUME,
        cols@.len() == 256,
        forall|i: int| 0 <= i < 256 ==> #[trigger] cols@[i].min_dist >= 3,
        as_int_pairs(old(tree_positions)@) == prev,
        forall|k: int|
            0 <= k < old(tree_positions)@.len() ==> #[trigger] old(tree_positions)@[k].0 <= 16
                && old(tree_positions)@[k].1 <= 16,
        forall|cx: int, cy: int, cz: int|
            in_chunk(cx, cy, cz) ==> #[trigger] old(blocks)@[spec_index(cx, cy, cz)] == with_trees(
                g,
                cols@,
                prev,
                cx,
                cy,
                cz,
            ),
    ensures
        final(blocks)@.len() == CHUNK_VOLUME,
        as_int_pairs(final(tree_positions)@) == (if is_tree_site(g, cols@, prev, x as int, z as int) {
            prev.push((x as int, z as int))
        } else {
            prev
        }),
        forall|k: int|
            0 <= k < final(tree_positions)@.len() ==> #[trigger] final(tree_positions)@[k].0 <= 16
                && final(tree_positions)@[k].1 <= 16,
        forall|cx: int, cy: int, cz: int|
            in_chunk(cx, cy, cz) ==> #[trigger] final(blocks)@[spec_index(cx, cy, cz)] == with_trees(
                g,
                cols@,
                if is_tree_site(g, cols@, prev, x as int, z as int) {
                    prev.push((x as int, z as int))
                } else {
                    prev
                },
                cx,
                cy,
                cz,
            ),
{
    let c = cols[x + z * 16];
    let height = c.height;
    let ghost md = c.min_dist as int;
    let ghost spec_close = too_close(prev, x as int, z as int, md);
    proof {
        if !spec_close {
            lemma_far_column_untouched(g, cols@, prev, x as int, height - 1, z as int, md);
        }
    }
    let mut planted_here = false;
    if height > 0 && height < 128 {
        let ground_idx = Chunk::index(x, (height - 1) as usize, z);
        if blocks[ground_idx] == BlockType::Grass {
            if c.roll && height < 50 && height > 23 {
                let close = is_too_close(tree_positions, x, z, c.min_dist);
                proof {
                    if close {
                        let k = choose|k: int|
                            0 <= k < tree_positions@.len() && abs_int(
                                #[trigger] tree_positions@[k].0 - x,
                            ) < c.min_dist && abs_int(tree_positions@[k].1 - z) < c.min_dist;
                        assert(prev[k] == as_int_pairs(tree_positions@)[k]);
                        assert(abs_int(prev[k].0 - x) < md);
                    } else if spec_close {
                        let k = choose|k: int|
                            0 <= k < prev.len() && abs_int(#[trigger] prev[k].0 - x) < md
                                && abs_int(prev[k].1 - z) < md;
                        assert(prev[k] == as_int_pairs(tree_positions@)[k]);
                        assert(abs_int(tree_positions@[k].0 - x) < c.min_dist);
                    }
                }
                if !close {
                    let ghost before = blocks@;
                    plant_tree(blocks, x, z, height);
                    let ghost old_positions = tree_positions@;
                    tree_positions.push((x, z));
                    planted_here = true;
                    proof {
                        assert(as_int_pairs(tree_positions@) =~= as_int_pairs(old_positions).push(
                            (x as int, z as int),
                        ));
                        assert forall|k: int| 0 <= k < tree_positions@.len() implies #[trigger] tree_positions@[k].0
                            <= 16 && tree_positions@[k].1 <= 16 by {
                            if k < old_positions.len() {
                                assert(tree_positions@[k] == old_positions[k]);
                            }
                        }
                        assert(site_height(cols@, (x as int, z as int)) == height as int);
                        assert forall|cx: int, cy: int, cz: int| in_chunk(
                            cx,
                            cy,
                            cz,
                        ) implies #[trigger] blocks@[spec_index(cx, cy, cz)] == with_trees(
                            g,
                            cols@,
                            prev.push((x as int, z as int)),
                            cx,
                            cy,
                            cz,
                        ) by {
                            lemma_add_site(g, cols@, prev, (x as int, z as int), md, cx, cy, cz);
                            assert(before[spec_index(cx, cy, cz)] == with_trees(g, cols@, prev, cx, cy, cz));
                        }
                    }
                }
            }
        }
    }
    assert(planted_here == is_tree_site(g, cols@, prev, x as int, z as int));
}

/// The positions `v` as pairs of integers.
pub open spec fn as_int_pairs(v: Seq<(usize, usize)>) -> Seq<(int, int)> {
    Seq::new(v.len(), |k: int| (v[k].0 as int, v[k].1 as int))
}

/// Places the trees of a chunk on the blocks `blocks`, scanning the columns
/// 2 to 13 along x and, for each, 2 to 13 along z (so that no crown leaves the
/// chunk). A tree grows on a column whose ground block is grass, whose tree
/// noise rolled, whose height lies strictly between 23 and 50, and that is not
/// too close to a tree placed before it.
pub(crate) fn place_trees(blocks: &mut Vec<BlockType>, cols: &Vec<TreeColumn>)
    requires
        old(blocks)@.len() == CHUNK_VOLUME,
        cols@.len() == 256,
        forall|i: int| 0 <= i < 256 ==> #[trigger] cols@[i].min_dist >= 3,
    ensures
        final(blocks)@.len() == CHUNK_VOLUME,
        forall|x: int, y: int, z: int|
            in_chunk(x, y, z) ==> #[trigger] final(blocks)@[spec_index(x, y, z)] == tree_block(
                seq_ground(old(blocks)@),
                cols@,
                x,
                y,
                z,
            ),
{
    let ghost g = seq_ground(blocks@);
    let ghost mut sites: Seq<(int, int)> = Seq::empty();
    let mut tree_positions: Vec<(usize, usize)> = Vec::new();
    for x in 2..14usize
        invariant
            blocks@.len() == CHUNK_VOLUME,
            cols@.len() == 256,
            forall|i: int| 0 <= i < 256 ==> #[trigger] cols@[i].min_dist >= 3,
            g == seq_ground(old(blocks)@),
            sites == sites_before(g, cols@, x as int, 2),
            as_int_pairs(tree_positions@) == sites,
            forall|k: int|
                0 <= k < tree_positions@.len() ==> #[trigger] tree_positions@[k].0 <= 16
                    && tree_positions@[k].1 <= 16,
            forall|cx: int, cy: int, cz: int|
                in_chunk(cx, cy, cz) ==> #[trigger] blocks@[spec_index(cx, cy, cz)] == with_trees(
                    g,
                    cols@,
                    sites,
                    cx,
                    cy,
                    cz,
                ),
    {
        for z in 2..14usize
            invariant
                2 <= x < 14,
                blocks@.len() == CHUNK_VOLUME,
                cols@.len() == 256,
                forall|i: int| 0 <= i < 256 ==> #[trigger] cols@[i].min_dist >= 3,
                g == seq_ground(old(blocks)@),
                sites == sites_before(g, cols@, x as int, z as int),
                as_int_pairs(tree_positions@) == sites,
                forall|k: int|
                    0 <= k < tree_positions@.len() ==> #[trigger] tree_positions@[k].0 <= 16
                        && tree_positions@[k].1 <= 16,
                forall|cx: int, cy: int, cz: int|
                    in_chunk(cx, cy, cz) ==> #[trigger] blocks@[spec_index(cx, cy, cz)] == with_trees(
                        g,
                        cols@,
                        sites,
                        cx,
                        cy,
                        cz,
                    ),
        {
            let ghost prev = sites;
            visit_column(blocks, &mut tree_positions, cols, x, z, Ghost(g), Ghost(prev));
            proof {
                if is_tree_site(g, cols@, prev, x as int, z as int) {
                    sites = prev.push((x as int, z as int));
                }
                assert(sites == sites_before(g, cols@, x as int, z + 1));
            }
        }
    }
}

/// Tree placement reads the ground only inside the chunk, so two grounds that
/// agree there give the same trees.
pub proof fn lemma_sites_congruent(
    g1: spec_fn(int, int, int) -> BlockType,
    g2: spec_fn(int, int, int) -> BlockType,
    cols: Seq<TreeColumn>,
    x: int,
    z: int,
)
    requires
        forall|a: int, b: int, c: int| in_chunk(a, b, c) ==> #[trigger] g1(a, b, c) == g2(a, b, c),
        2 <= x <= 14,
        2 <= z <= 14,
    ensures
        sites_before(g1, cols, x, z) == sites_before(g2, cols, x, z),
    decreases x, z,
{
    if x <= 2 && z <= 2 {
    } else if z <= 2 {
        lemma_sites_congruent(g1, g2, cols, x - 1, 14);
    } else {
        lemma_sites_congruent(g1, g2, cols, x, z - 1);
        let h = cols[column_index(x, z - 1)].height as int;
        if 0 < h < 128 {
            assert(g1(x, h - 1, z - 1) == g2(x, h - 1, z - 1));
        }
    }
}

/// The blocks with trees agree for two grounds that agree inside the chunk.
pub proof fn lemma_tree_block_congruent(
    g1: spec_fn(int, int, int) -> BlockType,
    g2: spec_fn(int, int, int) -> BlockType,
    cols: Seq<TreeColumn>,
    x: int,
    y: int,
    z: int,
)
    requires
        forall|a: int, b: int, c: int| in_chunk(a, b, c) ==> #[trigger] g1(a, b, c) == g2(a, b, c),
        in_chunk(x, y, z),
    ensures
        tree_block(g1, cols, x, y, z) == tree_block(g2, cols, x, y, z),
{
    lemma_sites_congruent(g1, g2, cols, 14, 2);
    assert(g1(x, y, z) == g2(x, y, z));
}

/// Every tree placed before column `(x, z)` stands on a scanned column whose
/// ground block is grass, whose tree noise rolled and whose height lies
/// strictly between 23 and 50; and each tree keeps its own minimum distance
/// from every earlier tree along x or along z.
pub proof fn lemma_sites_before_properties(
    ground: spec_fn(int, int, int) -> BlockType,
    cols: Seq<TreeColumn>,
    x: int,
    z: int,
)
    requires
        2 <= x <= 14,
        2 <= z <= 14,
        x <= 13 || z == 2,
    ensures
        forall|i: int|
            0 <= i < sites_before(ground, cols, x, z).len() ==> {
                let s = #[trigger] sites_before(ground, cols, x, z)[i];
                let c = cols[column_index(s.0, s.1)];
                &&& 2 <= s.0 <= 13
                &&& 2 <= s.1 <= 13
                &&& 23 < c.height < 50
                &&& c.roll
                &&& ground(s.0, c.height - 1, s.1) == BlockType::Grass
            },
        forall|i: int, j: int|
            0 <= i < j < sites_before(ground, cols, x, z).len() ==> {
                let si = #[trigger] sites_before(ground, cols, x, z)[i];
                let sj = #[trigger] sites_before(ground, cols, x, z)[j];
                let md = cols[column_index(sj.0, sj.1)].min_dist as int;
                abs_int(si.0 - sj.0) >= md || abs_int(si.1 - sj.1) >= md
            },
    decreases x, z,
{
    if x <= 2 && z <= 2 {
    } else if z <= 2 {
        lemma_sites_before_properties(ground, cols, x - 1, 14);
    } else {
        lemma_sites_before_properties(ground, cols, x, z - 1);
        let prev = sites_before(ground, cols, x, z - 1);
        if is_tree_site(ground, cols, prev, x, z - 1) {
            let cur = prev.push((x, z - 1));
            assert(cur == sites_before(ground, cols, x, z));
            assert forall|i: int, j: int| 0 <= i < j < cur.len() implies {
                let si = #[trigger] cur[i];
                let sj = #[trigger] cur[j];
                let md = cols[column_index(sj.0, sj.1)].min_dist as int;
                abs_int(si.0 - sj.0) >= md || abs_int(si.1 - sj.1) >= md
            } by {
                if j == prev.len() {
                    let md = cols[column_index(x, z - 1)].min_dist as int;
                    assert(cur[i] == prev[i]);
                    assert(!(abs_int(prev[i].0 - x) < md && abs_int(prev[i].1 - (z - 1)) < md));
                } else {
                    assert(cur[i] == prev[i] && cur[j] == prev[j]);
                }
            }
            assert forall|i: int| 0 <= i < cur.len() implies {
                let s = #[trigger] cur[i];
                let c = cols[column_index(s.0, s.1)];
                &&& 2 <= s.0 <= 13
                &&& 2 <= s.1 <= 13
                &&& 23 < c.height < 50
                &&& c.roll
                &&& ground(s.0, c.height - 1, s.1) == BlockType::Grass
            } by {
                if i < prev.len() {
                    assert(cur[i] == prev[i]);
                }
            }
        }
    }
}

/// Tree placement keeps to the chunk and only adds wood and leaves: a block
/// that differs from the ground is wood or leaves, and lies at least one
/// block inside the chunk's sides, between heights 24 and 54.
pub proof fn lemma_trees_stay_inside(
    ground: spec_fn(int, int, int) -> BlockType,
    cols: Seq<TreeColumn>,
    x: int,
    y: int,
    z: int,
)
    ensures
        tree_block(ground, cols, x, y, z) == ground(x, y, z) || tree_block(ground, cols, x, y, z)
            == BlockType::Wood || tree_block(ground, cols, x, y, z) == BlockType::Leaves,
        tree_block(ground, cols, x, y, z) != ground(x, y, z) ==> 1 <= x <= 14 && 1 <= z <= 14 && 24 <= y
            <= 54,
{
    let sites = tree_sites(ground, cols);
    lemma_sites_before_properties(ground, cols, 14, 2);
    if exists|i: int|
        0 <= i < sites.len() && in_leaves(#[trigger] sites[i], site_height(cols, sites[i]), x, y, z) {
        let i = choose|i: int|
            0 <= i < sites.len() && in_leaves(#[trigger] sites[i], site_height(cols, sites[i]), x, y, z);
        assert(2 <= sites[i].0 <= 13);
    } else if exists|i: int|
        0 <= i < sites.len() && in_trunk(#[trigger] sites[i], site_height(cols, sites[i]), x, y, z) {
        let i = choose|i: int|
            0 <= i < sites.len() && in_trunk(#[trigger] sites[i], site_height(cols, sites[i]), x, y, z);
        assert(2 <= sites[i].0 <= 13);
    }
}

/// A tree placed once the scan has passed column `(x1, z1 - 1)` is still
/// placed at every later point of the scan.
proof fn lemma_sites_keep(
    ground: spec_fn(int, int, int) -> BlockType,
    cols: Seq<TreeColumn>,
    x1: int,
    z1: int,
    x2: int,
    z2: int,
    p: (int, int),
)
    requires
        2 <= x1 <= 13,
        3 <= z1 <= 14,
        2 <= x2 <= 14,
        2 <= z2 <= 14,
        x1 < x2 || (x1 == x2 && z1 <= z2),
        sites_before(ground, cols, x1, z1).contains(p),
    ensures
        sites_before(ground, cols, x2, z2).contains(p),
    decreases x2, z2,
{
    if x1 == x2 && z1 == z2 {
    } else if z2 <= 2 {
        lemma_sites_keep(ground, cols, x1, z1, x2 - 1, 14, p);
    } else {
        lemma_sites_keep(ground, cols, x1, z1, x2, z2 - 1, p);
        let prev = sites_before(ground, cols, x2, z2 - 1);
        if is_tree_site(ground, cols, prev, x2, z2 - 1) {
            let k = choose|k: int| 0 <= k < prev.len() && prev[k] == p;
            assert(prev.push((x2, z2 - 1))[k] == p);
        }
    }
}

/// Every tree candidate gets its tree: a column `(x, z)` with x and z in
/// `2..=13` whose ground block just below its height `h` is grass, whose tree
/// noise rolled, with `23 < h < 50`, and with no tree placed earlier in the
/// scan closer than its minimum distance along both axes, is a tree site;
/// when every column keeps trees at least two apart, its trunk is wood at
/// height `h`.
pub proof fn lemma_tree_candidates_get_trees(
    ground: spec_fn(int, int, int) -> BlockType,
    cols: Seq<TreeColumn>,
    x: int,
    z: int,
)
    requires
        2 <= x <= 13,
        2 <= z <= 13,
        ground(x, cols[column_index(x, z)].height - 1, z) == BlockType::Grass,
        cols[column_index(x, z)].roll,
        23 < cols[column_index(x, z)].height < 50,
        !exists|i: int|
            0 <= i < sites_before(ground, cols, x, z).len() && abs_int(
                #[trigger] sites_before(ground, cols, x, z)[i].0 - x,
            ) < cols[column_index(x, z)].min_dist && abs_int(sites_before(ground, cols, x, z)[i].1 - z)
                < cols[column_index(x, z)].min_dist,
    ensures
        tree_sites(ground, cols).contains((x, z)),
        (forall|k: int| 0 <= k < cols.len() ==> #[trigger] cols[k].min_dist >= 2) && cols.len() == 256
            ==> tree_block(ground, cols, x, cols[column_index(x, z)].height as int, z) == BlockType::Wood,
{
    let prev = sites_before(ground, cols, x, z);
    assert(!too_close(prev, x, z, cols[column_index(x, z)].min_dist as int));
    assert(is_tree_site(ground, cols, prev, x, z));
    assert(sites_before(ground, cols, x, z + 1) == prev.push((x, z)));
    assert(prev.push((x, z))[prev.len() as int] == (x, z));
    lemma_sites_keep(ground, cols, x, z + 1, 14, 2, (x, z));
    if (forall|k: int| 0 <= k < cols.len() ==> #[trigger] cols[k].min_dist >= 2) && cols.len() == 256 {
        let sites = tree_sites(ground, cols);
        let h = cols[column_index(x, z)].height as int;
        lemma_sites_before_properties(ground, cols, 14, 2);
        let t = choose|t: int| 0 <= t < sites.len() && sites[t] == (x, z);
        assert forall|i: int| 0 <= i < sites.len() implies !in_leaves(
            #[trigger] sites[i],
            site_height(cols, sites[i]),
            x,
            h,
            z,
        ) by {
            if i != t {
                let (a, b) = if i < t { (i, t) } else { (t, i) };
                let sb = sites[b];
                assert(2 <= sb.0 <= 13 && 2 <= sb.1 <= 13);
                assert(0 <= column_index(sb.0, sb.1) < 256);
                assert(cols[column_index(sb.0, sb.1)].min_dist >= 2);
                assert(abs_int(sites[a].0 - sites[b].0) >= 2 || abs_int(sites[a].1 - sites[b].1) >= 2);
            }
        }
        assert(in_trunk(sites[t], site_height(cols, sites[t]), x, h, z));
    }
}

} // verus!
