use vstd::prelude::*;
use vstd::arithmetic::div_mod::lemma_fundamental_div_mod_converse;
use crate::world::{ColumnSample, get_block_at, generate_trees, terrain_ground, tree_columns, terrain_block};
use crate::chunk_map::ChunkMap;
use crate::mesh::{
    Face, FaceRec, MeshData, push_face, mesh_positions, mesh_normals, mesh_indices, mesh_blocks, lemma_mesh_len,
    appends_faces, lemma_appends_faces,
};
use crate::world::features::{tree_block, seq_ground, lemma_tree_block_congruent, column_index};

verus! {

/// Width of a chunk along x and along z, in blocks.
pub const CHUNK_WIDTH: usize = 16;

/// Height of a chunk along y, in blocks.
pub const CHUNK_HEIGHT: usize = 128;

/// Number of blocks that a chunk holds.
pub const CHUNK_VOLUME: usize = 32768;

/// The kinds of block that make up the world.
#[derive(Clone, Copy, PartialEq, Eq, Debug, Structural)]
pub enum BlockType {
    Air,
    Grass,
    Stone,
    Wood,
    Leaves,
    Water,
    Dirt,
    Sand,
}

/// The position of a block inside a chunk lies in the chunk's bounds.
pub open spec fn in_chunk(x: int, y: int, z: int) -> bool {
    &&& 0 <= x < CHUNK_WIDTH as int
    &&& 0 <= y < CHUNK_HEIGHT as int
    &&& 0 <= z < CHUNK_WIDTH as int
}

/// Where the block at `(x, y, z)` is stored: x varies fastest, then z, then y.
pub open spec fn spec_index(x: int, y: int, z: int) -> int {
    x + 16 * z + 256 * y
}

/// Distinct in-chunk positions are stored at distinct places, all below the volume.
pub proof fn lemma_index_bounds_injective(x1: int, y1: int, z1: int, x2: int, y2: int, z2: int)
    requires
        in_chunk(x1, y1, z1),
        in_chunk(x2, y2, z2),
    ensures
        0 <= spec_index(x1, y1, z1) < CHUNK_VOLUME as int,
        spec_index(x1, y1, z1) == spec_index(x2, y2, z2) ==> (x1 == x2 && y1 == y2 && z1 == z2),
{
    if spec_index(x1, y1, z1) == spec_index(x2, y2, z2) {
        assert(x1 == x2 && y1 == y2 && z1 == z2) by (nonlinear_arith)
            requires
                x1 + 16 * z1 + 256 * y1 == x2 + 16 * z2 + 256 * y2,
                0 <= x1 < 16, 0 <= x2 < 16, 0 <= z1 < 16, 0 <= z2 < 16,
        ;
    }
}

/// Position of a chunk in the grid of chunks: chunk `(x, z)` covers the world
/// columns `16 * x .. 16 * x + 16` along x and `16 * z .. 16 * z + 16` along z.
#[derive(Clone, Copy, PartialEq, Eq, Debug, Hash, Structural)]
pub struct ChunkPos {
    pub x: i32,
    pub z: i32,
}

impl ChunkPos {
    pub fn new(x: i32, z: i32) -> (r: ChunkPos)
        ensures
            r.x == x,
            r.z == z,
    {
        ChunkPos { x, z }
    }

    /// The chunk that holds the world block column `(world_x, world_z)`.
    pub fn containing(world_x: i32, world_z: i32) -> (r: ChunkPos)
        ensures
            r.x == world_x as int / 16,
            r.z == world_z as int / 16,
    {
        ChunkPos { x: world_x.checked_div_euclid(16).unwrap(), z: world_z.checked_div_euclid(16).unwrap() }
    }
}

/// The blocks of a chunk at the given position once its terrain and trees are
/// generated from the columns `cols`.
pub open spec fn chunk_block(cols: Seq<ColumnSample>, x: int, y: int, z: int) -> BlockType {
    tree_block(terrain_ground(cols), tree_columns(cols), x, y, z)
}

/// A 16 x 128 x 16 block of the world.
#[derive(Clone, Debug)]
pub struct Chunk {
    pos: ChunkPos,
    blocks: Vec<BlockType>,
}

impl View for Chunk {
    type V = Seq<BlockType>;

    /// The blocks of the chunk, stored at `spec_index(x, y, z)`.
    closed spec fn view(&self) -> Seq<BlockType> {
        self.blocks@
    }
}

impl Chunk {
    /// Where the chunk lies in the grid of chunks.
    pub closed spec fn position(&self) -> ChunkPos {
        self.pos
    }

    /// The chunk stores exactly one block per position.
    pub open spec fn wf(&self) -> bool {
        self@.len() == CHUNK_VOLUME
    }

    /// The block at `(x, y, z)`.
    pub open spec fn block(&self, x: int, y: int, z: int) -> BlockType {
        self@[spec_index(x, y, z)]
    }

    /// `(x, y, z)` lies in the chunk and holds something other than air.
    pub open spec fn solid(&self, x: int, y: int, z: int) -> bool {
        in_chunk(x, y, z) && self.block(x, y, z) != BlockType::Air
    }

    /// Generates the chunk at `pos` from the terrain columns of its area,
    /// listed with x varying fastest: first the terrain of each column, then
    /// the trees.
    pub fn new(pos: ChunkPos, columns: &Vec<ColumnSample>) -> (r: Chunk)
        requires
            columns@.len() == 256,
        ensures
            r.wf(),
            r.position() == pos,
            forall|x: int, y: int, z: int|
                in_chunk(x, y, z) ==> #[trigger] r.block(x, y, z) == chunk_block(columns@, x, y, z),
    {
        let ghost tg = terrain_ground(columns@);
        let mut blocks: Vec<BlockType> = Vec::new();
        for y in 0..128usize
            invariant
                columns@.len() == 256,
                tg == terrain_ground(columns@),
                blocks@.len() == 256 * y,
                forall|cx: int, cy: int, cz: int|
                    in_chunk(cx, cy, cz) && spec_index(cx, cy, cz) < blocks@.len() ==> #[trigger] blocks@[spec_index(
                        cx,
                        cy,
                        cz,
                    )] == tg(cx, cy, cz),
        {
            for z in 0..16usize
                invariant
                    y < 128,
                    columns@.len() == 256,
                    tg == terrain_ground(columns@),
                    blocks@.len() == 256 * y + 16 * z,
                    forall|cx: int, cy: int, cz: int|
                        in_chunk(cx, cy, cz) && spec_index(cx, cy, cz) < blocks@.len() ==> #[trigger] blocks@[spec_index(
                            cx,
                            cy,
                            cz,
                        )] == tg(cx, cy, cz),
            {
                for x in 0..16usize
                    invariant
                        y < 128,
                        z < 16,
                        columns@.len() == 256,
                        tg == terrain_ground(columns@),
                        blocks@.len() == 256 * y + 16 * z + x,
                        forall|cx: int, cy: int, cz: int|
                            in_chunk(cx, cy, cz) && spec_index(cx, cy, cz) < blocks@.len() ==> #[trigger] blocks@[spec_index(
                                cx,
                                cy,
                                cz,
                            )] == tg(cx, cy, cz),
                {
                    let c = columns[x + z * 16];
                    let b = get_block_at(c.height, c.biome, y as i32);
                    let ghost old_blocks = blocks@;
                    blocks.push(b);
                    assert forall|cx: int, cy: int, cz: int|
                        in_chunk(cx, cy, cz) && spec_index(cx, cy, cz) < blocks@.len() implies #[trigger] blocks@[spec_index(
                            cx,
                            cy,
                            cz,
                        )] == tg(cx, cy, cz) by {
                        lemma_index_bounds_injective(cx, cy, cz, x as int, y as int, z as int);
                        if spec_index(cx, cy, cz) == old_blocks.len() {
                            assert(column_index(cx, cz) == x + z * 16);
                        }
                    }
                }
            }
        }
        let ghost base = blocks@;
        generate_trees(&mut blocks, columns);
        let r = Chunk { pos, blocks };
        assert forall|x: int, y: int, z: int| in_chunk(x, y, z) implies #[trigger] r.block(x, y, z) == chunk_block(
            columns@,
            x,
            y,
            z,
        ) by {
            assert forall|a: int, b: int, c: int| in_chunk(a, b, c) implies #[trigger] seq_ground(base)(a, b, c)
                == tg(a, b, c) by {}
            lemma_tree_block_congruent(seq_ground(base), tg, tree_columns(columns@), x, y, z);
        }
        r
    }

    /// Position in the block store of the block at `(x, y, z)`: x varies
    /// fastest, then z, then y.
    pub fn index(x: usize, y: usize, z: usize) -> (r: usize)
        requires
            spec_index(x as int, y as int, z as int) <= usize::MAX,
        ensures
            r as int == spec_index(x as int, y as int, z as int),
    {
        x + z * CHUNK_WIDTH + y * CHUNK_WIDTH * CHUNK_WIDTH
    }

    /// The block stored at the place of `(x, y, z)`.
    pub fn get_block(&self, x: usize, y: usize, z: usize) -> (r: BlockType)
        requires
            self.wf(),
            spec_index(x as int, y as int, z as int) < CHUNK_VOLUME,
        ensures
            r == self.block(x as int, y as int, z as int),
    {
        let idx = Self::index(x, y, z);
        self.blocks[idx]
    }

    /// Replaces the block stored at the place of `(x, y, z)`.
    pub fn set_block(&mut self, x: usize, y: usize, z: usize, block: BlockType)
        requires
            old(self).wf(),
            spec_index(x as int, y as int, z as int) < CHUNK_VOLUME,
        ensures
            final(self).wf(),
            final(self).position() == old(self).position(),
            final(self)@ == old(self)@.update(spec_index(x as int, y as int, z as int), block),
    {
        let idx = Self::index(x, y, z);
        self.blocks.set(idx, block);
    }

    /// The mesh of the chunk: for every non-air block, in the order x, z, y,
    /// the faces whose neighbouring position is not solid within the chunk.
    /// Faces on the chunk's border are always drawn.
    pub fn build_mesh(&self) -> (r: MeshData)
        requires
            self.wf(),
        ensures
            r.positions@ == mesh_positions(visible_faces(*self)),
            r.normals@ == mesh_normals(visible_faces(*self)),
            r.indices@ == mesh_indices(visible_faces(*self)),
            r.vertex_blocks@ == mesh_blocks(visible_faces(*self)),
    {
        let mut mesh = MeshData::new();
        let ghost mut fs: Seq<FaceRec> = Seq::empty();
        for x in 0..16usize
            invariant
                self.wf(),
                mesh.holds(fs),
                fs == faces_below_x(*self, x as nat),
                fs.len() <= 12288 * x,
        {
            for z in 0..16usize
                invariant
                    x < 16,
                    self.wf(),
                    mesh.holds(fs),
                    fs == faces_below_x(*self, x as nat) + row_faces(*self, x as int, z as nat),
                    fs.len() <= 12288 * x + 768 * z,
            {
                for y in 0..128usize
                    invariant
                        x < 16,
                        z < 16,
                        self.wf(),
                        mesh.holds(fs),
                        fs == faces_below_x(*self, x as nat) + row_faces(*self, x as int, z as nat)
                            + column_faces(*self, x as int, z as int, y as nat),
                        fs.len() <= 12288 * x + 768 * z + 6 * y,
                {
                    let ghost before = fs;
                    let block = self.get_block(x, y, z);
                    if block != BlockType::Air {
                        let xi = x as i32;
                        let yi = y as i32;
                        let zi = z as i32;
                        add_cube_faces(
                            xi,
                            yi,
                            zi,
                            block,
                            &mut mesh,
                            !self.is_solid(xi, yi + 1, zi),
                            !self.is_solid(xi, yi - 1, zi),
                            !self.is_solid(xi + 1, yi, zi),
                            !self.is_solid(xi - 1, yi, zi),
                            !self.is_solid(xi, yi, zi + 1),
                            !self.is_solid(xi, yi, zi - 1),
                            Ghost(fs),
                        );
                        proof {
                            fs = fs + block_faces(*self, x as int, y as int, z as int);
                        }
                    } else {
                        assert(fs =~= fs + block_faces(*self, x as int, y as int, z as int));
                    }
                    proof {
                        lemma_concat_assoc(
                            faces_below_x(*self, x as nat) + row_faces(*self, x as int, z as nat),
                            column_faces(*self, x as int, z as int, y as nat),
                            block_faces(*self, x as int, y as int, z as int),
                        );
                        lemma_block_faces_len(*self, x as int, y as int, z as int);
                    }
                }
                proof {
                    lemma_concat_assoc(
                        faces_below_x(*self, x as nat),
                        row_faces(*self, x as int, z as nat),
                        column_faces(*self, x as int, z as int, 128),
                    );
                }
            }
        }
        proof {
            reveal(MeshData::holds);
        }
        mesh
    }

    /// Whether `(x, y, z)`, given in this chunk's coordinates, is solid,
    /// looking into the neighbouring chunks `neighbors` for positions beyond
    /// this chunk's sides; a neighbour that is not loaded counts as solid.
    pub fn is_solid_global(&self, x: i32, y: i32, z: i32, neighbors: &ChunkMap<&Chunk>) -> (r: bool)
        requires
            self.wf(),
            forall|p: ChunkPos| neighbors@.contains_key(p) ==> (#[trigger] neighbors@[p]).wf(),
            0 <= y < CHUNK_HEIGHT as int && !(0 <= x < CHUNK_WIDTH as int && 0 <= z < CHUNK_WIDTH as int)
                ==> i32::MIN <= self.position().x + x / 16 <= i32::MAX && i32::MIN <= self.position().z
                + z / 16 <= i32::MAX,
        ensures
            r == solid_global(*self, neighbors@, x as int, y as int, z as int),
    {
        if y < 0 || y >= CHUNK_HEIGHT as i32 {
            return false;
        }
        if x >= 0 && x < CHUNK_WIDTH as i32 && z >= 0 && z < CHUNK_WIDTH as i32 {
            return self.is_solid(x, y, z);
        }
        let off_x = x.checked_div_euclid(16).unwrap();
        let off_z = z.checked_div_euclid(16).unwrap();
        let local_x = x.checked_rem_euclid(16).unwrap();
        let local_z = z.checked_rem_euclid(16).unwrap();
        let neighbor_pos = ChunkPos { x: self.pos.x + off_x, z: self.pos.z + off_z };
        match neighbors.get(&neighbor_pos) {
            Some(neighbor) => neighbor.is_solid(local_x, y, local_z),
            None => true,
        }
    }

    /// Whether `(x, y, z)` lies in the chunk and holds something other than
    /// air; positions outside the chunk count as empty.
    pub fn is_solid(&self, x: i32, y: i32, z: i32) -> (r: bool)
        requires
            self.wf(),
        ensures
            r == self.solid(x as int, y as int, z as int),
    {
        if x >= CHUNK_WIDTH as i32 || x < 0 || y >= CHUNK_HEIGHT as i32 || y < 0 || z >= CHUNK_WIDTH as i32
            || z < 0 {
            return false;
        }
        if self.get_block(x as usize, y as usize, z as usize) == BlockType::Air {
            return false;
        } else {
            return true;
        }
    }
}

/// `q` if `cond` holds, nothing otherwise.
pub open spec fn opt_face(cond: bool, q: FaceRec) -> Seq<FaceRec> {
    if cond {
        seq![q]
    } else {
        Seq::empty()
    }
}

/// The faces of the cube of `block` at `(x, y, z)` that are to be drawn, in
/// the order top, bottom, right, left, back, front.
pub open spec fn cube_faces(
    x: i32,
    y: i32,
    z: i32,
    block: BlockType,
    top: bool,
    bottom: bool,
    right: bool,
    left: bool,
    back: bool,
    front: bool,
) -> Seq<FaceRec> {
    opt_face(top, (x, y, z, Face::Top, block)) + opt_face(bottom, (x, y, z, Face::Bottom, block))
        + opt_face(right, (x, y, z, Face::Right, block)) + opt_face(left, (x, y, z, Face::Left, block))
        + opt_face(back, (x, y, z, Face::Back, block)) + opt_face(front, (x, y, z, Face::Front, block))
}

/// The visible faces of the block at `(x, y, z)`: none for air, otherwise each
/// face whose neighbouring position is not solid within the chunk.
pub open spec fn block_faces(c: Chunk, x: int, y: int, z: int) -> Seq<FaceRec> {
    let b = c.block(x, y, z);
    if b == BlockType::Air {
        Seq::empty()
    } else {
        cube_faces(
            x as i32,
            y as i32,
            z as i32,
            b,
            !c.solid(x, y + 1, z),
            !c.solid(x, y - 1, z),
            !c.solid(x + 1, y, z),
            !c.solid(x - 1, y, z),
            !c.solid(x, y, z + 1),
            !c.solid(x, y, z - 1),
        )
    }
}

/// Visible faces of the blocks of column `(x, z)` below height `n`, bottom up.
pub open spec fn column_faces(c: Chunk, x: int, z: int, n: nat) -> Seq<FaceRec>
    decreases n,
{
    if n == 0 {
        Seq::empty()
    } else {
        column_faces(c, x, z, (n - 1) as nat) + block_faces(c, x, (n - 1) as int, z)
    }
}

/// Visible faces of the columns `(x, z)` with `z < n`.
pub open spec fn row_faces(c: Chunk, x: int, n: nat) -> Seq<FaceRec>
    decreases n,
{
    if n == 0 {
        Seq::empty()
    } else {
        row_faces(c, x, (n - 1) as nat) + column_faces(c, x, (n - 1) as int, CHUNK_HEIGHT as nat)
    }
}

/// Visible faces of the blocks with x below `n`.
pub open spec fn faces_below_x(c: Chunk, n: nat) -> Seq<FaceRec>
    decreases n,
{
    if n == 0 {
        Seq::empty()
    } else {
        faces_below_x(c, (n - 1) as nat) + row_faces(c, (n - 1) as int, CHUNK_WIDTH as nat)
    }
}

/// All visible faces of a chunk, block by block with x outermost, then z, then
/// y, and for each block in the order top, bottom, right, left, back, front.
pub open spec fn visible_faces(c: Chunk) -> Seq<FaceRec> {
    faces_below_x(c, CHUNK_WIDTH as nat)
}

/// A block has at most six visible faces.
pub proof fn lemma_block_faces_len(c: Chunk, x: int, y: int, z: int)
    ensures
        block_faces(c, x, y, z).len() <= 6,
{
}

/// Appends to `mesh` the faces of the cube of `block` at `(x, y, z)` whose
/// flag is set, in the order top, bottom, right, left, back, front.
fn add_cube_faces(
    x: i32,
    y: i32,
    z: i32,
    block: BlockType,
    mesh: &mut MeshData,
    render_top: bool,
    render_bottom: bool,
    render_right: bool,
    render_left: bool,
    render_back: bool,
    render_front: bool,
    Ghost(faces): Ghost<Seq<FaceRec>>,
)
    requires
        old(mesh).holds(faces),
        4 * (faces.len() + flag_count(
            render_top,
            render_bottom,
            render_right,
            render_left,
            render_back,
            render_front,
        )) <= u32::MAX + 1,
        x < i32::MAX,
        y < i32::MAX,
        z < i32::MAX,
    ensures
        appends_faces(
            *old(mesh),
            *final(mesh),
            flag_count(render_top, render_bottom, render_right, render_left, render_back, render_front) as int,
        ),
        final(mesh).holds(
            faces + cube_faces(
                x,
                y,
                z,
                block,
                render_top,
                render_bottom,
                render_right,
                render_left,
                render_back,
                render_front,
            ),
        ),
{
    let ghost o1 = opt_face(render_top, (x, y, z, Face::Top, block));
    let ghost o2 = opt_face(render_bottom, (x, y, z, Face::Bottom, block));
    let ghost o3 = opt_face(render_right, (x, y, z, Face::Right, block));
    let ghost o4 = opt_face(render_left, (x, y, z, Face::Left, block));
    let ghost o5 = opt_face(render_back, (x, y, z, Face::Back, block));
    let ghost o6 = opt_face(render_front, (x, y, z, Face::Front, block));
    push_face_if(render_top, mesh, x, y, z, block, Face::Top, Ghost(faces));
    let ghost f1 = faces + o1;
    push_face_if(render_bottom, mesh, x, y, z, block, Face::Bottom, Ghost(f1));
    let ghost f2 = f1 + o2;
    push_face_if(render_right, mesh, x, y, z, block, Face::Right, Ghost(f2));
    let ghost f3 = f2 + o3;
    push_face_if(render_left, mesh, x, y, z, block, Face::Left, Ghost(f3));
    let ghost f4 = f3 + o4;
    push_face_if(render_back, mesh, x, y, z, block, Face::Back, Ghost(f4));
    let ghost f5 = f4 + o5;
    push_face_if(render_front, mesh, x, y, z, block, Face::Front, Ghost(f5));
    proof {
        lemma_concat6(faces, o1, o2, o3, o4, o5, o6);
        let c = cube_faces(
            x,
            y,
            z,
            block,
            render_top,
            render_bottom,
            render_right,
            render_left,
            render_back,
            render_front,
        );
        assert(c.len() == o1.len() + o2.len() + o3.len() + o4.len() + o5.len() + o6.len());
        lemma_appends_faces(*old(mesh), *mesh, faces, c);
    }
}

/// How many of the six flags are set.
pub open spec fn flag_count(a: bool, b: bool, c: bool, d: bool, e: bool, f: bool) -> nat {
    (if a { 1nat } else { 0nat }) + (if b { 1nat } else { 0nat }) + (if c { 1nat } else { 0nat }) + (if d {
        1nat
    } else {
        0nat
    }) + (if e { 1nat } else { 0nat }) + (if f { 1nat } else { 0nat })
}

proof fn lemma_concat_assoc(a: Seq<FaceRec>, b: Seq<FaceRec>, c: Seq<FaceRec>)
    ensures
        a + b + c == a + (b + c),
{
    assert(a + b + c =~= a + (b + c));
}

proof fn lemma_concat6(
    a: Seq<FaceRec>,
    o1: Seq<FaceRec>,
    o2: Seq<FaceRec>,
    o3: Seq<FaceRec>,
    o4: Seq<FaceRec>,
    o5: Seq<FaceRec>,
    o6: Seq<FaceRec>,
)
    ensures
        a + o1 + o2 + o3 + o4 + o5 + o6 == a + (o1 + o2 + o3 + o4 + o5 + o6),
{
    assert(a + o1 + o2 =~= a + (o1 + o2));
    assert(a + o1 + o2 + o3 =~= a + (o1 + o2 + o3));
    assert(a + o1 + o2 + o3 + o4 =~= a + (o1 + o2 + o3 + o4));
    assert(a + o1 + o2 + o3 + o4 + o5 =~= a + (o1 + o2 + o3 + o4 + o5));
    assert(a + o1 + o2 + o3 + o4 + o5 + o6 =~= a + (o1 + o2 + o3 + o4 + o5 + o6));
}

/// Appends the face `face` of `block` at `(x, y, z)` to the mesh when `cond` holds.
fn push_face_if(
    cond: bool,
    mesh: &mut MeshData,
    x: i32,
    y: i32,
    z: i32,
    block: BlockType,
    face: Face,
    Ghost(faces): Ghost<Seq<FaceRec>>,
)
    requires
        old(mesh).holds(faces),
        cond ==> 4 * faces.len() + 3 <= u32::MAX,
        x < i32::MAX,
        y < i32::MAX,
        z < i32::MAX,
    ensures
        final(mesh).holds(faces + opt_face(cond, (x, y, z, face, block))),
{
    if cond {
        push_face(mesh, x, y, z, block, face, Ghost(faces));
        assert(faces.push((x, y, z, face, block)) =~= faces + opt_face(cond, (x, y, z, face, block)));
    } else {
        assert(faces =~= faces + opt_face(cond, (x, y, z, face, block)));
    }
}

/// The chunk that holds the position `(x, z)`, given in the coordinates of
/// the chunk at `pos`.
pub open spec fn chunk_containing(pos: ChunkPos, x: int, z: int) -> ChunkPos {
    ChunkPos { x: (pos.x + x / 16) as i32, z: (pos.z + z / 16) as i32 }
}

/// Whether `(x, y, z)`, given in the coordinates of chunk `c`, is solid when
/// the chunks around `c` are `neighbors`: outside the height range nothing is
/// solid; inside `c` its own block decides; in a neighbouring chunk that
/// chunk's block decides, and a chunk that is not loaded counts as solid.
pub open spec fn solid_global(c: Chunk, neighbors: Map<ChunkPos, &Chunk>, x: int, y: int, z: int) -> bool {
    if !(0 <= y < CHUNK_HEIGHT as int) {
        false
    } else if 0 <= x < CHUNK_WIDTH as int && 0 <= z < CHUNK_WIDTH as int {
        c.solid(x, y, z)
    } else {
        let np = chunk_containing(c.position(), x, z);
        if neighbors.contains_key(np) {
            neighbors[np].solid(x % 16, y, z % 16)
        } else {
            true
        }
    }
}

/// Solidity across the chunk's sides: for a position `(x, y, z)` in the
/// height range but outside the chunk, written as `x = 16 * kx + lx` and
/// `z = 16 * kz + lz` with `lx` and `lz` in `0..16`, the answer is the
/// solidity of block `(lx, y, lz)` of the chunk `kx` chunks along x and `kz`
/// along z, when that chunk is loaded, and solid when it is not.
pub proof fn lemma_solid_global_across_sides(
    c: Chunk,
    neighbors: Map<ChunkPos, &Chunk>,
    x: int,
    y: int,
    z: int,
    kx: int,
    lx: int,
    kz: int,
    lz: int,
)
    requires
        0 <= y < CHUNK_HEIGHT as int,
        !(0 <= x < CHUNK_WIDTH as int && 0 <= z < CHUNK_WIDTH as int),
        0 <= lx < 16,
        0 <= lz < 16,
        x == 16 * kx + lx,
        z == 16 * kz + lz,
        i32::MIN <= c.position().x + kx <= i32::MAX,
        i32::MIN <= c.position().z + kz <= i32::MAX,
    ensures
        ({
            let np = ChunkPos { x: (c.position().x + kx) as i32, z: (c.position().z + kz) as i32 };
            &&& neighbors.contains_key(np) ==> solid_global(c, neighbors, x, y, z) == neighbors[np].solid(lx, y, lz)
            &&& !neighbors.contains_key(np) ==> solid_global(c, neighbors, x, y, z)
        }),
{
    lemma_fundamental_div_mod_converse(x, 16, kx, lx);
    lemma_fundamental_div_mod_converse(z, 16, kz, lz);
}

/// What `set_block` writes is what `get_block` then reads at that position,
/// and every other position of the chunk keeps its block.
pub proof fn lemma_set_then_get(c: Chunk, x: int, y: int, z: int, b: BlockType, x2: int, y2: int, z2: int)
    requires
        c.wf(),
        in_chunk(x, y, z),
        in_chunk(x2, y2, z2),
    ensures
        c@.update(spec_index(x, y, z), b)[spec_index(x, y, z)] == b,
        (x2, y2, z2) != (x, y, z) ==> c@.update(spec_index(x, y, z), b)[spec_index(x2, y2, z2)] == c.block(
            x2,
            y2,
            z2,
        ),
{
    lemma_index_bounds_injective(x, y, z, x2, y2, z2);
    lemma_index_bounds_injective(x2, y2, z2, x, y, z);
}

} // verus!
