use vstd::prelude::*;
use crate::chunk::BlockType;

verus! {

/// The six faces of a block, in the order in which a block's faces are meshed.
#[derive(Clone, Copy, PartialEq, Eq, Debug, Structural)]
pub enum Face {
    /// Facing +y.
    Top,
    /// Facing -y.
    Bottom,
    /// Facing +x.
    Right,
    /// Facing -x.
    Left,
    /// Facing +z.
    Back,
    /// Facing -z.
    Front,
}

/// One face of the mesh: the block position `(x, y, z)`, which face of the
/// block, and the block whose face it is.
pub type FaceRec = (i32, i32, i32, Face, BlockType);

/// The four corners of a face of the unit cube at `(x, y, z)`, in the order in
/// which they enter the mesh.
pub open spec fn face_corners(x: i32, y: i32, z: i32, f: Face) -> Seq<(i32, i32, i32)> {
    let x1 = (x + 1) as i32;
    let y1 = (y + 1) as i32;
    let z1 = (z + 1) as i32;
    match f {
        Face::Top => seq![(x, y1, z), (x1, y1, z), (x1, y1, z1), (x, y1, z1)],
        Face::Bottom => seq![(x, y, z), (x1, y, z), (x1, y, z1), (x, y, z1)],
        Face::Right => seq![(x1, y, z), (x1, y, z1), (x1, y1, z1), (x1, y1, z)],
        Face::Left => seq![(x, y, z), (x, y, z1), (x, y1, z1), (x, y1, z)],
        Face::Back => seq![(x, y, z1), (x, y1, z1), (x1, y1, z1), (x1, y, z1)],
        Face::Front => seq![(x, y, z), (x, y1, z), (x1, y1, z), (x1, y, z)],
    }
}

/// The outward normal of a face.
pub open spec fn face_normal(f: Face) -> (i32, i32, i32) {
    match f {
        Face::Top => (0i32, 1i32, 0i32),
        Face::Bottom => (0i32, -1i32, 0i32),
        Face::Right => (1i32, 0i32, 0i32),
        Face::Left => (-1i32, 0i32, 0i32),
        Face::Back => (0i32, 0i32, 1i32),
        Face::Front => (0i32, 0i32, -1i32),
    }
}

/// The two triangles of a face whose first corner is vertex `s`.
pub open spec fn face_indices(f: Face, s: int) -> Seq<u32> {
    match f {
        Face::Top => seq![s as u32, (s + 3) as u32, (s + 1) as u32, (s + 1) as u32, (s + 3) as u32, (s + 2) as u32],
        _ => seq![s as u32, (s + 1) as u32, (s + 3) as u32, (s + 1) as u32, (s + 2) as u32, (s + 3) as u32],
    }
}

/// Vertex positions of the mesh of `faces`: four corners per face.
pub open spec fn mesh_positions(faces: Seq<FaceRec>) -> Seq<(i32, i32, i32)>
    decreases faces.len(),
{
    if faces.len() == 0 {
        Seq::empty()
    } else {
        let q = faces.last();
        mesh_positions(faces.drop_last()) + face_corners(q.0, q.1, q.2, q.3)
    }
}

/// Vertex normals of the mesh of `faces`: the face's normal at each corner.
pub open spec fn mesh_normals(faces: Seq<FaceRec>) -> Seq<(i32, i32, i32)>
    decreases faces.len(),
{
    if faces.len() == 0 {
        Seq::empty()
    } else {
        let n = face_normal(faces.last().3);
        mesh_normals(faces.drop_last()) + seq![n, n, n, n]
    }
}

/// The block of each vertex of the mesh of `faces`, which decides its colour.
pub open spec fn mesh_blocks(faces: Seq<FaceRec>) -> Seq<BlockType>
    decreases faces.len(),
{
    if faces.len() == 0 {
        Seq::empty()
    } else {
        let b = faces.last().4;
        mesh_blocks(faces.drop_last()) + seq![b, b, b, b]
    }
}

/// Triangle indices of the mesh of `faces`: two triangles per face over its
/// four vertices.
pub open spec fn mesh_indices(faces: Seq<FaceRec>) -> Seq<u32>
    decreases faces.len(),
{
    if faces.len() == 0 {
        Seq::empty()
    } else {
        mesh_indices(faces.drop_last()) + face_indices(faces.last().3, 4 * (faces.len() - 1))
    }
}

/// Vertex and index buffers of a block mesh. Colours are chosen by the
/// renderer from the block of each vertex.
pub struct MeshData {
    pub positions: Vec<(i32, i32, i32)>,
    pub normals: Vec<(i32, i32, i32)>,
    pub indices: Vec<u32>,
    pub vertex_blocks: Vec<BlockType>,
}

impl MeshData {
    /// The buffers are the mesh of `faces`.
    #[verifier::opaque]
    pub open spec fn holds(&self, faces: Seq<FaceRec>) -> bool {
        &&& self.positions@ == mesh_positions(faces)
        &&& self.normals@ == mesh_normals(faces)
        &&& self.indices@ == mesh_indices(faces)
        &&& self.vertex_blocks@ == mesh_blocks(faces)
    }

    pub fn new() -> (r: MeshData)
        ensures
            r.holds(Seq::empty()),
    {
        reveal(MeshData::holds);
        MeshData { positions: Vec::new(), normals: Vec::new(), indices: Vec::new(), vertex_blocks: Vec::new() }
    }
}

pub proof fn lemma_mesh_len(faces: Seq<FaceRec>)
    ensures
        mesh_positions(faces).len() == 4 * faces.len(),
        mesh_normals(faces).len() == 4 * faces.len(),
        mesh_blocks(faces).len() == 4 * faces.len(),
        mesh_indices(faces).len() == 6 * faces.len(),
    decreases faces.len(),
{
    if faces.len() > 0 {
        lemma_mesh_len(faces.drop_last());
    }
}

/// `t` is two triangles over the four vertices `s..s + 4`: six indices, each
/// among those four, no triangle repeating a vertex, and every one of the four
/// vertices used.
pub open spec fn two_triangles_over(t: Seq<u32>, s: int) -> bool {
    &&& t.len() == 6
    &&& forall|k: int| 0 <= k < 6 ==> s <= #[trigger] t[k] < s + 4
    &&& t[0] != t[1] && t[1] != t[2] && t[0] != t[2]
    &&& t[3] != t[4] && t[4] != t[5] && t[3] != t[5]
    &&& forall|v: u32| s <= v < s + 4 ==> #[trigger] t.contains(v)
}

/// The indices of a face starting at vertex `s` are two triangles over its
/// four vertices, as long as the indices fit in `u32`.
pub proof fn lemma_face_indices_triangles(f: Face, s: int)
    requires
        0 <= s,
        s + 3 <= u32::MAX,
    ensures
        two_triangles_over(face_indices(f, s), s),
{
    let t = face_indices(f, s);
    assert forall|v: u32| s <= v < s + 4 implies #[trigger] t.contains(v) by {
        match f {
            Face::Top => {
                if v == s {
                    assert(t[0] == v);
                } else if v == s + 1 {
                    assert(t[2] == v);
                } else if v == s + 2 {
                    assert(t[5] == v);
                } else {
                    assert(t[1] == v);
                }
            },
            _ => {
                if v == s {
                    assert(t[0] == v);
                } else if v == s + 1 {
                    assert(t[1] == v);
                } else if v == s + 2 {
                    assert(t[4] == v);
                } else {
                    assert(t[2] == v);
                }
            },
        }
    }
}

/// The mesh of `a` is the start of the mesh of `a + b`: adding faces only
/// appends to each buffer.
pub proof fn lemma_mesh_prefix(a: Seq<FaceRec>, b: Seq<FaceRec>)
    ensures
        mesh_positions(a + b).subrange(0, 4 * a.len() as int) == mesh_positions(a),
        mesh_normals(a + b).subrange(0, 4 * a.len() as int) == mesh_normals(a),
        mesh_blocks(a + b).subrange(0, 4 * a.len() as int) == mesh_blocks(a),
        mesh_indices(a + b).subrange(0, 6 * a.len() as int) == mesh_indices(a),
    decreases b.len(),
{
    lemma_mesh_len(a);
    if b.len() == 0 {
        assert(a + b =~= a);
    } else {
        let c = a + b;
        assert(c.drop_last() =~= a + b.drop_last());
        lemma_mesh_prefix(a, b.drop_last());
        lemma_mesh_len(c.drop_last());
        assert(mesh_positions(c).subrange(0, 4 * a.len() as int) =~= mesh_positions(c.drop_last()).subrange(
            0,
            4 * a.len() as int,
        ));
        assert(mesh_normals(c).subrange(0, 4 * a.len() as int) =~= mesh_normals(c.drop_last()).subrange(
            0,
            4 * a.len() as int,
        ));
        assert(mesh_blocks(c).subrange(0, 4 * a.len() as int) =~= mesh_blocks(c.drop_last()).subrange(
            0,
            4 * a.len() as int,
        ));
        assert(mesh_indices(c).subrange(0, 6 * a.len() as int) =~= mesh_indices(c.drop_last()).subrange(
            0,
            6 * a.len() as int,
        ));
    }
}

/// The six indices of the `i`-th face are that face's triangles over its own
/// vertices `4 * i .. 4 * i + 4`.
pub proof fn lemma_mesh_face_indices(faces: Seq<FaceRec>, i: int)
    requires
        0 <= i < faces.len(),
    ensures
        mesh_indices(faces).subrange(6 * i, 6 * i + 6) == face_indices(faces[i].3, 4 * i),
    decreases faces.len(),
{
    let prev = faces.drop_last();
    lemma_mesh_len(prev);
    if i == faces.len() - 1 {
        assert(mesh_indices(faces).subrange(6 * i, 6 * i + 6) =~= face_indices(faces[i].3, 4 * i));
    } else {
        lemma_mesh_face_indices(prev, i);
        assert(mesh_indices(faces).subrange(6 * i, 6 * i + 6) =~= mesh_indices(prev).subrange(6 * i, 6 * i + 6));
    }
}

/// Every index of the faces from the `n`-th on points at a vertex of those
/// faces, as long as the vertices can be numbered in `u32`.
pub proof fn lemma_mesh_indices_bounds(faces: Seq<FaceRec>, n: int)
    requires
        0 <= n <= faces.len(),
        4 * faces.len() <= u32::MAX + 1,
    ensures
        forall|k: int|
            6 * n <= k < 6 * faces.len() ==> 4 * n <= #[trigger] mesh_indices(faces)[k] < 4 * faces.len(),
    decreases faces.len(),
{
    lemma_mesh_len(faces);
    if n < faces.len() {
        let prev = faces.drop_last();
        lemma_mesh_len(prev);
        lemma_mesh_indices_bounds(prev, n);
        let last = faces.len() - 1;
        lemma_mesh_face_indices(faces, last);
        lemma_face_indices_triangles(faces[last].3, 4 * last);
        let t = face_indices(faces[last].3, 4 * last);
        assert forall|k: int| 6 * n <= k < 6 * faces.len() implies 4 * n <= #[trigger] mesh_indices(faces)[k] < 4
            * faces.len() by {
            if k < 6 * last {
                assert(mesh_indices(faces)[k] == mesh_indices(prev)[k]);
            } else {
                assert(mesh_indices(faces)[k] == mesh_indices(faces).subrange(6 * last, 6 * last + 6)[k - 6 * last]);
                assert(t[k - 6 * last] < 4 * last + 4);
            }
        }
    }
}

/// `m1` is `m0` with `k` faces appended: each buffer keeps its old contents
/// and grows by four vertices (six indices) per face, the six indices of each
/// new face are two triangles over that face's own four new vertices, and
/// every new index points at a new vertex.
pub open spec fn appends_faces(m0: MeshData, m1: MeshData, k: int) -> bool {
    let (p0, n0, b0, i0) = (m0.positions@, m0.normals@, m0.vertex_blocks@, m0.indices@);
    let (p1, n1, b1, i1) = (m1.positions@, m1.normals@, m1.vertex_blocks@, m1.indices@);
    &&& p1.len() == p0.len() + 4 * k
    &&& n1.len() == n0.len() + 4 * k
    &&& b1.len() == b0.len() + 4 * k
    &&& i1.len() == i0.len() + 6 * k
    &&& p1.subrange(0, p0.len() as int) == p0
    &&& n1.subrange(0, n0.len() as int) == n0
    &&& b1.subrange(0, b0.len() as int) == b0
    &&& i1.subrange(0, i0.len() as int) == i0
    &&& forall|j: int|
        0 <= j < k ==> two_triangles_over(
            #[trigger] i1.subrange(i0.len() + 6 * j, i0.len() + 6 * j + 6),
            p0.len() + 4 * j,
        )
    &&& forall|i: int| i0.len() <= i < i1.len() ==> p0.len() <= #[trigger] i1[i] < p1.len()
}

/// Buffers that hold the mesh of `faces`, and then of `faces + c`, differ by
/// appending the faces of `c`, as long as the vertices can be numbered in
/// `u32`.
pub proof fn lemma_appends_faces(m0: MeshData, m1: MeshData, faces: Seq<FaceRec>, c: Seq<FaceRec>)
    requires
        m0.holds(faces),
        m1.holds(faces + c),
        4 * (faces.len() + c.len()) <= u32::MAX + 1,
    ensures
        appends_faces(m0, m1, c.len() as int),
{
    let all = faces + c;
    let n = faces.len() as int;
    reveal(MeshData::holds);
    lemma_mesh_len(faces);
    lemma_mesh_len(all);
    lemma_mesh_prefix(faces, c);
    lemma_mesh_indices_bounds(all, n);
    assert forall|j: int| 0 <= j < c.len() implies two_triangles_over(
        #[trigger] mesh_indices(all).subrange(6 * n + 6 * j, 6 * n + 6 * j + 6),
        4 * n + 4 * j,
    ) by {
        lemma_mesh_face_indices(all, n + j);
        lemma_face_indices_triangles(all[n + j].3, 4 * (n + j));
        assert(6 * (n + j) == 6 * n + 6 * j);
        assert(4 * (n + j) == 4 * n + 4 * j);
    }
}

/// Appends one face of the block at `(x, y, z)` to the mesh.
pub(crate) fn push_face(
    mesh: &mut MeshData,
    x: i32,
    y: i32,
    z: i32,
    block: BlockType,
    face: Face,
    Ghost(faces): Ghost<Seq<FaceRec>>,
)
    requires
        old(mesh).holds(faces),
        4 * faces.len() + 3 <= u32::MAX,
        x < i32::MAX,
        y < i32::MAX,
        z < i32::MAX,
    ensures
        final(mesh).holds(faces.push((x, y, z, face, block))),
{
    proof {
        reveal(MeshData::holds);
        lemma_mesh_len(faces);
    }
    let nf = Ghost(faces.push((x, y, z, face, block)));
    assert(nf@.drop_last() =~= faces);
    let start = mesh.positions.len() as u32;
    let x1 = x + 1;
    let y1 = y + 1;
    let z1 = z + 1;
    let (c0, c1, c2, c3, n) = match face {
        Face::Top => ((x, y1, z), (x1, y1, z), (x1, y1, z1), (x, y1, z1), (0i32, 1i32, 0i32)),
        Face::Bottom => ((x, y, z), (x1, y, z), (x1, y, z1), (x, y, z1), (0i32, -1i32, 0i32)),
        Face::Right => ((x1, y, z), (x1, y, z1), (x1, y1, z1), (x1, y1, z), (1i32, 0i32, 0i32)),
        Face::Left => ((x, y, z), (x, y, z1), (x, y1, z1), (x, y1, z), (-1i32, 0i32, 0i32)),
        Face::Back => ((x, y, z1), (x, y1, z1), (x1, y1, z1), (x1, y, z1), (0i32, 0i32, 1i32)),
        Face::Front => ((x, y, z), (x, y1, z), (x1, y1, z), (x1, y, z), (0i32, 0i32, -1i32)),
    };
    mesh.positions.push(c0);
    mesh.positions.push(c1);
    mesh.positions.push(c2);
    mesh.positions.push(c3);
    mesh.normals.push(n);
    mesh.normals.push(n);
    mesh.normals.push(n);
    mesh.normals.push(n);
    mesh.vertex_blocks.push(block);
    mesh.vertex_blocks.push(block);
    mesh.vertex_blocks.push(block);
    mesh.vertex_blocks.push(block);
    match face {
        Face::Top => {
            mesh.indices.push(start);
            mesh.indices.push(start + 3);
            mesh.indices.push(start + 1);
            mesh.indices.push(start + 1);
            mesh.indices.push(start + 3);
            mesh.indices.push(start + 2);
        },
        _ => {
            mesh.indices.push(start);
            mesh.indices.push(start + 1);
            mesh.indices.push(start + 3);
            mesh.indices.push(start + 1);
            mesh.indices.push(start + 2);
            mesh.indices.push(start + 3);
        },
    }
    assert(mesh.positions@ =~= mesh_positions(nf@));
    assert(mesh.normals@ =~= mesh_normals(nf@));
    assert(mesh.vertex_blocks@ =~= mesh_blocks(nf@));
    assert(mesh.indices@ =~= mesh_indices(nf@));
}

} // verus!
