use vstd::prelude::*;
use crate::chunk::{
    BlockType, Chunk, in_chunk, opt_face, cube_faces, block_faces, column_faces, row_faces, faces_below_x,
    visible_faces, CHUNK_HEIGHT, CHUNK_WIDTH,
};
use crate::mesh::{Face, FaceRec, mesh_indices, mesh_positions, mesh_normals, face_indices, face_corners, lemma_mesh_len};

verus! {

/// The position across face `f` of the block at `(x, y, z)`.
pub open spec fn face_neighbor(x: int, y: int, z: int, f: Face) -> (int, int, int) {
    match f {
        Face::Top => (x, y + 1, z),
        Face::Bottom => (x, y - 1, z),
        Face::Right => (x + 1, y, z),
        Face::Left => (x - 1, y, z),
        Face::Back => (x, y, z + 1),
        Face::Front => (x, y, z - 1),
    }
}

/// Face `f` of the block at `(x, y, z)` is exposed: the block lies in the
/// chunk and is not air, and the position across the face is not solid.
pub open spec fn face_exposed(c: Chunk, x: int, y: int, z: int, f: Face) -> bool {
    let n = face_neighbor(x, y, z, f);
    in_chunk(x, y, z) && c.block(x, y, z) != BlockType::Air && !c.solid(n.0, n.1, n.2)
}

/// The face record `q` is in the mesh of chunk `c`.
pub open spec fn face_in_mesh(c: Chunk, q: FaceRec) -> bool {
    face_exposed(c, q.0 as int, q.1 as int, q.2 as int, q.3) && q.4 == c.block(q.0 as int, q.1 as int, q.2 as int)
}

proof fn lemma_concat_contains(a: Seq<FaceRec>, b: Seq<FaceRec>, q: FaceRec)
    ensures
        (a + b).contains(q) <==> a.contains(q) || b.contains(q),
{
    let s = a + b;
    if s.contains(q) {
        let i = choose|i: int| 0 <= i < s.len() && s[i] == q;
        if i < a.len() {
            assert(a[i] == q);
        } else {
            assert(b[i - a.len()] == q);
        }
    }
    if a.contains(q) {
        let i = choose|i: int| 0 <= i < a.len() && a[i] == q;
        assert(s[i] == q);
    }
    if b.contains(q) {
        let i = choose|i: int| 0 <= i < b.len() && b[i] == q;
        assert(s[a.len() + i] == q);
    }
}

proof fn lemma_opt_face_contains(cond: bool, r: FaceRec, q: FaceRec)
    ensures
        opt_face(cond, r).contains(q) <==> cond && q == r,
{
    if cond {
        assert(opt_face(cond, r)[0] == r);
    }
}

/// The faces of one block are its exposed faces.
proof fn lemma_block_faces_contains(c: Chunk, x: int, y: int, z: int, q: FaceRec)
    requires
        in_chunk(x, y, z),
    ensures
        block_faces(c, x, y, z).contains(q) <==> q.0 as int == x && q.1 as int == y && q.2 as int == z
            && face_in_mesh(c, q),
{
    let b = c.block(x, y, z);
    if b != BlockType::Air {
        let (xi, yi, zi) = (x as i32, y as i32, z as i32);
        let o1 = opt_face(!c.solid(x, y + 1, z), (xi, yi, zi, Face::Top, b));
        let o2 = opt_face(!c.solid(x, y - 1, z), (xi, yi, zi, Face::Bottom, b));
        let o3 = opt_face(!c.solid(x + 1, y, z), (xi, yi, zi, Face::Right, b));
        let o4 = opt_face(!c.solid(x - 1, y, z), (xi, yi, zi, Face::Left, b));
        let o5 = opt_face(!c.solid(x, y, z + 1), (xi, yi, zi, Face::Back, b));
        let o6 = opt_face(!c.solid(x, y, z - 1), (xi, yi, zi, Face::Front, b));
        lemma_concat_contains(o1 + o2 + o3 + o4 + o5, o6, q);
        lemma_concat_contains(o1 + o2 + o3 + o4, o5, q);
        lemma_concat_contains(o1 + o2 + o3, o4, q);
        lemma_concat_contains(o1 + o2, o3, q);
        lemma_concat_contains(o1, o2, q);
        lemma_opt_face_contains(!c.solid(x, y + 1, z), (xi, yi, zi, Face::Top, b), q);
        lemma_opt_face_contains(!c.solid(x, y - 1, z), (xi, yi, zi, Face::Bottom, b), q);
        lemma_opt_face_contains(!c.solid(x + 1, y, z), (xi, yi, zi, Face::Right, b), q);
        lemma_opt_face_contains(!c.solid(x - 1, y, z), (xi, yi, zi, Face::Left, b), q);
        lemma_opt_face_contains(!c.solid(x, y, z + 1), (xi, yi, zi, Face::Back, b), q);
        lemma_opt_face_contains(!c.solid(x, y, z - 1), (xi, yi, zi, Face::Front, b), q);
        assert(block_faces(c, x, y, z) == o1 + o2 + o3 + o4 + o5 + o6);
    }
}

proof fn lemma_column_faces_contains(c: Chunk, x: int, z: int, n: nat, q: FaceRec)
    requires
        0 <= x < CHUNK_WIDTH,
        0 <= z < CHUNK_WIDTH,
        n <= CHUNK_HEIGHT,
    ensures
        column_faces(c, x, z, n).contains(q) <==> q.0 as int == x && q.2 as int == z && 0 <= q.1 < n
            && face_in_mesh(c, q),
    decreases n,
{
    if n > 0 {
        lemma_column_faces_contains(c, x, z, (n - 1) as nat, q);
        lemma_block_faces_contains(c, x, n - 1, z, q);
        lemma_concat_contains(column_faces(c, x, z, (n - 1) as nat), block_faces(c, x, n - 1, z), q);
    }
}

proof fn lemma_row_faces_contains(c: Chunk, x: int, n: nat, q: FaceRec)
    requires
        0 <= x < CHUNK_WIDTH,
        n <= CHUNK_WIDTH,
    ensures
        row_faces(c, x, n).contains(q) <==> q.0 as int == x && 0 <= q.2 < n && 0 <= q.1 < CHUNK_HEIGHT
            && face_in_mesh(c, q),
    decreases n,
{
    if n > 0 {
        lemma_row_faces_contains(c, x, (n - 1) as nat, q);
        lemma_column_faces_contains(c, x, n - 1, CHUNK_HEIGHT as nat, q);
        lemma_concat_contains(row_faces(c, x, (n - 1) as nat), column_faces(c, x, n - 1, CHUNK_HEIGHT as nat), q);
    }
}

proof fn lemma_faces_below_x_contains(c: Chunk, n: nat, q: FaceRec)
    requires
        n <= CHUNK_WIDTH,
    ensures
        faces_below_x(c, n).contains(q) <==> 0 <= q.0 < n && 0 <= q.2 < CHUNK_WIDTH && 0 <= q.1
            < CHUNK_HEIGHT && face_in_mesh(c, q),
    decreases n,
{
    if n > 0 {
        lemma_faces_below_x_contains(c, (n - 1) as nat, q);
        lemma_row_faces_contains(c, n - 1, CHUNK_WIDTH as nat, q);
        lemma_concat_contains(faces_below_x(c, (n - 1) as nat), row_faces(c, n - 1, CHUNK_WIDTH as nat), q);
    }
}

/// Hidden-face culling: the mesh of a chunk holds a face exactly when the
/// face belongs to a non-air block of the chunk and the position across it
/// is not solid within the chunk; the face carries that block.
pub proof fn lemma_mesh_faces_are_exposed_faces(c: Chunk, q: FaceRec)
    ensures
        visible_faces(c).contains(q) <==> face_in_mesh(c, q),
{
    lemma_faces_below_x_contains(c, CHUNK_WIDTH as nat, q);
}

/// Every triangle of a mesh refers to vertices of the mesh.
pub proof fn lemma_mesh_indices_in_range(faces: Seq<FaceRec>)
    ensures
        forall|i: int| 0 <= i < mesh_indices(faces).len() ==> #[trigger] mesh_indices(faces)[i] < 4 * faces.len(),
    decreases faces.len(),
{
    lemma_mesh_len(faces);
    if faces.len() > 0 {
        let prev = faces.drop_last();
        lemma_mesh_indices_in_range(prev);
        lemma_mesh_len(prev);
        let s = 4 * (faces.len() - 1);
        let tail = face_indices(faces.last().3, s);
        assert forall|i: int| 0 <= i < mesh_indices(faces).len() implies #[trigger] mesh_indices(faces)[i] < 4
            * faces.len() by {
            if i < mesh_indices(prev).len() {
                assert(mesh_indices(faces)[i] == mesh_indices(prev)[i]);
            } else {
                assert(mesh_indices(faces)[i] == tail[i - mesh_indices(prev).len()]);
            }
        }
    }
}

/// Position of a face in the order in which a block's faces are meshed.
pub open spec fn face_rank(f: Face) -> int {
    match f {
        Face::Top => 0,
        Face::Bottom => 1,
        Face::Right => 2,
        Face::Left => 3,
        Face::Back => 4,
        Face::Front => 5,
    }
}

proof fn lemma_append_face(a: Seq<FaceRec>, cond: bool, r: FaceRec, k: int)
    requires
        a.no_duplicates(),
        forall|i: int| 0 <= i < a.len() ==> face_rank(#[trigger] a[i].3) < k,
        face_rank(r.3) == k,
    ensures
        (a + opt_face(cond, r)).no_duplicates(),
        forall|i: int|
            0 <= i < (a + opt_face(cond, r)).len() ==> face_rank(#[trigger] (a + opt_face(cond, r))[i].3) < k + 1,
{
    let o = opt_face(cond, r);
    assert forall|i: int, j: int| 0 <= i < a.len() && 0 <= j < o.len() implies a[i] != o[j] by {
        assert(o[j] == r);
    }
    vstd::seq_lib::lemma_no_dup_in_concat(a, o);
    assert forall|i: int| 0 <= i < (a + o).len() implies face_rank(#[trigger] (a + o)[i].3) < k + 1 by {
        if i < a.len() {
            assert((a + o)[i] == a[i]);
        } else {
            assert((a + o)[i] == o[i - a.len()]);
        }
    }
}

proof fn lemma_block_faces_no_dup(c: Chunk, x: int, y: int, z: int)
    requires
        in_chunk(x, y, z),
    ensures
        block_faces(c, x, y, z).no_duplicates(),
{
    let b = c.block(x, y, z);
    if b != BlockType::Air {
        let (xi, yi, zi) = (x as i32, y as i32, z as i32);
        let o1 = opt_face(!c.solid(x, y + 1, z), (xi, yi, zi, Face::Top, b));
        let s0: Seq<FaceRec> = Seq::empty();
        lemma_append_face(s0, !c.solid(x, y + 1, z), (xi, yi, zi, Face::Top, b), 0);
        let s1 = s0 + o1;
        assert(s1 =~= o1);
        lemma_append_face(s1, !c.solid(x, y - 1, z), (xi, yi, zi, Face::Bottom, b), 1);
        let s2 = s1 + opt_face(!c.solid(x, y - 1, z), (xi, yi, zi, Face::Bottom, b));
        lemma_append_face(s2, !c.solid(x + 1, y, z), (xi, yi, zi, Face::Right, b), 2);
        let s3 = s2 + opt_face(!c.solid(x + 1, y, z), (xi, yi, zi, Face::Right, b));
        lemma_append_face(s3, !c.solid(x - 1, y, z), (xi, yi, zi, Face::Left, b), 3);
        let s4 = s3 + opt_face(!c.solid(x - 1, y, z), (xi, yi, zi, Face::Left, b));
        lemma_append_face(s4, !c.solid(x, y, z + 1), (xi, yi, zi, Face::Back, b), 4);
        let s5 = s4 + opt_face(!c.solid(x, y, z + 1), (xi, yi, zi, Face::Back, b));
        lemma_append_face(s5, !c.solid(x, y, z - 1), (xi, yi, zi, Face::Front, b), 5);
    }
}

proof fn lemma_column_faces_no_dup(c: Chunk, x: int, z: int, n: nat)
    requires
        0 <= x < CHUNK_WIDTH,
        0 <= z < CHUNK_WIDTH,
        n <= CHUNK_HEIGHT,
    ensures
        column_faces(c, x, z, n).no_duplicates(),
    decreases n,
{
    if n > 0 {
        let a = column_faces(c, x, z, (n - 1) as nat);
        let b = block_faces(c, x, n - 1, z);
        lemma_column_faces_no_dup(c, x, z, (n - 1) as nat);
        lemma_block_faces_no_dup(c, x, n - 1, z);
        assert forall|i: int, j: int| 0 <= i < a.len() && 0 <= j < b.len() implies a[i] != b[j] by {
            lemma_column_faces_contains(c, x, z, (n - 1) as nat, a[i]);
            lemma_block_faces_contains(c, x, n - 1, z, b[j]);
        }
        vstd::seq_lib::lemma_no_dup_in_concat(a, b);
    }
}

proof fn lemma_row_faces_no_dup(c: Chunk, x: int, n: nat)
    requires
        0 <= x < CHUNK_WIDTH,
        n <= CHUNK_WIDTH,
    ensures
        row_faces(c, x, n).no_duplicates(),
    decreases n,
{
    if n > 0 {
        let a = row_faces(c, x, (n - 1) as nat);
        let b = column_faces(c, x, n - 1, CHUNK_HEIGHT as nat);
        lemma_row_faces_no_dup(c, x, (n - 1) as nat);
        lemma_column_faces_no_dup(c, x, n - 1, CHUNK_HEIGHT as nat);
        assert forall|i: int, j: int| 0 <= i < a.len() && 0 <= j < b.len() implies a[i] != b[j] by {
            lemma_row_faces_contains(c, x, (n - 1) as nat, a[i]);
            lemma_column_faces_contains(c, x, n - 1, CHUNK_HEIGHT as nat, b[j]);
        }
        vstd::seq_lib::lemma_no_dup_in_concat(a, b);
    }
}

proof fn lemma_faces_below_x_no_dup(c: Chunk, n: nat)
    requires
        n <= CHUNK_WIDTH,
    ensures
        faces_below_x(c, n).no_duplicates(),
    decreases n,
{
    if n > 0 {
        let a = faces_below_x(c, (n - 1) as nat);
        let b = row_faces(c, n - 1, CHUNK_WIDTH as nat);
        lemma_faces_below_x_no_dup(c, (n - 1) as nat);
        lemma_row_faces_no_dup(c, n - 1, CHUNK_WIDTH as nat);
        assert forall|i: int, j: int| 0 <= i < a.len() && 0 <= j < b.len() implies a[i] != b[j] by {
            lemma_faces_below_x_contains(c, (n - 1) as nat, a[i]);
            lemma_row_faces_contains(c, n - 1, CHUNK_WIDTH as nat, b[j]);
        }
        vstd::seq_lib::lemma_no_dup_in_concat(a, b);
    }
}

/// Each face of a chunk's mesh is drawn once.
pub proof fn lemma_mesh_faces_drawn_once(c: Chunk)
    ensures
        visible_faces(c).no_duplicates(),
{
    lemma_faces_below_x_no_dup(c, CHUNK_WIDTH as nat);
}

/// The point `p` is a corner of the unit cube at `(x, y, z)` and lies on the
/// plane of its face `f`: y + 1 for the top, y for the bottom, x + 1 on the
/// right, x on the left, z + 1 at the back and z at the front.
pub open spec fn corner_on_face(x: int, y: int, z: int, f: Face, p: (i32, i32, i32)) -> bool {
    let (px, py, pz) = (p.0 as int, p.1 as int, p.2 as int);
    &&& (px == x || px == x + 1)
    &&& (py == y || py == y + 1)
    &&& (pz == z || pz == z + 1)
    &&& match f {
        Face::Top => py == y + 1,
        Face::Bottom => py == y,
        Face::Right => px == x + 1,
        Face::Left => px == x,
        Face::Back => pz == z + 1,
        Face::Front => pz == z,
    }
}

/// The four vertices of a face are four different corners of the cube lying
/// on that face's plane, that is, exactly the four corners of the face.
pub proof fn lemma_face_corners_are_the_face(x: i32, y: i32, z: i32, f: Face)
    requires
        x < i32::MAX,
        y < i32::MAX,
        z < i32::MAX,
    ensures
        face_corners(x, y, z, f).len() == 4,
        face_corners(x, y, z, f).no_duplicates(),
        forall|k: int|
            0 <= k < 4 ==> corner_on_face(x as int, y as int, z as int, f, #[trigger] face_corners(x, y, z, f)[k]),
{
    let c = face_corners(x, y, z, f);
    assert(c.len() == 4);
    assert(c[0] != c[1] && c[0] != c[2] && c[0] != c[3] && c[1] != c[2] && c[1] != c[3] && c[2] != c[3]);
}

/// In the mesh of `faces`, the four vertices of the `i`-th face are the four
/// corners of that face of its block.
pub proof fn lemma_mesh_quads_are_faces(faces: Seq<FaceRec>, i: int)
    requires
        0 <= i < faces.len(),
        faces[i].0 < i32::MAX,
        faces[i].1 < i32::MAX,
        faces[i].2 < i32::MAX,
    ensures
        mesh_positions(faces).subrange(4 * i, 4 * i + 4).no_duplicates(),
        forall|k: int|
            0 <= k < 4 ==> corner_on_face(
                faces[i].0 as int,
                faces[i].1 as int,
                faces[i].2 as int,
                faces[i].3,
                #[trigger] mesh_positions(faces)[4 * i + k],
            ),
    decreases faces.len(),
{
    let prev = faces.drop_last();
    lemma_mesh_len(prev);
    let q = faces[i];
    lemma_face_corners_are_the_face(q.0, q.1, q.2, q.3);
    if i == faces.len() - 1 {
        assert(mesh_positions(faces).subrange(4 * i, 4 * i + 4) =~= face_corners(q.0, q.1, q.2, q.3));
        assert forall|k: int| 0 <= k < 4 implies corner_on_face(
            q.0 as int,
            q.1 as int,
            q.2 as int,
            q.3,
            #[trigger] mesh_positions(faces)[4 * i + k],
        ) by {
            assert(mesh_positions(faces)[4 * i + k] == face_corners(q.0, q.1, q.2, q.3)[k]);
        }
    } else {
        lemma_mesh_quads_are_faces(prev, i);
        assert(mesh_positions(faces).subrange(4 * i, 4 * i + 4) =~= mesh_positions(prev).subrange(4 * i, 4 * i + 4));
        assert forall|k: int| 0 <= k < 4 implies corner_on_face(
            q.0 as int,
            q.1 as int,
            q.2 as int,
            q.3,
            #[trigger] mesh_positions(faces)[4 * i + k],
        ) by {
            assert(mesh_positions(faces)[4 * i + k] == mesh_positions(prev)[4 * i + k]);
            assert(prev[i] == q);
        }
    }
}

/// In a chunk's mesh, the four vertices of each face are the four corners of
/// that face of its block.
pub proof fn lemma_chunk_mesh_quads_are_faces(c: Chunk, i: int)
    requires
        0 <= i < visible_faces(c).len(),
    ensures
        mesh_positions(visible_faces(c)).subrange(4 * i, 4 * i + 4).no_duplicates(),
        forall|k: int|
            0 <= k < 4 ==> corner_on_face(
                visible_faces(c)[i].0 as int,
                visible_faces(c)[i].1 as int,
                visible_faces(c)[i].2 as int,
                visible_faces(c)[i].3,
                #[trigger] mesh_positions(visible_faces(c))[4 * i + k],
            ),
{
    let q = visible_faces(c)[i];
    assert(visible_faces(c).contains(q));
    lemma_mesh_faces_are_exposed_faces(c, q);
    lemma_mesh_quads_are_faces(visible_faces(c), i);
}

/// In the mesh of `faces`, every vertex of the `i`-th face carries the
/// outward normal of that face: the unit step from its block to the position
/// across the face.
pub proof fn lemma_mesh_normals_point_out(faces: Seq<FaceRec>, i: int)
    requires
        0 <= i < faces.len(),
    ensures
        forall|k: int|
            0 <= k < 4 ==> {
                let n = #[trigger] mesh_normals(faces)[4 * i + k];
                let q = faces[i];
                let across = face_neighbor(q.0 as int, q.1 as int, q.2 as int, q.3);
                n == ((across.0 - q.0) as i32, (across.1 - q.1) as i32, (across.2 - q.2) as i32)
            },
    decreases faces.len(),
{
    let prev = faces.drop_last();
    lemma_mesh_len(prev);
    if i < faces.len() - 1 {
        lemma_mesh_normals_point_out(prev, i);
        assert forall|k: int| 0 <= k < 4 implies #[trigger] mesh_normals(faces)[4 * i + k] == mesh_normals(prev)[4
            * i + k] by {}
        assert(prev[i] == faces[i]);
    }
}

} // verus!
