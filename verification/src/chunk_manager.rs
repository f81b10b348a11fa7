use vstd::prelude::*;
use crate::chunk::{ChunkPos, CHUNK_HEIGHT};
use crate::chunk_map::ChunkMap;

verus! {

/// How many chunks around the player's chunk are kept loaded, along x and z.
pub const RENDER_DISTACE: i32 = 12;

/// A frame stops spawning chunks once more than this many were spawned.
pub const MAX_SPAWNS_PER_FRAME: i32 = 2;

/// Seeds of new worlds are drawn below this bound.
pub const SEED_RANGE: u32 = 1000;

/// The random number generator of the current thread.
#[verifier::external_type_specification]
#[verifier::external_body]
pub struct ExThreadRng(rand::rngs::ThreadRng);

/// `rand::thread_rng` hands out the generator of the current thread; nothing
/// is stated of its state.
pub assume_specification[ rand::thread_rng ]() -> rand::rngs::ThreadRng;

/// `rand::Rng::gen_range` over the half-open range `low..high` of `u32`:
/// `rand` documents that it returns a value in the range (and panics on an
/// empty range, which `requires` rules out). Which value comes is chance.
#[verifier::external_body]
fn gen_range_u32(rng: &mut rand::rngs::ThreadRng, low: u32, high: u32) -> (r: u32)
    requires
        low < high,
    ensures
        low <= r < high,
{
    rand::Rng::gen_range(rng, low..high)
}

/// The two render entities of a loaded chunk.
#[derive(Clone, Copy, Debug, PartialEq, Eq)]
pub struct ChunkEntities<E> {
    pub solid: E,
    pub transparent: E,
}

/// The loaded chunks of the world, by position, and the world's seed.
pub struct ChunkManager<E> {
    chunks: ChunkMap<ChunkEntities<E>>,
    seed: u32,
}

/// The `k`-th position of the square of side `2 * RENDER_DISTACE + 1` around
/// `center`, scanned with x outermost and z innermost, both from low to high.
pub open spec fn scan_pos(center: ChunkPos, k: int) -> ChunkPos {
    ChunkPos { x: (center.x + k / 25 - 12) as i32, z: (center.z + k % 25 - 12) as i32 }
}

/// The positions among the first `k` of the scan around `center` where no
/// chunk is loaded, in scan order.
pub open spec fn unloaded_upto<V>(loaded: Map<ChunkPos, V>, center: ChunkPos, k: nat) -> Seq<ChunkPos>
    decreases k,
{
    if k == 0 {
        Seq::empty()
    } else {
        let prev = unloaded_upto(loaded, center, (k - 1) as nat);
        let p = scan_pos(center, k - 1);
        if loaded.contains_key(p) {
            prev
        } else {
            prev.push(p)
        }
    }
}

/// The first three elements of `s`, or all of them if there are fewer.
pub open spec fn first_three(s: Seq<ChunkPos>) -> Seq<ChunkPos> {
    if s.len() <= 3 {
        s
    } else {
        s.take(3)
    }
}

/// `|a - b|`.
pub open spec fn dist(a: int, b: int) -> int {
    if a >= b {
        a - b
    } else {
        b - a
    }
}

/// A chunk at `p` is too far from the player's chunk `center` to stay loaded:
/// more than `RENDER_DISTACE + 2` chunks away along x or along z.
pub open spec fn is_far(center: ChunkPos, p: ChunkPos) -> bool {
    dist(p.x as int, center.x as int) > RENDER_DISTACE + 2 || dist(p.z as int, center.z as int)
        > RENDER_DISTACE + 2
}

/// A chunk is far from the player's chunk exactly when it lies more than
/// `RENDER_DISTACE + 2` chunks away from it along x or along z, on either
/// side.
pub proof fn lemma_far_iff_offset(center: ChunkPos, p: ChunkPos)
    ensures
        is_far(center, p) <==> {
            ||| p.x - center.x > RENDER_DISTACE + 2
            ||| center.x - p.x > RENDER_DISTACE + 2
            ||| p.z - center.z > RENDER_DISTACE + 2
            ||| center.z - p.z > RENDER_DISTACE + 2
        },
{
}

/// Where the world block `(x, y, z)` is stored: the chunk holding its column
/// and its position inside that chunk; nothing outside the height range.
pub open spec fn block_location(x: int, y: int, z: int) -> Option<(ChunkPos, int, int, int)> {
    if y < 0 || y >= CHUNK_HEIGHT as int {
        None
    } else {
        Some((ChunkPos { x: (x / 16) as i32, z: (z / 16) as i32 }, x % 16, y, z % 16))
    }
}

/// The scan up to `k` is a prefix of the scan up to any later point.
pub proof fn lemma_unloaded_prefix<V>(loaded: Map<ChunkPos, V>, center: ChunkPos, k: nat, n: nat)
    requires
        k <= n,
    ensures
        unloaded_upto(loaded, center, k).len() <= unloaded_upto(loaded, center, n).len(),
        unloaded_upto(loaded, center, n).take(unloaded_upto(loaded, center, k).len() as int)
            == unloaded_upto(loaded, center, k),
    decreases n - k,
{
    let a = unloaded_upto(loaded, center, k);
    if k < n {
        lemma_unloaded_prefix(loaded, center, k, (n - 1) as nat);
        let b = unloaded_upto(loaded, center, (n - 1) as nat);
        let c = unloaded_upto(loaded, center, n);
        assert(c.take(a.len() as int) =~= b.take(a.len() as int));
    } else {
        assert(a.take(a.len() as int) =~= a);
    }
}

/// Each position of the scan around `center` lies within `RENDER_DISTACE`
/// chunks of it along both axes.
pub proof fn lemma_scan_pos_near(center: ChunkPos, m: int)
    requires
        0 <= m < 625,
        i32::MIN + RENDER_DISTACE <= center.x <= i32::MAX - RENDER_DISTACE,
        i32::MIN + RENDER_DISTACE <= center.z <= i32::MAX - RENDER_DISTACE,
    ensures
        dist(scan_pos(center, m).x as int, center.x as int) <= RENDER_DISTACE,
        dist(scan_pos(center, m).z as int, center.z as int) <= RENDER_DISTACE,
{
    assert(0 <= m / 25 <= 24 && 0 <= m % 25 <= 24) by (nonlinear_arith)
        requires
            0 <= m < 625,
    ;
}

/// The positions found unloaded in the first `k` steps of the scan are
/// unloaded scan positions.
proof fn lemma_unloaded_upto_elements<V>(loaded: Map<ChunkPos, V>, center: ChunkPos, k: nat)
    requires
        k <= 625,
    ensures
        forall|j: int|
            0 <= j < unloaded_upto(loaded, center, k).len() ==> exists|m: int|
                0 <= m < k && #[trigger] unloaded_upto(loaded, center, k)[j] == scan_pos(center, m)
                    && !loaded.contains_key(scan_pos(center, m)),
    decreases k,
{
    if k > 0 {
        lemma_unloaded_upto_elements(loaded, center, (k - 1) as nat);
        let prev = unloaded_upto(loaded, center, (k - 1) as nat);
        let cur = unloaded_upto(loaded, center, k);
        assert forall|j: int| 0 <= j < cur.len() implies exists|m: int|
            0 <= m < k && #[trigger] cur[j] == scan_pos(center, m) && !loaded.contains_key(scan_pos(center, m)) by {
            if j < prev.len() {
                assert(cur[j] == prev[j]);
                let m = choose|m: int|
                    0 <= m < k - 1 && #[trigger] prev[j] == scan_pos(center, m) && !loaded.contains_key(
                        scan_pos(center, m),
                    );
                assert(0 <= m < k && cur[j] == scan_pos(center, m));
            } else {
                assert(cur[j] == scan_pos(center, k - 1));
            }
        }
    }
}

/// A chunk chosen for spawning is not loaded yet, lies within
/// `RENDER_DISTACE` chunks of the player's chunk along both axes, and so is
/// not unloaded by `despawn_chunks` as long as the player stays in that chunk.
pub proof fn lemma_spawned_chunks_are_kept<V>(loaded: Map<ChunkPos, V>, center: ChunkPos, i: int)
    requires
        i32::MIN + RENDER_DISTACE <= center.x <= i32::MAX - RENDER_DISTACE,
        i32::MIN + RENDER_DISTACE <= center.z <= i32::MAX - RENDER_DISTACE,
        0 <= i < first_three(unloaded_upto(loaded, center, 625)).len(),
    ensures
        !loaded.contains_key(first_three(unloaded_upto(loaded, center, 625))[i]),
        dist(first_three(unloaded_upto(loaded, center, 625))[i].x as int, center.x as int) <= RENDER_DISTACE,
        dist(first_three(unloaded_upto(loaded, center, 625))[i].z as int, center.z as int) <= RENDER_DISTACE,
        !is_far(center, first_three(unloaded_upto(loaded, center, 625))[i]),
{
    let u = unloaded_upto(loaded, center, 625);
    lemma_unloaded_upto_elements(loaded, center, 625);
    assert(first_three(u)[i] == u[i]);
    let m = choose|m: int| 0 <= m < 625 && #[trigger] u[i] == scan_pos(center, m) && !loaded.contains_key(scan_pos(center, m));
    lemma_scan_pos_near(center, m);
}

impl<E> View for ChunkManager<E> {
    type V = Map<ChunkPos, ChunkEntities<E>>;

    /// The entities of each loaded chunk, by position.
    closed spec fn view(&self) -> Map<ChunkPos, ChunkEntities<E>> {
        self.chunks@
    }
}

impl<E> ChunkManager<E> {
    /// The seed of the world whose chunks are managed.
    pub closed spec fn world_seed(&self) -> u32 {
        self.seed
    }
}

impl<E: Copy> ChunkManager<E> {
    /// The seed of the world whose chunks are managed.
    pub fn seed(&self) -> (r: u32)
        ensures
            r == self.world_seed(),
    {
        self.seed
    }

    /// No chunk loaded, and a seed drawn at random below `SEED_RANGE`.
    pub fn new() -> (r: ChunkManager<E>)
        ensures
            r@ == Map::<ChunkPos, ChunkEntities<E>>::empty(),
            r.world_seed() < SEED_RANGE,
    {
        let mut rng = rand::thread_rng();
        let seed = gen_range_u32(&mut rng, 0, SEED_RANGE);
        Self::with_seed(seed)
    }

    /// No chunk loaded, and the given seed.
    pub fn with_seed(seed: u32) -> (r: ChunkManager<E>)
        ensures
            r@ == Map::<ChunkPos, ChunkEntities<E>>::empty(),
            r.world_seed() == seed,
    {
        ChunkManager { chunks: ChunkMap::new(), seed }
    }

    /// Whether a chunk is loaded at `pos`.
    pub fn is_loaded(&self, pos: &ChunkPos) -> (r: bool)
        ensures
            r == self@.contains_key(*pos),
    {
        self.chunks.contains_key(pos)
    }

    /// The entities of the chunk at `pos`, if one is loaded there.
    pub fn get_entities(&self, pos: &ChunkPos) -> (r: Option<ChunkEntities<E>>)
        ensures
            r == (if self@.contains_key(*pos) {
                Some(self@[*pos])
            } else {
                None
            }),
    {
        match self.chunks.get(pos) {
            Some(e) => Some(*e),
            None => None,
        }
    }

    /// Records the entities of a chunk spawned at `pos`, unless a chunk is
    /// already loaded there; tells whether it recorded them.
    pub fn register_chunk(&mut self, pos: ChunkPos, entities: ChunkEntities<E>) -> (r: bool)
        ensures
            r == !old(self)@.contains_key(pos),
            final(self)@ == (if r {
                old(self)@.insert(pos, entities)
            } else {
                old(self)@
            }),
            final(self).world_seed() == old(self).world_seed(),
    {
        if self.chunks.contains_key(&pos) {
            return false;
        }
        self.chunks.insert(pos, entities);
        true
    }

    /// The entities of the loaded chunk that holds the world block
    /// `(world_x, world_y, world_z)`, with the block's position inside it;
    /// nothing when the block lies outside the height range or its chunk is
    /// not loaded.
    pub fn locate_world_block(&self, world_x: i32, world_y: i32, world_z: i32) -> (r: Option<
        (ChunkEntities<E>, usize, usize, usize),
    >)
        ensures
            r == (match block_location(world_x as int, world_y as int, world_z as int) {
                None => None,
                Some((cp, lx, ly, lz)) => if self@.contains_key(cp) {
                    Some((self@[cp], lx as usize, ly as usize, lz as usize))
                } else {
                    None
                },
            }),
    {
        let chunk_pos = ChunkPos::containing(world_x, world_z);
        let local_x = world_x.checked_rem_euclid(16).unwrap();
        let local_z = world_z.checked_rem_euclid(16).unwrap();
        if world_y < 0 || world_y >= CHUNK_HEIGHT as i32 {
            return None;
        }
        match self.chunks.get(&chunk_pos) {
            Some(e) => Some((*e, local_x as usize, world_y as usize, local_z as usize)),
            None => None,
        }
    }

    /// The chunks to spawn this frame around the player's chunk `center`:
    /// the positions of the square of side `2 * RENDER_DISTACE + 1` around it
    /// where no chunk is loaded, in scan order (x outermost), at most
    /// `MAX_SPAWNS_PER_FRAME + 1` of them.
    pub fn chunks_to_spawn(&self, center: ChunkPos) -> (r: Vec<ChunkPos>)
        requires
            i32::MIN + RENDER_DISTACE <= center.x <= i32::MAX - RENDER_DISTACE,
            i32::MIN + RENDER_DISTACE <= center.z <= i32::MAX - RENDER_DISTACE,
        ensures
            r@ == first_three(unloaded_upto(self@, center, 625)),
    {
        let mut result: Vec<ChunkPos> = Vec::new();
        let mut spawned: i32 = 0;
        let mut k: usize = 0;
        while k < 625 && spawned <= MAX_SPAWNS_PER_FRAME
            invariant
                k <= 625,
                i32::MIN + RENDER_DISTACE <= center.x <= i32::MAX - RENDER_DISTACE,
                i32::MIN + RENDER_DISTACE <= center.z <= i32::MAX - RENDER_DISTACE,
                spawned as int == result@.len(),
                result@.len() <= 3,
                result@ == first_three(unloaded_upto(self@, center, k as nat)),
            decreases 625 - k,
        {
            let dx = (k / 25) as i32 - RENDER_DISTACE;
            let dz = (k % 25) as i32 - RENDER_DISTACE;
            let pos = ChunkPos { x: center.x + dx, z: center.z + dz };
            assert(pos == scan_pos(center, k as int));
            if !self.chunks.contains_key(&pos) {
                result.push(pos);
                spawned += 1;
            }
            assert(result@ =~= first_three(unloaded_upto(self@, center, (k + 1) as nat)));
            k += 1;
        }
        proof {
            lemma_unloaded_prefix(self@, center, k as nat, 625);
            if k < 625 {
                let a = unloaded_upto(self@, center, k as nat);
                let b = unloaded_upto(self@, center, 625);
                assert(a.len() >= 3);
                assert(b.take(3) =~= a.take(3));
            }
        }
        result
    }

    /// Unloads every chunk more than `RENDER_DISTACE + 2` chunks away from
    /// the player's chunk `center` along x or z, and returns the positions
    /// and entities of the unloaded chunks, each once.
    pub fn despawn_chunks(&mut self, center: ChunkPos) -> (r: Vec<(ChunkPos, ChunkEntities<E>)>)
        ensures
            forall|p: ChunkPos|
                #[trigger] final(self)@.contains_key(p) <==> old(self)@.contains_key(p) && !is_far(center, p),
            forall|p: ChunkPos| #[trigger] final(self)@.contains_key(p) ==> final(self)@[p] == old(self)@[p],
            forall|i: int, j: int| 0 <= i < j < r@.len() ==> r@[i].0 != r@[j].0,
            forall|i: int|
                0 <= i < r@.len() ==> old(self)@.contains_key(#[trigger] r@[i].0) && is_far(center, r@[i].0)
                    && r@[i].1 == old(self)@[r@[i].0],
            forall|p: ChunkPos|
                old(self)@.contains_key(p) && is_far(center, p) ==> exists|i: int|
                    0 <= i < r@.len() && #[trigger] r@[i].0 == p,
            forall|p: ChunkPos|
                old(self)@.contains_key(p) ==> (#[trigger] final(self)@.contains_key(p) <==> {
                    &&& -(RENDER_DISTACE + 2) <= p.x - center.x <= RENDER_DISTACE + 2
                    &&& -(RENDER_DISTACE + 2) <= p.z - center.z <= RENDER_DISTACE + 2
                }),
            final(self).world_seed() == old(self).world_seed(),
    {
        let positions = self.chunks.positions();
        let mut to_remove: Vec<ChunkPos> = Vec::new();
        let mut i: usize = 0;
        while i < positions.len()
            invariant
                i <= positions@.len(),
                positions@.no_duplicates(),
                forall|p: ChunkPos| #[trigger] positions@.contains(p) <==> self@.contains_key(p),
                to_remove@.no_duplicates(),
                forall|p: ChunkPos|
                    #[trigger] to_remove@.contains(p) <==> (exists|k: int|
                        0 <= k < i && positions@[k] == p) && is_far(center, p),
            decreases positions@.len() - i,
        {
            let pos = positions[i];
            let far_x = (pos.x as i64 - center.x as i64) > RENDER_DISTACE as i64 + 2
                || (center.x as i64 - pos.x as i64) > RENDER_DISTACE as i64 + 2;
            let far_z = (pos.z as i64 - center.z as i64) > RENDER_DISTACE as i64 + 2
                || (center.z as i64 - pos.z as i64) > RENDER_DISTACE as i64 + 2;
            let ghost old_tr = to_remove@;
            assert(far_x || far_z <==> is_far(center, pos));
            if far_x || far_z {
                proof {
                    assert forall|k: int| 0 <= k < i implies positions@[k] != pos by {
                        assert(positions@[k] != positions@[i as int]);
                    }
                    assert(!old_tr.contains(pos));
                }
                to_remove.push(pos);
                proof {
                    assert forall|a: int, b: int|
                        0 <= a < to_remove@.len() && 0 <= b < to_remove@.len() && a != b implies to_remove@[a]
                        != to_remove@[b] by {
                        if a < old_tr.len() && b < old_tr.len() {
                            assert(old_tr[a] != old_tr[b]);
                        } else if a < old_tr.len() {
                            assert(old_tr.contains(old_tr[a]));
                        } else {
                            assert(old_tr.contains(old_tr[b]));
                        }
                    }
                }
            }
            assert forall|p: ChunkPos|
                #[trigger] to_remove@.contains(p) <==> (exists|k: int|
                    0 <= k < i + 1 && positions@[k] == p) && is_far(center, p) by {
                if to_remove@.contains(p) {
                    if p != pos {
                        let t = choose|t: int| 0 <= t < to_remove@.len() && to_remove@[t] == p;
                        if far_x || far_z {
                            assert(t < old_tr.len());
                            assert(old_tr[t] == p);
                        }
                        assert(old_tr.contains(p));
                        let k = choose|k: int| 0 <= k < i && positions@[k] == p;
                        assert(0 <= k < i + 1 && positions@[k] == p);
                    } else {
                        assert(positions@[i as int] == p);
                        if !(far_x || far_z) {
                            assert(old_tr.contains(p));
                        }
                    }
                }
                if (exists|k: int| 0 <= k < i + 1 && positions@[k] == p) && is_far(center, p) {
                    let k = choose|k: int| 0 <= k < i + 1 && positions@[k] == p;
                    if k < i {
                        assert(old_tr.contains(p));
                        let t = choose|t: int| 0 <= t < old_tr.len() && old_tr[t] == p;
                        assert(to_remove@[t] == p);
                    } else {
                        assert(p == pos);
                        assert(to_remove@[to_remove@.len() - 1] == pos);
                    }
                }
            }
            i += 1;
        }
        let ghost start = self@;
        assert forall|p: ChunkPos|
            #[trigger] to_remove@.contains(p) <==> start.contains_key(p) && is_far(center, p) by {
            if start.contains_key(p) && is_far(center, p) {
                assert(positions@.contains(p));
                let k = choose|k: int| 0 <= k < positions@.len() && positions@[k] == p;
                assert(exists|k: int| 0 <= k < i && positions@[k] == p);
            }
            if to_remove@.contains(p) {
                let k = choose|k: int| 0 <= k < i && positions@[k] == p;
                assert(positions@.contains(p));
            }
        }
        let mut removed: Vec<(ChunkPos, ChunkEntities<E>)> = Vec::new();
        let mut j: usize = 0;
        while j < to_remove.len()
            invariant
                j <= to_remove@.len(),
                to_remove@.no_duplicates(),
                forall|p: ChunkPos|
                    #[trigger] to_remove@.contains(p) <==> start.contains_key(p) && is_far(center, p),
                removed@.len() == j,
                forall|k: int| 0 <= k < j ==> #[trigger] removed@[k].0 == to_remove@[k],
                forall|k: int| 0 <= k < j ==> #[trigger] removed@[k].1 == start[to_remove@[k]],
                forall|p: ChunkPos|
                    #[trigger] self@.contains_key(p) <==> start.contains_key(p) && !(exists|k: int|
                        0 <= k < j && to_remove@[k] == p),
                forall|p: ChunkPos| #[trigger] self@.contains_key(p) ==> self@[p] == start[p],
                self.world_seed() == old(self).world_seed(),
            decreases to_remove@.len() - j,
        {
            let pos = to_remove[j];
            assert(to_remove@.contains(pos));
            assert forall|k: int| 0 <= k < j implies to_remove@[k] != pos by {
                assert(to_remove@[k] != to_remove@[j as int]);
            }
            assert(start.contains_key(pos));
            assert(self@.contains_key(pos));
            let ghost before = self@;
            let ent = self.chunks.remove(&pos);
            match ent {
                Some(e) => {
                    removed.push((pos, e));
                },
                None => {},
            }
            assert forall|p: ChunkPos|
                #[trigger] self@.contains_key(p) <==> start.contains_key(p) && !(exists|k: int|
                    0 <= k < j + 1 && to_remove@[k] == p) by {
                if p != pos {
                    if exists|k: int| 0 <= k < j + 1 && to_remove@[k] == p {
                        let k = choose|k: int| 0 <= k < j + 1 && to_remove@[k] == p;
                        assert(k < j);
                    }
                    assert(self@.contains_key(p) == before.contains_key(p));
                } else {
                    assert(to_remove@[j as int] == p);
                }
            }
            j += 1;
        }
        assert forall|k: int|
            0 <= k < removed@.len() implies start.contains_key(#[trigger] removed@[k].0) && is_far(center, removed@[k].0)
                && removed@[k].1 == start[removed@[k].0] by {
            assert(removed@[k].0 == to_remove@[k]);
            assert(to_remove@.contains(to_remove@[k]));
        }
        assert forall|p: ChunkPos| start.contains_key(p) && is_far(center, p) implies exists|i: int|
            0 <= i < removed@.len() && #[trigger] removed@[i].0 == p by {
            assert(to_remove@.contains(p));
            let k = choose|k: int| 0 <= k < to_remove@.len() && to_remove@[k] == p;
            assert(removed@[k].0 == p);
        }
        assert forall|p: ChunkPos| #[trigger] self@.contains_key(p) <==> start.contains_key(p) && !is_far(center, p) by {
            if start.contains_key(p) && is_far(center, p) {
                assert(to_remove@.contains(p));
                let k = choose|k: int| 0 <= k < to_remove@.len() && to_remove@[k] == p;
                assert(exists|k: int| 0 <= k < j && to_remove@[k] == p);
            }
            if start.contains_key(p) && !is_far(center, p) {
                if exists|k: int| 0 <= k < j && to_remove@[k] == p {
                    let k = choose|k: int| 0 <= k < j && to_remove@[k] == p;
                    assert(to_remove@.contains(p));
                }
            }
        }
        proof {
            assert forall|p: ChunkPos| start.contains_key(p) implies (#[trigger] self@.contains_key(p) <==> {
                &&& -(RENDER_DISTACE + 2) <= p.x - center.x <= RENDER_DISTACE + 2
                &&& -(RENDER_DISTACE + 2) <= p.z - center.z <= RENDER_DISTACE + 2
            }) by {
                lemma_far_iff_offset(center, p);
            }
        }
        removed
    }
}

} // verus!
