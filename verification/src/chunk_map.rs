use vstd::prelude::*;
use std::collections::HashMap;
use crate::chunk::ChunkPos;
use vstd::std_specs::iter::IteratorSpec;

verus! {

broadcast use vstd::std_specs::hash::group_hash_axioms;

/// The hash key of a chunk position: x in the high 32 bits, z shifted to be
/// non-negative in the low 32 bits.
pub open spec fn pos_key(p: ChunkPos) -> i64 {
    (p.x as int * 4294967296 + p.z as int + 2147483648) as i64
}

/// Distinct positions have distinct keys.
pub proof fn lemma_pos_key_injective(p: ChunkPos, q: ChunkPos)
    ensures
        pos_key(p) == pos_key(q) <==> p == q,
{
    let a = p.x as int * 4294967296 + p.z as int + 2147483648;
    let b = q.x as int * 4294967296 + q.z as int + 2147483648;
    assert(i64::MIN <= a <= i64::MAX) by (nonlinear_arith)
        requires
            a == p.x as int * 4294967296 + p.z as int + 2147483648,
            i32::MIN <= p.x <= i32::MAX,
            i32::MIN <= p.z <= i32::MAX,
    ;
    assert(i64::MIN <= b <= i64::MAX) by (nonlinear_arith)
        requires
            b == q.x as int * 4294967296 + q.z as int + 2147483648,
            i32::MIN <= q.x <= i32::MAX,
            i32::MIN <= q.z <= i32::MAX,
    ;
    if a == b {
        assert(p.x == q.x && p.z == q.z) by (nonlinear_arith)
            requires
                p.x as int * 4294967296 + p.z as int == q.x as int * 4294967296 + q.z as int,
                i32::MIN <= p.z <= i32::MAX,
                i32::MIN <= q.z <= i32::MAX,
        ;
    }
}

/// Computes the hash key of a chunk position.
pub fn key_of(p: &ChunkPos) -> (r: i64)
    ensures
        r == pos_key(*p),
{
    let x = p.x as i64;
    let z = p.z as i64;
    assert(i64::MIN <= x * 4294967296 <= i64::MAX - 4294967296 + 1) by (nonlinear_arith)
        requires
            i32::MIN <= x <= i32::MAX,
    ;
    x * 4294967296 + (z + 2147483648)
}

/// The chunk position whose key is `k`.
pub fn pos_of_key(k: i64) -> (r: ChunkPos)
    ensures
        pos_key(r) == k,
{
    let x = k.checked_div_euclid(4294967296).unwrap();
    let rem = k.checked_rem_euclid(4294967296).unwrap();
    assert(x as int * 4294967296 + rem as int == k as int && 0 <= rem < 4294967296) by (nonlinear_arith)
        requires
            x as int == (k as int) / 4294967296,
            rem as int == (k as int) % 4294967296,
    ;
    assert(i32::MIN <= x <= i32::MAX) by (nonlinear_arith)
        requires
            x as int * 4294967296 + rem as int == k as int,
            0 <= rem < 4294967296,
            i64::MIN <= k <= i64::MAX,
    ;
    let r = ChunkPos { x: x as i32, z: (rem - 2147483648) as i32 };
    proof {
        lemma_pos_key_injective(r, r);
    }
    r
}

/// A map from chunk positions, stored in a hash map keyed by `pos_key`.
pub struct ChunkMap<V> {
    map: HashMap<i64, V>,
}

impl<V> View for ChunkMap<V> {
    type V = Map<ChunkPos, V>;

    closed spec fn view(&self) -> Map<ChunkPos, V> {
        Map::new(|p: ChunkPos| self.map@.contains_key(pos_key(p)), |p: ChunkPos| self.map@[pos_key(p)])
    }
}

impl<V> ChunkMap<V> {
    /// An empty map.
    pub fn new() -> (r: ChunkMap<V>)
        ensures
            r@ == Map::<ChunkPos, V>::empty(),
    {
        let r = ChunkMap { map: HashMap::new() };
        assert(r@ =~= Map::<ChunkPos, V>::empty());
        r
    }

    /// Whether a value is stored at `pos`.
    pub fn contains_key(&self, pos: &ChunkPos) -> (r: bool)
        ensures
            r == self@.contains_key(*pos),
    {
        let k = key_of(pos);
        self.map.contains_key(&k)
    }

    /// The value stored at `pos`, if any.
    pub fn get(&self, pos: &ChunkPos) -> (r: Option<&V>)
        ensures
            match r {
                Some(v) => self@.contains_key(*pos) && *v == self@[*pos],
                None => !self@.contains_key(*pos),
            },
    {
        let k = key_of(pos);
        self.map.get(&k)
    }

    /// Stores `v` at `pos`, replacing what was there.
    pub fn insert(&mut self, pos: ChunkPos, v: V)
        ensures
            final(self)@ == old(self)@.insert(pos, v),
    {
        let k = key_of(&pos);
        self.map.insert(k, v);
        assert forall|p: ChunkPos| true implies (pos_key(p) == k <==> p == pos) by {
            lemma_pos_key_injective(p, pos);
        }
        assert(self@ =~= old(self)@.insert(pos, v));
    }

    /// Removes what is stored at `pos` and returns it.
    pub fn remove(&mut self, pos: &ChunkPos) -> (r: Option<V>)
        ensures
            final(self)@ == old(self)@.remove(*pos),
            r == (if old(self)@.contains_key(*pos) {
                Some(old(self)@[*pos])
            } else {
                None
            }),
    {
        let k = key_of(pos);
        let r = self.map.remove(&k);
        assert forall|p: ChunkPos| true implies (pos_key(p) == k <==> p == *pos) by {
            lemma_pos_key_injective(p, *pos);
        }
        assert(self@ =~= old(self)@.remove(*pos));
        r
    }

    /// The positions at which something is stored, each once, in no
    /// particular order.
    pub fn positions(&self) -> (r: Vec<ChunkPos>)
        ensures
            r@.no_duplicates(),
            forall|p: ChunkPos| #[trigger] r@.contains(p) <==> self@.contains_key(p),
    {
        let mut out: Vec<ChunkPos> = Vec::new();
        let ghost keys = vstd::std_specs::hash::spec_keys_iter(&self.map).remaining();
        for k in it: self.map.keys()
            invariant
                it.seq() == keys,
                out@.len() == it.index(),
                forall|i: int| 0 <= i < it.index() ==> pos_key(#[trigger] out@[i]) == *keys[i],
        {
            let p = pos_of_key(*k);
            out.push(p);
        }
        proof {
            let m = self.map@;
            let ks = keys.unref();
            assert(ks.to_set() == m.dom());
            assert forall|i: int, j: int|
                0 <= i < out@.len() && 0 <= j < out@.len() && i != j implies out@[i] != out@[j] by {
                assert(ks[i] == *keys[i]);
                assert(ks[j] == *keys[j]);
            }
            assert forall|p: ChunkPos| #[trigger] out@.contains(p) <==> self@.contains_key(p) by {
                if out@.contains(p) {
                    let i = choose|i: int| 0 <= i < out@.len() && out@[i] == p;
                    assert(ks[i] == pos_key(p));
                    assert(ks.to_set().contains(pos_key(p)));
                }
                if self@.contains_key(p) {
                    assert(m.dom().contains(pos_key(p)));
                    assert(ks.to_set().contains(pos_key(p)));
                    assert(ks.contains(pos_key(p)));
                    let i = choose|i: int| 0 <= i < ks.len() && ks[i] == pos_key(p);
                    assert(pos_key(out@[i]) == pos_key(p));
                    lemma_pos_key_injective(out@[i], p);
                    assert(out@[i] == p);
                }
            }
        }
        out
    }
}

} // verus!
