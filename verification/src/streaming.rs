//! Streaming scheduler: snap the viewer to the chunk grid, enumerate the
//! candidate chunk bases that the range-and-radius policy keeps resident,
//! and load missing / unload stray chunks under per-frame budgets.

use crate::chunk::Chunk;
use crate::generator::{simple_generated, ChunkGenerator, Seed, SimpleGenerator};
use crate::pos::{lemma_cube_covers, lemma_cube_iteration, Pos, PosIterator};
use vstd::arithmetic::div_mod::{
    lemma_fundamental_div_mod,
    lemma_fundamental_div_mod_converse,
    lemma_mod_bound,
};
use vstd::prelude::*;

verus! {

/// Per-run streaming policy: horizontal range, separate up and down vertical
/// ranges, a radial cutoff, the world seed, and the per-frame load and
/// unload budgets. Created once at startup and read every frame.
#[derive(Debug, Clone, Copy, PartialEq, Eq, Structural)]
pub struct GeneratorInfo {
    pub range_xz: u64,
    pub range_yp: u64,
    pub range_yn: u64,
    pub range_r: u64,
    pub seed: Seed,
    pub load_how_many_chunks_per_frame: usize,
    pub unload_how_many_chunks_per_frame: usize,
}

impl GeneratorInfo {
    /// Machine limits the scheduler arithmetic needs: ranges small enough
    /// that offsets, their squares and the scaled bases stay exact.
    pub open spec fn wf(self) -> bool {
        &&& self.range_xz <= 0x10000
        &&& self.range_yp <= 0x10000
        &&& self.range_yn <= 0x10000
        &&& self.range_r <= 0x10000
        &&& self.seed.seed <= 0x2000_0000_0000_0000
    }
}

impl Default for GeneratorInfo {
    /// The policy the engine starts with.
    fn default() -> (r: Self)
        ensures
            r == (GeneratorInfo {
                range_xz: 16u64,
                range_yp: 3u64,
                range_yn: 2u64,
                range_r: 16u64,
                seed: Seed { seed: 3u64 },
                load_how_many_chunks_per_frame: 50usize,
                unload_how_many_chunks_per_frame: 50usize,
            }),
            r.wf(),
    {
        GeneratorInfo {
            range_xz: 16,
            range_yp: 3,
            range_yn: 2,
            range_r: 16,
            seed: Seed { seed: 3 },
            load_how_many_chunks_per_frame: 50,
            unload_how_many_chunks_per_frame: 50,
        }
    }
}

/// A viewer coordinate the scheduler arithmetic can handle exactly.
pub open spec fn viewer_coord_ok(v: i64) -> bool {
    -0x4000_0000_0000_0000 <= v <= 0x4000_0000_0000_0000
}

/// The whole viewer position is within the scheduler's working range.
pub open spec fn viewer_ok(p: Pos) -> bool {
    viewer_coord_ok(p.x) && viewer_coord_ok(p.y) && viewer_coord_ok(p.z)
}

/// A coordinate snapped down to the chunk grid: the greatest multiple of the
/// chunk edge length that does not exceed it (sign-correct, so negative
/// coordinates snap downward too).
pub open spec fn spec_snap(v: int) -> int {
    v - v % 16
}

/// A position snapped down to the chunk grid on each axis.
pub open spec fn snap_pos_spec(p: Pos) -> Pos {
    Pos { x: spec_snap(p.x as int) as i64, y: spec_snap(p.y as int) as i64, z: spec_snap(
        p.z as int,
    ) as i64 }
}

/// The non-negative remainder of `v` against the chunk edge length.
fn rem_euclid_16(v: i64) -> (r: i64)
    requires
        v > i64::MIN,
    ensures
        r == (v as int) % 16,
{
    if v >= 0 {
        proof {
            lemma_fundamental_div_mod(v as int, 16);
            lemma_mod_bound(v as int, 16);
        }
        let r = v % 16;
        proof {
            lemma_fundamental_div_mod_converse(v as int, 16, v as int / 16, r as int);
        }
        r
    } else {
        let a = -v;
        let m = a % 16;
        proof {
            lemma_fundamental_div_mod(a as int, 16);
            lemma_mod_bound(a as int, 16);
        }
        if m == 0 {
            proof {
                lemma_fundamental_div_mod_converse(v as int, 16, -(a as int / 16), 0);
            }
            0
        } else {
            proof {
                lemma_fundamental_div_mod_converse(
                    v as int,
                    16,
                    -(a as int / 16) - 1,
                    16 - m as int,
                );
            }
            16 - m
        }
    }
}

/// Snap a position down to the chunk grid on each axis.
pub fn snap_pos(p: Pos) -> (r: Pos)
    requires
        viewer_ok(p),
    ensures
        r == snap_pos_spec(p),
        viewer_ok(r),
{
    proof {
        lemma_mod_bound(p.x as int, 16);
        lemma_mod_bound(p.y as int, 16);
        lemma_mod_bound(p.z as int, 16);
    }
    Pos::from_xyz(
        p.x() - rem_euclid_16(p.x()),
        p.y() - rem_euclid_16(p.y()),
        p.z() - rem_euclid_16(p.z()),
    )
}

/// The chunk-offset cell `i` lies inside the policy's bounding box and
/// radial cutoff.
pub open spec fn offset_in_policy(info: GeneratorInfo, i: Pos) -> bool {
    &&& -(info.range_xz as int) <= i.x <= info.range_xz
    &&& -(info.range_yn as int) <= i.y <= info.range_yp
    &&& -(info.range_xz as int) <= i.z <= info.range_xz
    &&& i.x * i.x + i.y * i.y + i.z * i.z < info.range_r * info.range_r
}

/// `p` is a chunk base the policy keeps resident around the snapped viewer
/// position `s`: it differs from `s` by a whole number of chunks on each
/// axis, and that chunk offset passes the box and radius tests.
pub open spec fn is_candidate_snapped(s: Pos, info: GeneratorInfo, p: Pos) -> bool {
    let dx = p.x - s.x;
    let dy = p.y - s.y;
    let dz = p.z - s.z;
    &&& dx % 16 == 0
    &&& dy % 16 == 0
    &&& dz % 16 == 0
    &&& offset_in_policy(
        info,
        Pos { x: (dx / 16) as i64, y: (dy / 16) as i64, z: (dz / 16) as i64 },
    )
}

/// `p` is a chunk base the policy keeps resident around the viewer.
pub open spec fn is_candidate(viewer: Pos, info: GeneratorInfo, p: Pos) -> bool {
    is_candidate_snapped(snap_pos_spec(viewer), info, p)
}

/// A delta beyond one policy diameter cannot be a whole number of in-policy
/// chunks: its chunk quotient lands outside every admissible range.
proof fn lemma_wide_delta(d: int)
    requires
        d < -0x100000 || d > 0x100000,
    ensures
        d % 16 == 0 ==> (d / 16 < -0x10000 || d / 16 > 0x10000),
{
    if d % 16 == 0 {
        lemma_fundamental_div_mod(d, 16);
        if -0x10000 <= d / 16 <= 0x10000 {
            assert(-0x100000 <= 16 * (d / 16) <= 0x100000) by (nonlinear_arith)
                requires
                    -0x10000 <= d / 16 <= 0x10000,
            ;
            assert(false);
        }
    }
}

/// Shifting a delta by a whole number of chunks moves its chunk quotient and
/// leaves its remainder alone.
proof fn lemma_shift_div_mod(d: int)
    ensures
        (d + 0x100000) % 16 == d % 16,
        (d + 0x100000) / 16 == d / 16 + 0x10000,
{
    lemma_fundamental_div_mod(d, 16);
    lemma_mod_bound(d, 16);
    lemma_fundamental_div_mod_converse(d + 0x100000, 16, d / 16 + 0x10000, d % 16);
}

/// Decide whether `p` is a candidate base around the (already snapped)
/// viewer position.
fn is_candidate_base(snapped: Pos, info: &GeneratorInfo, p: Pos) -> (r: bool)
    requires
        info.wf(),
    ensures
        r == is_candidate_snapped(snapped, *info, p),
{
    let dx = match p.x().checked_sub(snapped.x()) {
        Some(v) => v,
        None => {
            proof {
                lemma_wide_delta(p.x - snapped.x);
            }
            return false;
        },
    };
    let dy = match p.y().checked_sub(snapped.y()) {
        Some(v) => v,
        None => {
            proof {
                lemma_wide_delta(p.y - snapped.y);
            }
            return false;
        },
    };
    let dz = match p.z().checked_sub(snapped.z()) {
        Some(v) => v,
        None => {
            proof {
                lemma_wide_delta(p.z - snapped.z);
            }
            return false;
        },
    };
    if dx < -0x100000 || dx > 0x100000 {
        proof {
            lemma_wide_delta(dx as int);
        }
        return false;
    }
    if dy < -0x100000 || dy > 0x100000 {
        proof {
            lemma_wide_delta(dy as int);
        }
        return false;
    }
    if dz < -0x100000 || dz > 0x100000 {
        proof {
            lemma_wide_delta(dz as int);
        }
        return false;
    }
    proof {
        lemma_shift_div_mod(dx as int);
        lemma_shift_div_mod(dy as int);
        lemma_shift_div_mod(dz as int);
        lemma_mod_bound(dx as int, 16);
        lemma_mod_bound(dy as int, 16);
        lemma_mod_bound(dz as int, 16);
        lemma_fundamental_div_mod(dx as int + 0x100000, 16);
        lemma_fundamental_div_mod(dy as int + 0x100000, 16);
        lemma_fundamental_div_mod(dz as int + 0x100000, 16);
        vstd::arithmetic::div_mod::lemma_div_pos_is_pos(dx as int + 0x100000, 16);
        vstd::arithmetic::div_mod::lemma_div_pos_is_pos(dy as int + 0x100000, 16);
        vstd::arithmetic::div_mod::lemma_div_pos_is_pos(dz as int + 0x100000, 16);
    }
    let ex = dx + 0x100000;
    let ey = dy + 0x100000;
    let ez = dz + 0x100000;
    if !(ex % 16 == 0 && ey % 16 == 0 && ez % 16 == 0) {
        return false;
    }
    let ix = ex / 16 - 0x10000;
    let iy = ey / 16 - 0x10000;
    let iz = ez / 16 - 0x10000;
    let xz = info.range_xz as i64;
    let yp = info.range_yp as i64;
    let yn = info.range_yn as i64;
    if !(-xz <= ix && ix <= xz && -yn <= iy && iy <= yp && -xz <= iz && iz <= xz) {
        return false;
    }
    proof {
        assert(info.range_r * info.range_r <= 0x1_0000_0000) by (nonlinear_arith)
            requires
                info.range_r <= 0x10000,
        ;
        assert(0 <= ix * ix <= 0x1_0000_0000) by (nonlinear_arith)
            requires
                -0x10000 <= ix <= 0x10000,
        ;
        assert(0 <= iy * iy <= 0x1_0000_0000) by (nonlinear_arith)
            requires
                -0x10000 <= iy <= 0x10000,
        ;
        assert(0 <= iz * iz <= 0x1_0000_0000) by (nonlinear_arith)
            requires
                -0x10000 <= iz <= 0x10000,
        ;
    }
    let rr = (info.range_r * info.range_r) as i64;
    ix * ix + iy * iy + iz * iz < rr
}

/// The resident-chunk registry: the scheduler's only persistent state, a
/// position-keyed table of the chunks currently loaded, with unique keys and
/// a stable (insertion) order.
pub struct AllChunks {
    chunks: Vec<(Pos, Chunk)>,
}

impl Default for AllChunks {
    fn default() -> (r: Self)
        ensures
            r.wf(),
            (r.spec_map() == Map::<Pos, Chunk>::empty()),
    {
        AllChunks::new()
    }
}

impl AllChunks {
    /// The registry's entries, in registry order.
    pub closed spec fn entry_seq(self) -> Seq<(Pos, Chunk)> {
        self.chunks@
    }

    /// The registry's keys, in registry order.
    pub open spec fn key_seq(self) -> Seq<Pos> {
        self.entry_seq().map_values(|e: (Pos, Chunk)| e.0)
    }

    /// Keys are unique.
    pub open spec fn wf(self) -> bool {
        self.key_seq().no_duplicates()
    }

    /// The registry as a map from chunk base position to chunk.
    pub open spec fn spec_map(self) -> Map<Pos, Chunk> {
        Map::new(
            |p: Pos| self.key_seq().contains(p),
            |p: Pos| self.entry_seq()[self.key_seq().index_of(p)].1,
        )
    }

    /// The set of resident base positions.
    pub open spec fn dom(self) -> Set<Pos> {
        self.spec_map().dom()
    }

    /// A key's position in the registry is in range, carries the key, and is
    /// the only one that does.
    proof fn lemma_key_index(self, p: Pos)
        requires
            self.wf(),
            self.key_seq().contains(p),
        ensures
            0 <= self.key_seq().index_of(p) < self.entry_seq().len(),
            self.key_seq()[self.key_seq().index_of(p)] == p,
            self.entry_seq()[self.key_seq().index_of(p)].0 == p,
            forall|j: int|
                0 <= j < self.key_seq().len() && self.key_seq()[j] == p ==> j == self.key_seq().index_of(p),
    {
        let i = choose|i: int| 0 <= i < self.key_seq().len() && self.key_seq()[i] == p;
        assert(self.key_seq()[i] == p);
    }

    /// An empty registry.
    pub fn new() -> (r: AllChunks)
        ensures
            r.wf(),
            (r.spec_map() == Map::<Pos, Chunk>::empty()),
    {
        let r = AllChunks { chunks: Vec::new() };
        proof {
            assert(r.spec_map() =~= Map::<Pos, Chunk>::empty());
        }
        r
    }

    /// How many chunks are resident.
    pub fn len(&self) -> (r: usize)
        requires
            self.wf(),
        ensures
            r == self.dom().len(),
    {
        proof {
            self.lemma_dom_len();
        }
        self.chunks.len()
    }

    /// The registry's domain is finite, as large as the entry table, and is
    /// the set of table keys.
    pub proof fn lemma_dom_len(self)
        requires
            self.wf(),
        ensures
            self.dom().finite(),
            self.dom().len() == self.entry_seq().len(),
            self.dom() =~= self.key_seq().to_set(),
    {
        assert(self.dom() =~= self.key_seq().to_set());
        self.key_seq().unique_seq_to_set();
    }

    /// Whether a chunk at base `p` is resident.
    pub fn contains_pos(&self, p: Pos) -> (r: bool)
        ensures
            r == self.dom().contains(p),
    {
        let n = self.chunks.len();
        let mut i: usize = 0;
        while i < n
            invariant
                n == self.entry_seq().len(),
                0 <= i <= n,
                forall|j: int| 0 <= j < i ==> (#[trigger] self.entry_seq()[j]).0 != p,
            decreases n - i,
        {
            if pos_eq(self.chunks[i].0, p) {
                assert(self.key_seq()[i as int] == p);
                return true;
            }
            i = i + 1;
        }
        proof {
            if self.key_seq().contains(p) {
                let j = choose|j: int|
                    0 <= j < self.key_seq().len() && self.key_seq()[j] == p;
                assert(self.entry_seq()[j].0 == p);
            }
        }
        false
    }

    /// The resident chunk at base `p`, if any.
    pub fn get(&self, p: Pos) -> (r: Option<&Chunk>)
        requires
            self.wf(),
        ensures
            r is Some <==> self.dom().contains(p),
            r matches Some(c) ==> *c == self.spec_map()[p],
    {
        let n = self.chunks.len();
        let mut i: usize = 0;
        while i < n
            invariant
                self.wf(),
                n == self.entry_seq().len(),
                0 <= i <= n,
                forall|j: int| 0 <= j < i ==> (#[trigger] self.entry_seq()[j]).0 != p,
            decreases n - i,
        {
            if pos_eq(self.chunks[i].0, p) {
                proof {
                    assert(self.key_seq()[i as int] == p);
                    self.lemma_key_index(p);
                }
                return Some(&self.chunks[i].1);
            }
            i = i + 1;
        }
        proof {
            if self.key_seq().contains(p) {
                let j = choose|j: int|
                    0 <= j < self.key_seq().len() && self.key_seq()[j] == p;
                assert(self.entry_seq()[j].0 == p);
            }
        }
        None
    }

    /// Register a chunk at a base that is not yet resident.
    pub fn insert_new(&mut self, p: Pos, c: Chunk)
        requires
            old(self).wf(),
            !old(self).dom().contains(p),
        ensures
            final(self).wf(),
            final(self).spec_map() == old(self).spec_map().insert(p, c),
            final(self).key_seq() == old(self).key_seq().push(p),
    {
        self.chunks.push((p, c));
        proof {
            assert(self.key_seq() =~= old(self).key_seq().push(p));
            let n = old(self).key_seq().len() as int;
            assert forall|q: Pos| true implies #[trigger] self.key_seq().contains(q) == (old(
                self,
            ).key_seq().contains(q) || q == p) by {
                if self.key_seq().contains(q) {
                    let j = choose|j: int|
                        0 <= j < self.key_seq().len() && self.key_seq()[j] == q;
                    if j < n {
                        assert(old(self).key_seq()[j] == q);
                    }
                }
                if old(self).key_seq().contains(q) {
                    let j = choose|j: int|
                        0 <= j < old(self).key_seq().len() && old(self).key_seq()[j] == q;
                    assert(self.key_seq()[j] == q);
                }
                if q == p {
                    assert(self.key_seq()[n] == p);
                }
            }
            assert(self.spec_map() =~= old(self).spec_map().insert(p, c)) by {
                assert forall|q: Pos| self.key_seq().contains(q) implies self.entry_seq()[self.key_seq().index_of(
                    q,
                )].1 == (if q == p {
                    c
                } else {
                    old(self).entry_seq()[old(self).key_seq().index_of(q)].1
                }) by {
                    self.lemma_key_index(q);
                    if q == p {
                        assert(self.key_seq()[n] == p);
                        assert(self.key_seq().index_of(q) == n);
                    } else {
                        old(self).lemma_key_index(q);
                        let i = old(self).key_seq().index_of(q);
                        assert(self.key_seq()[i] == q);
                        assert(self.key_seq().index_of(q) == i);
                    }
                }
            }
        }
    }

    /// Remove the chunk at base `p`, handing it back; removing an absent base
    /// changes nothing and reports it quietly.
    pub fn remove_pos(&mut self, p: Pos) -> (r: Option<Chunk>)
        requires
            old(self).wf(),
        ensures
            final(self).wf(),
            final(self).spec_map() == old(self).spec_map().remove(p),
            r is Some <==> old(self).dom().contains(p),
            r matches Some(c) ==> c == old(self).spec_map()[p],
    {
        let n = self.chunks.len();
        let mut i: usize = 0;
        while i < n
            invariant
                self.wf(),
                *self == *old(self),
                n == self.entry_seq().len(),
                0 <= i <= n,
                forall|j: int| 0 <= j < i ==> (#[trigger] self.entry_seq()[j]).0 != p,
            decreases n - i,
        {
            if pos_eq(self.chunks[i].0, p) {
                proof {
                    assert(self.key_seq()[i as int] == p);
                    self.lemma_key_index(p);
                }
                let e = self.chunks.remove(i);
                proof {
                    lemma_registry_remove(*old(self), *self, p, i as int);
                }
                return Some(e.1);
            }
            i = i + 1;
        }
        proof {
            if self.key_seq().contains(p) {
                let j = choose|j: int|
                    0 <= j < self.key_seq().len() && self.key_seq()[j] == p;
                assert(self.entry_seq()[j].0 == p);
            }
            assert(self.spec_map() =~= old(self).spec_map().remove(p));
        }
        None
    }
}

/// Compare two positions for equality.
fn pos_eq(a: Pos, b: Pos) -> (r: bool)
    ensures
        r == (a == b),
{
    a.x() == b.x() && a.y() == b.y() && a.z() == b.z()
}

/// Removing the entry at the (unique) index of key `p` removes exactly `p`
/// from the registry map and keeps every other key, value and the key
/// uniqueness.
proof fn lemma_registry_remove(before: AllChunks, after: AllChunks, p: Pos, i: int)
    requires
        before.wf(),
        0 <= i < before.entry_seq().len(),
        before.entry_seq()[i].0 == p,
        after.entry_seq() == before.entry_seq().remove(i),
    ensures
        after.wf(),
        after.spec_map() == before.spec_map().remove(p),
{
    before.entry_seq().remove_ensures(i);
    let kb = before.key_seq();
    let ka = after.key_seq();
    assert(ka =~= kb.remove(i)) by {
        kb.remove_ensures(i);
        assert(ka.len() == kb.len() - 1);
        assert forall|j: int| 0 <= j < ka.len() implies ka[j] == kb.remove(i)[j] by {
            if j < i {
                assert(after.entry_seq()[j] == before.entry_seq()[j]);
            } else {
                assert(after.entry_seq()[j] == before.entry_seq()[j + 1]);
            }
        }
    }
    kb.remove_ensures(i);
    assert(after.wf()) by {
        assert forall|a: int, b: int|
            0 <= a < ka.len() && 0 <= b < ka.len() && a != b implies ka[a] != ka[b] by {
            let a2 = if a < i { a } else { a + 1 };
            let b2 = if b < i { b } else { b + 1 };
            assert(ka[a] == kb[a2] && ka[b] == kb[b2]);
        }
    }
    assert(after.spec_map() =~= before.spec_map().remove(p)) by {
        assert forall|q: Pos| true implies (ka.contains(q) == (kb.contains(q) && q != p)) by {
            if ka.contains(q) {
                let j = choose|j: int| 0 <= j < ka.len() && ka[j] == q;
                let j2 = if j < i { j } else { j + 1 };
                assert(kb[j2] == q);
                assert(kb[i] == p);
                if q == p {
                    assert(j2 != i && kb[j2] == kb[i]);
                    assert(false);
                }
            }
            if kb.contains(q) && q != p {
                let j = choose|j: int| 0 <= j < kb.len() && kb[j] == q;
                if j < i {
                    assert(ka[j] == q);
                } else {
                    assert(j != i);
                    assert(ka[j - 1] == kb[j]);
                }
            }
        }
        assert forall|q: Pos| ka.contains(q) implies after.entry_seq()[ka.index_of(q)].1
            == before.entry_seq()[kb.index_of(q)].1 by {
            after.lemma_key_index(q);
            before.lemma_key_index(q);
            let ja = ka.index_of(q);
            let ja2 = if ja < i { ja } else { ja + 1 };
            assert(after.entry_seq()[ja] == before.entry_seq()[ja2]);
            assert(kb[ja2] == q);
            assert(kb.index_of(q) == ja2);
        }
    }
}


/// A freshly generated chunk as the scheduler registers it at base `p`.
pub open spec fn chunk_generated_at(c: Chunk, p: Pos, seed: Seed) -> bool {
    &&& c.wf()
    &&& c.base_pos_of_chunk == p
    &&& c.blocks@ == simple_generated(p, seed)
    &&& c.mesh is None
    &&& c.quad_group is None
    &&& c.quad_group_changed == false
    &&& c.mesh_up_to_date == false
}

/// The chunk base the offset cell `i` stands for, around the snapped viewer
/// position `s`.
pub open spec fn cand_base(s: Pos, i: Pos) -> Pos {
    Pos { x: (s.x + 16 * i.x) as i64, y: (s.y + 16 * i.y) as i64, z: (s.z + 16 * i.z) as i64 }
}

/// Around a snapped viewer position, the base an in-range offset stands for
/// is a candidate exactly when the offset passes the policy, and the offset
/// can be read back from the base.
proof fn lemma_cand_base_round_trip(s: Pos, info: GeneratorInfo, i: Pos)
    requires
        info.wf(),
        viewer_ok(s),
        -0x20000 <= i.x <= 0x20000,
        -0x20000 <= i.y <= 0x20000,
        -0x20000 <= i.z <= 0x20000,
    ensures
        is_candidate_snapped(s, info, cand_base(s, i)) == offset_in_policy(info, i),
{
    let b = cand_base(s, i);
    assert(b.x == s.x + 16 * i.x && b.y == s.y + 16 * i.y && b.z == s.z + 16 * i.z);
    lemma_fundamental_div_mod_converse(b.x - s.x, 16, i.x as int, 0);
    lemma_fundamental_div_mod_converse(b.y - s.y, 16, i.y as int, 0);
    lemma_fundamental_div_mod_converse(b.z - s.z, 16, i.z as int, 0);
}

/// A candidate base around a snapped viewer position decomposes into its
/// offset cell: the base is that cell's base and the cell passes the policy.
proof fn lemma_candidate_decompose(s: Pos, info: GeneratorInfo, p: Pos)
    requires
        info.wf(),
        viewer_ok(s),
        is_candidate_snapped(s, info, p),
    ensures
        ({
            let i = Pos {
                x: ((p.x - s.x) / 16) as i64,
                y: ((p.y - s.y) / 16) as i64,
                z: ((p.z - s.z) / 16) as i64,
            };
            offset_in_policy(info, i) && cand_base(s, i) == p
        }),
{
    lemma_fundamental_div_mod(p.x - s.x, 16);
    lemma_fundamental_div_mod(p.y - s.y, 16);
    lemma_fundamental_div_mod(p.z - s.z, 16);
}

/// Load pass: enumerate the candidate offsets around the snapped viewer
/// position in the fixed iteration order, and for each candidate base not
/// yet resident, generate its chunk and register it — stopping once the
/// per-frame load budget is spent. Never more than the budget is loaded,
/// never a base that was already resident, and when the budget is not
/// exhausted every missing candidate has been loaded.
pub fn new_chunks(all_chunks: &mut AllChunks, viewer_pos: Pos, info: &GeneratorInfo) -> (loaded:
    Vec<Pos>)
    requires
        old(all_chunks).wf(),
        info.wf(),
        viewer_ok(viewer_pos),
    ensures
        final(all_chunks).wf(),
        loaded@.len() <= info.load_how_many_chunks_per_frame,
        loaded@.no_duplicates(),
        forall|j: int|
            0 <= j < loaded@.len() ==> is_candidate(viewer_pos, *info, #[trigger] loaded@[j])
                && !old(all_chunks).dom().contains(loaded@[j]) && final(all_chunks).dom().contains(loaded@[j]),
        forall|p: Pos|
            #[trigger] old(all_chunks).dom().contains(p) ==> final(all_chunks).dom().contains(p)
                && final(all_chunks).spec_map()[p] == old(all_chunks).spec_map()[p],
        forall|p: Pos|
            #[trigger] final(all_chunks).dom().contains(p) ==> old(all_chunks).dom().contains(p)
                || loaded@.contains(p),
        forall|p: Pos|
            #[trigger] final(all_chunks).dom().contains(p) && !old(all_chunks).dom().contains(p)
                ==> chunk_generated_at(final(all_chunks).spec_map()[p], p, info.seed),
        loaded@.len() < info.load_how_many_chunks_per_frame ==> forall|p: Pos|
            #[trigger] is_candidate(viewer_pos, *info, p) && !old(all_chunks).dom().contains(p)
                ==> loaded@.contains(p),
{
    let center = snap_pos(viewer_pos);
    let ghost s = center;
    let xz = info.range_xz as i64;
    let yp = info.range_yp as i64;
    let yn = info.range_yn as i64;
    let r1 = Pos::from_xyz(xz, yp, xz);
    let r2 = Pos::from_xyz(-xz, -yn, -xz);
    let mut it = Pos::iter_range(r1, r2);
    let ghost it0 = it;
    proof {
        lemma_cube_iteration_box(it0, *info);
    }
    let budget = info.load_how_many_chunks_per_frame;
    let mut loaded: Vec<Pos> = Vec::new();
    if budget == 0 {
        // A zero budget defers all work to later frames: nothing to load,
        // nothing already resident is touched.
        return loaded;
    }
    let mut uploaded: usize = 0;
    loop
        invariant
            info.wf(),
            viewer_ok(viewer_pos),
            s == snap_pos_spec(viewer_pos),
            viewer_ok(s),
            center == s,
            budget == info.load_how_many_chunks_per_frame,
            it.wf(),
            it.base_pos == it0.base_pos,
            it.v == it0.v,
            it.range == it0.range,
            it0.wf(),
            0 <= it.cursor() <= it0.total(),
            forall|i: Pos|
                #[trigger] offset_in_policy(*info, i) ==> it0.in_cube(i) && -0x20000 <= i.x
                    <= 0x20000 && -0x20000 <= i.y <= 0x20000 && -0x20000 <= i.z <= 0x20000,
            forall|k: int|
                0 <= k < it0.total() ==> -(info.range_xz as int) <= (#[trigger] it0.elem(k)).x
                    <= info.range_xz && -(info.range_yn as int) <= it0.elem(k).y <= info.range_yp
                    && -(info.range_xz as int) <= it0.elem(k).z <= info.range_xz,
            all_chunks.wf(),
            uploaded == loaded@.len(),
            uploaded < budget,
            loaded@.no_duplicates(),
            forall|j: int|
                0 <= j < loaded@.len() ==> is_candidate(viewer_pos, *info, #[trigger] loaded@[j])
                    && !old(all_chunks).dom().contains(loaded@[j]) && all_chunks.dom().contains(
                    loaded@[j],
                ),
            forall|p: Pos|
                #[trigger] old(all_chunks).dom().contains(p) ==> all_chunks.dom().contains(p)
                    && all_chunks.spec_map()[p] == old(all_chunks).spec_map()[p],
            forall|p: Pos|
                #[trigger] all_chunks.dom().contains(p) ==> old(all_chunks).dom().contains(p)
                    || loaded@.contains(p),
            forall|p: Pos|
                #[trigger] all_chunks.dom().contains(p) && !old(all_chunks).dom().contains(p)
                    ==> chunk_generated_at(all_chunks.spec_map()[p], p, info.seed),
            forall|k: int|
                0 <= k < it.cursor() ==> (offset_in_sphere(*info, #[trigger] it0.elem(k))
                    ==> all_chunks.dom().contains(cand_base(s, it0.elem(k)))),
        ensures
            all_chunks.wf(),
            uploaded == loaded@.len(),
            uploaded < budget,
            loaded@.no_duplicates(),
            forall|j: int|
                0 <= j < loaded@.len() ==> is_candidate(viewer_pos, *info, #[trigger] loaded@[j])
                    && !old(all_chunks).dom().contains(loaded@[j]) && all_chunks.dom().contains(
                    loaded@[j],
                ),
            forall|p: Pos|
                #[trigger] old(all_chunks).dom().contains(p) ==> all_chunks.dom().contains(p)
                    && all_chunks.spec_map()[p] == old(all_chunks).spec_map()[p],
            forall|p: Pos|
                #[trigger] all_chunks.dom().contains(p) ==> old(all_chunks).dom().contains(p)
                    || loaded@.contains(p),
            forall|p: Pos|
                #[trigger] all_chunks.dom().contains(p) && !old(all_chunks).dom().contains(p)
                    ==> chunk_generated_at(all_chunks.spec_map()[p], p, info.seed),
            uploaded == budget || (forall|k: int|
                0 <= k < it0.total() ==> (offset_in_sphere(*info, #[trigger] it0.elem(k))
                    ==> all_chunks.dom().contains(cand_base(s, it0.elem(k))))),
        decreases it0.total() - it.cursor(),
    {
        let ghost kcur = it.cursor();
        match it.next() {
            Some(i) => {
                proof {
                    assert(0 <= kcur < it0.total());
                    assert(i == it0.elem(kcur));
                    assert(-(info.range_xz as int) <= i.x <= info.range_xz && -(
                    info.range_yn as int) <= i.y <= info.range_yp && -(info.range_xz as int)
                        <= i.z <= info.range_xz);
                    assert(-0x20000 <= i.x <= 0x20000 && -0x20000 <= i.y <= 0x20000 && -0x20000
                        <= i.z <= 0x20000);
                }
                let filter_ok = {
                    proof {
                        assert(0 <= i.x * i.x <= 0x400000000 && 0 <= i.y * i.y <= 0x400000000 && 0
                            <= i.z * i.z <= 0x400000000) by (nonlinear_arith)
                            requires
                                -0x20000 <= i.x <= 0x20000,
                                -0x20000 <= i.y <= 0x20000,
                                -0x20000 <= i.z <= 0x20000,
                        ;
                        assert(info.range_r * info.range_r <= 0x1_0000_0000) by (nonlinear_arith)
                            requires
                                info.range_r <= 0x10000,
                        ;
                    }
                    let rr = (info.range_r * info.range_r) as i64;
                    i.x() * i.x() + i.y() * i.y() + i.z() * i.z() < rr
                };
                if filter_ok {
                    proof {
                        assert(-0x200000 <= i.x * 16 <= 0x200000 && i.x * 16 == 16 * i.x
                            && -0x200000 <= i.y * 16 <= 0x200000 && i.y * 16 == 16 * i.y
                            && -0x200000 <= i.z * 16 <= 0x200000 && i.z * 16 == 16
                            * i.z) by (nonlinear_arith)
                            requires
                                -0x20000 <= i.x <= 0x20000,
                                -0x20000 <= i.y <= 0x20000,
                                -0x20000 <= i.z <= 0x20000,
                        ;
                    }
                    let base = center.plus(i.scale(16));
                    proof {
                        assert(base == cand_base(s, i));
                        lemma_cand_base_round_trip(s, *info, i);
                        assert(offset_in_policy(*info, i));
                    }
                    if !all_chunks.contains_pos(base) {
                        let ghost loaded0 = loaded@;
                        let ghost chunks0 = *all_chunks;
                        let c = SimpleGenerator.generate_chunk(base, info.seed);
                        all_chunks.insert_new(base, c);
                        loaded.push(base);
                        uploaded = uploaded + 1;
                        proof {
                            assert(loaded@ == loaded0.push(base));
                            assert(loaded@[loaded0.len() as int] == base);
                            assert(loaded@.contains(base));
                            assert forall|p: Pos| loaded0.contains(p) implies loaded@.contains(
                                p,
                            ) by {
                                let j = choose|j: int|
                                    0 <= j < loaded0.len() && loaded0[j] == p;
                                assert(loaded@[j] == p);
                            }
                            assert forall|j: int| 0 <= j < loaded@.len() implies is_candidate(
                                viewer_pos,
                                *info,
                                #[trigger] loaded@[j],
                            ) && !old(all_chunks).dom().contains(loaded@[j])
                                && all_chunks.dom().contains(loaded@[j]) by {
                                if j < loaded0.len() {
                                    assert(loaded@[j] == loaded0[j]);
                                } else {
                                    assert(loaded@[j] == base);
                                }
                            }
                            assert(loaded@.no_duplicates()) by {
                                assert forall|a: int, b: int|
                                    0 <= a < loaded@.len() && 0 <= b < loaded@.len() && a
                                        != b implies loaded@[a] != loaded@[b] by {
                                    if a < loaded0.len() && b < loaded0.len() {
                                        assert(loaded@[a] == loaded0[a] && loaded@[b]
                                            == loaded0[b]);
                                    } else if a < loaded0.len() {
                                        assert(loaded@[b] == base && loaded@[a] == loaded0[a]);
                                        assert(chunks0.dom().contains(loaded0[a]));
                                    } else {
                                        assert(loaded@[a] == base && loaded@[b] == loaded0[b]);
                                        assert(chunks0.dom().contains(loaded0[b]));
                                    }
                                }
                            }
                            assert forall|p: Pos|
                                #[trigger] all_chunks.dom().contains(p) implies old(
                            all_chunks).dom().contains(p) || loaded@.contains(p) by {
                                if p != base {
                                    assert(chunks0.dom().contains(p));
                                }
                            }
                        }
                        if uploaded >= budget {
                            return loaded;
                        }
                    }
                }
                proof {
                    assert forall|k: int|
                        0 <= k < kcur + 1 implies (offset_in_sphere(*info, #[trigger] it0.elem(k))
                        ==> all_chunks.dom().contains(cand_base(s, it0.elem(k)))) by {
                        if k == kcur {
                            assert(it0.elem(k) == i);
                        }
                    }
                }
            },
            None => {
                break ;
            },
        }
    }
    proof {
        if loaded@.len() < budget {
            assert forall|p: Pos|
                #[trigger] is_candidate(viewer_pos, *info, p) && !old(
                all_chunks,
            ).dom().contains(p) implies loaded@.contains(p) by {
                lemma_candidate_decompose(s, *info, p);
                let i = Pos {
                    x: ((p.x - s.x) / 16) as i64,
                    y: ((p.y - s.y) / 16) as i64,
                    z: ((p.z - s.z) / 16) as i64,
                };
                lemma_cube_covers(it0, i);
                let k = choose|k: int| 0 <= k < it0.total() && it0.elem(k) == i;
                assert(offset_in_sphere(*info, it0.elem(k)));
                assert(all_chunks.dom().contains(cand_base(s, i)));
            }
        }
    }
    loaded
}

/// The radial part of the policy alone.
pub open spec fn offset_in_sphere(info: GeneratorInfo, i: Pos) -> bool {
    i.x * i.x + i.y * i.y + i.z * i.z < info.range_r * info.range_r
}

/// Helper facts the load pass needs about the iteration box: every
/// in-policy offset lies in the enumerated box, and every enumerated offset
/// is small.
proof fn lemma_cube_iteration_box(it0: PosIterator, info: GeneratorInfo)
    requires
        info.wf(),
        it0.wf(),
        it0.base_pos.x == info.range_xz,
        it0.base_pos.y == info.range_yp,
        it0.base_pos.z == info.range_xz,
        it0.range.x == 2 * (info.range_xz as int),
        it0.range.y == info.range_yp + info.range_yn,
        it0.range.z == 2 * (info.range_xz as int),
        it0.v.0 == (if info.range_xz == 0 {
            0i64
        } else {
            -1i64
        }),
        it0.v.1 == (if info.range_yp + info.range_yn == 0 {
            0i64
        } else {
            -1i64
        }),
        it0.v.2 == (if info.range_xz == 0 {
            0i64
        } else {
            -1i64
        }),
    ensures
        forall|i: Pos|
            #[trigger] offset_in_policy(info, i) ==> it0.in_cube(i) && -0x20000 <= i.x <= 0x20000
                && -0x20000 <= i.y <= 0x20000 && -0x20000 <= i.z <= 0x20000,
        forall|k: int|
            0 <= k < it0.total() ==> -(info.range_xz as int) <= (#[trigger] it0.elem(k)).x
                <= info.range_xz && -(info.range_yn as int) <= it0.elem(k).y <= info.range_yp
                && -(info.range_xz as int) <= it0.elem(k).z <= info.range_xz,
{
    let xz = info.range_xz as int;
    let yp = info.range_yp as int;
    let yn = info.range_yn as int;
    assert(it0.range.x * it0.v.0 == -2 * xz && it0.range.z * it0.v.2 == -2 * xz && it0.range.y
        * it0.v.1 == -(yp + yn)) by (nonlinear_arith)
        requires
            it0.range.x == 2 * xz,
            it0.range.z == 2 * xz,
            it0.range.y == yp + yn,
            it0.v.0 == (if xz == 0 {
                0i64
            } else {
                -1i64
            }),
            it0.v.2 == (if xz == 0 {
                0i64
            } else {
                -1i64
            }),
            it0.v.1 == (if yp + yn == 0 {
                0i64
            } else {
                -1i64
            }),
    ;
    assert forall|i: Pos| #[trigger] offset_in_policy(info, i) implies it0.in_cube(i) && -0x20000
        <= i.x <= 0x20000 && -0x20000 <= i.y <= 0x20000 && -0x20000 <= i.z <= 0x20000 by {
    }
    lemma_cube_iteration(it0);
    assert forall|k: int| 0 <= k < it0.total() implies -(info.range_xz as int) <= (
    #[trigger] it0.elem(k)).x <= info.range_xz && -(info.range_yn as int) <= it0.elem(k).y
        <= info.range_yp && -(info.range_xz as int) <= it0.elem(k).z <= info.range_xz by {
        assert(it0.in_cube(it0.to_seq()[k]));
        assert(it0.to_seq()[k] == it0.elem(k));
    }
}


/// Unload pass: collect, in registry order, every resident chunk whose base
/// is no longer a candidate around the viewer, then remove them up to the
/// per-frame unload budget. Never more than the budget is removed, never a
/// chunk the policy still wants, and when the budget is not exhausted every
/// stray chunk is gone.
pub fn delete_chunks(all_chunks: &mut AllChunks, viewer_pos: Pos, info: &GeneratorInfo) -> (removed:
    Vec<Pos>)
    requires
        old(all_chunks).wf(),
        info.wf(),
        viewer_ok(viewer_pos),
    ensures
        final(all_chunks).wf(),
        removed@.len() <= info.unload_how_many_chunks_per_frame,
        removed@.no_duplicates(),
        forall|j: int|
            0 <= j < removed@.len() ==> old(all_chunks).dom().contains(#[trigger] removed@[j])
                && !is_candidate(viewer_pos, *info, removed@[j]) && !final(
                all_chunks).dom().contains(removed@[j]),
        forall|p: Pos|
            #[trigger] final(all_chunks).dom().contains(p) <==> (old(
            all_chunks).dom().contains(p) && !removed@.contains(p)),
        forall|p: Pos|
            #[trigger] final(all_chunks).dom().contains(p) ==> final(all_chunks).spec_map()[p]
                == old(all_chunks).spec_map()[p],
        removed@.len() < info.unload_how_many_chunks_per_frame ==> forall|p: Pos|
            #[trigger] old(all_chunks).dom().contains(p) && !is_candidate(viewer_pos, *info, p)
                ==> removed@.contains(p),
{
    let center = snap_pos(viewer_pos);
    let ghost s = center;
    let n = all_chunks.chunks.len();
    let mut to_delete: Vec<Pos> = Vec::new();
    let mut i: usize = 0;
    while i < n
        invariant
            info.wf(),
            viewer_ok(viewer_pos),
            s == snap_pos_spec(viewer_pos),
            center == s,
            all_chunks.wf(),
            *all_chunks == *old(all_chunks),
            n == all_chunks.entry_seq().len(),
            0 <= i <= n,
            to_delete@.no_duplicates(),
            forall|j: int|
                0 <= j < to_delete@.len() ==> old(all_chunks).dom().contains(
                    #[trigger] to_delete@[j],
                ) && !is_candidate(viewer_pos, *info, to_delete@[j]),
            forall|j: int|
                0 <= j < to_delete@.len() ==> exists|idx: int|
                    0 <= idx < i && (#[trigger] to_delete@[j]) == all_chunks.entry_seq()[idx].0,
            forall|idx: int|
                0 <= idx < i && !is_candidate(
                    viewer_pos,
                    *info,
                    (#[trigger] all_chunks.entry_seq()[idx]).0,
                ) ==> to_delete@.contains(all_chunks.entry_seq()[idx].0),
        decreases n - i,
    {
        let k = all_chunks.chunks[i].0;
        if !is_candidate_base(center, info, k) {
            let ghost td0 = to_delete@;
            to_delete.push(k);
            proof {
                assert(to_delete@[td0.len() as int] == k);
                assert(to_delete@.contains(k));
                assert(all_chunks.key_seq()[i as int] == k);
                assert(all_chunks.dom().contains(k));
                assert forall|j: int| 0 <= j < td0.len() implies to_delete@[j] != k by {
                    let idx = choose|idx: int|
                        0 <= idx < i && td0[j] == all_chunks.entry_seq()[idx].0;
                    assert(all_chunks.key_seq()[idx] == td0[j]);
                    assert(all_chunks.key_seq()[i as int] == k);
                }
                assert forall|j: int| 0 <= j < td0.len() implies to_delete@.contains(
                    #[trigger] td0[j],
                ) by {
                    assert(to_delete@[j] == td0[j]);
                }
            }
        }
        i = i + 1;
    }
    let budget = info.unload_how_many_chunks_per_frame;
    let m = to_delete.len();
    let mut removed: Vec<Pos> = Vec::new();
    let mut t: usize = 0;
    while t < m && t < budget
        invariant
            info.wf(),
            viewer_ok(viewer_pos),
            s == snap_pos_spec(viewer_pos),
            budget == info.unload_how_many_chunks_per_frame,
            m == to_delete@.len(),
            0 <= t <= m,
            t <= budget,
            all_chunks.wf(),
            to_delete@.no_duplicates(),
            forall|j: int|
                0 <= j < to_delete@.len() ==> old(all_chunks).dom().contains(
                    #[trigger] to_delete@[j],
                ) && !is_candidate(viewer_pos, *info, to_delete@[j]),
            forall|p: Pos|
                #[trigger] old(all_chunks).dom().contains(p) && !is_candidate(
                    viewer_pos,
                    *info,
                    p,
                ) ==> to_delete@.contains(p),
            removed@ == to_delete@.subrange(0, t as int),
            forall|p: Pos|
                #[trigger] all_chunks.dom().contains(p) <==> (old(all_chunks).dom().contains(p)
                    && !removed@.contains(p)),
            forall|p: Pos|
                #[trigger] all_chunks.dom().contains(p) ==> all_chunks.spec_map()[p] == old(
                    all_chunks,
                ).spec_map()[p],
        decreases m - t,
    {
        let k = to_delete[t];
        let ghost removed0 = removed@;
        let _ = all_chunks.remove_pos(k);
        removed.push(k);
        t = t + 1;
        proof {
            assert(removed@ =~= to_delete@.subrange(0, t as int));
            assert forall|p: Pos| true implies (removed@.contains(p) == (removed0.contains(p) || p
                == k)) by {
                if removed@.contains(p) {
                    let j = choose|j: int| 0 <= j < removed@.len() && removed@[j] == p;
                    if j < removed0.len() {
                        assert(removed0[j] == p);
                    }
                }
                if removed0.contains(p) {
                    let j = choose|j: int| 0 <= j < removed0.len() && removed0[j] == p;
                    assert(removed@[j] == p);
                }
                if p == k {
                    assert(removed@[removed0.len() as int] == k);
                }
            }
        }
    }
    proof {
        assert forall|j: int| 0 <= j < removed@.len() implies old(all_chunks).dom().contains(
            #[trigger] removed@[j],
        ) && !is_candidate(viewer_pos, *info, removed@[j]) && !all_chunks.dom().contains(
            removed@[j],
        ) by {
            assert(removed@[j] == to_delete@[j]);
            assert(removed@.contains(removed@[j]));
        }
        assert(removed@.no_duplicates()) by {
            assert forall|a: int, b: int|
                0 <= a < removed@.len() && 0 <= b < removed@.len() && a != b implies removed@[a]
                != removed@[b] by {
                assert(removed@[a] == to_delete@[a] && removed@[b] == to_delete@[b]);
            }
        }
        if removed@.len() < budget {
            assert forall|p: Pos|
                #[trigger] old(all_chunks).dom().contains(p) && !is_candidate(
                viewer_pos,
                *info,
                p,
            ) implies removed@.contains(p) by {
                assert(to_delete@.contains(p));
                let j = choose|j: int| 0 <= j < to_delete@.len() && to_delete@[j] == p;
                assert(removed@[j] == to_delete@[j]);
            }
        }
    }
    removed
}

} // verus!
