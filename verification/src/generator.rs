//! Procedural chunk generation: a deterministic pure function from (chunk
//! base position, seed) to a dense block array. The placeholder policy reads
//! the seed as a world height threshold and fills every cell whose absolute
//! height stays at or below it with stone.

use crate::block::BlockId;
use crate::chunk::{Chunk, CHUNK_SIZE, CHUNK_VOLUME};
use crate::grid::{grid_encode, lemma_grid_decode, lemma_grid_encode_injective};
use crate::pos::{Pos, PosIterator};
use vstd::prelude::*;

verus! {

/// A world seed; the placeholder generator reads it directly as a height
/// threshold.
#[derive(Debug, Clone, Copy, PartialEq, Eq, Hash, Structural)]
pub struct Seed {
    pub seed: u64,
}

impl Default for Seed {
    fn default() -> (r: Self)
        ensures
            r == (Seed { seed: 0u64 }),
    {
        Seed { seed: 0 }
    }
}

/// What a chunk generator computes: a block array that is a function of the
/// base position and the seed alone, with one id per cell. The spec function
/// is the determinism contract — two invocations with the same inputs yield
/// the same array.
pub trait ChunkGeneratorBasic {
    /// The generated array, as a function of the inputs alone.
    spec fn spec_generate(&self, chunk_base_position: Pos, seed: Seed) -> Seq<BlockId>;

    /// The inputs this generator accepts (machine limits only).
    spec fn generate_requires(&self, chunk_base_position: Pos, seed: Seed) -> bool;

    /// Produce the chunk's initial block contents. No side effects: the
    /// result depends on the two inputs alone.
    fn generate_base_blocks(&self, chunk_base_position: Pos, seed: Seed) -> (r: Vec<BlockId>)
        requires
            self.generate_requires(chunk_base_position, seed),
        ensures
            r@ == self.spec_generate(chunk_base_position, seed),
            r@.len() == CHUNK_VOLUME,
    ;
}

/// Building a whole chunk out of generated block contents.
pub trait ChunkGenerator: ChunkGeneratorBasic {
    /// A fresh chunk at `chunk_base_position` holding the generated blocks,
    /// with no cached derived state.
    fn generate_chunk(&self, chunk_base_position: Pos, seed: Seed) -> (c: Chunk)
        requires
            self.generate_requires(chunk_base_position, seed),
        ensures
            c.wf(),
            c.base_pos_of_chunk == chunk_base_position,
            c.blocks@ == self.spec_generate(chunk_base_position, seed),
            c.mesh is None,
            c.quad_group is None,
            c.quad_group_changed == false,
            c.mesh_up_to_date == false,
    {
        let blocks = self.generate_base_blocks(chunk_base_position, seed);
        Chunk {
            base_pos_of_chunk: chunk_base_position,
            blocks,
            mesh: None,
            quad_group: None,
            quad_group_changed: false,
            mesh_up_to_date: false,
        }
    }
}

impl<T: ChunkGeneratorBasic> ChunkGenerator for T {

}

/// Whether the placeholder policy fills the cell at flat index `i` of a chunk
/// based at `base`: its absolute height must not exceed the threshold that
/// the seed encodes.
pub open spec fn simple_cell_filled(base: Pos, seed: Seed, i: int) -> bool {
    base.y + (i / 16) % 16 <= seed.seed
}

/// The array the placeholder generator computes: stone (id 1) for every
/// filled cell, air (id 0) elsewhere.
pub open spec fn simple_generated(base: Pos, seed: Seed) -> Seq<BlockId> {
    Seq::new(
        CHUNK_VOLUME as nat,
        |i: int|
            if simple_cell_filled(base, seed, i) {
                BlockId(1u64)
            } else {
                BlockId(0u64)
            },
    )
}

/// Generation is deterministic: two results of the same generator on the
/// same base position and seed are the same array, bit for bit.
pub proof fn lemma_generation_deterministic<G: ChunkGeneratorBasic>(
    g: G,
    base: Pos,
    seed: Seed,
    r1: Seq<BlockId>,
    r2: Seq<BlockId>,
)
    requires
        r1 == g.spec_generate(base, seed),
        r2 == g.spec_generate(base, seed),
    ensures
        r1 == r2,
{
}

/// The placeholder height-field generator.
#[derive(Clone, Copy, Debug, PartialEq, Eq, Structural)]
pub struct SimpleGenerator;

impl Default for SimpleGenerator {
    fn default() -> (r: Self)
        ensures
            r == SimpleGenerator,
    {
        SimpleGenerator
    }
}

impl ChunkGeneratorBasic for SimpleGenerator {
    open spec fn spec_generate(&self, chunk_base_position: Pos, seed: Seed) -> Seq<BlockId> {
        simple_generated(chunk_base_position, seed)
    }

    open spec fn generate_requires(&self, chunk_base_position: Pos, seed: Seed) -> bool {
        &&& seed.seed <= i64::MAX
        &&& seed.seed - chunk_base_position.y <= i64::MAX
    }

    fn generate_base_blocks(&self, chunk_base_position: Pos, seed: Seed) -> (r: Vec<BlockId>) {
        let mut b: Vec<BlockId> = Vec::new();
        let mut k: usize = 0;
        while k < CHUNK_VOLUME
            invariant
                0 <= k <= CHUNK_VOLUME,
                b@.len() == k,
                forall|i: int| 0 <= i < k ==> b@[i] == BlockId(0u64),
            decreases CHUNK_VOLUME - k,
        {
            b.push(BlockId(0));
            k = k + 1;
        }
        let h: i64 = seed.seed as i64;
        let base = chunk_base_position;
        if base.y() > h {
            proof {
                assert(b@ =~= simple_generated(base, seed));
            }
            return b;
        }
        let d = h - base.y();
        let max_y: i64 = if d < (CHUNK_SIZE as i64 - 1) {
            d
        } else {
            CHUNK_SIZE as i64 - 1
        };
        let mut it = Pos::from_xyz(0, 0, 0).iter_cube(
            CHUNK_SIZE as i64 - 1,
            max_y,
            CHUNK_SIZE as i64 - 1,
        );
        let ghost my = max_y as int;
        loop
            invariant
                0 <= my <= 15,
                it.wf(),
                it.base_pos == (Pos { x: 0i64, y: 0i64, z: 0i64 }),
                it.range == (Pos { x: 15i64, y: my as i64, z: 15i64 }),
                it.v == (1i64, if my == 0 {
                    0i64
                } else {
                    1i64
                }, 1i64),
                0 <= it.cursor() <= it.total(),
                it.total() == 16 * (my + 1) * 16,
                b@.len() == CHUNK_VOLUME,
                forall|q: Pos|
                    Chunk::in_chunk(q) ==> b@[Chunk::flat_index(q)] == (if q.y <= my
                        && grid_encode(q.x as int, q.y as int, q.z as int, 16, my + 1)
                        < it.cursor() {
                        BlockId(1u64)
                    } else {
                        BlockId(0u64)
                    }),
            ensures
                b@.len() == CHUNK_VOLUME,
                forall|q: Pos|
                    Chunk::in_chunk(q) ==> b@[Chunk::flat_index(q)] == (if q.y <= my {
                        BlockId(1u64)
                    } else {
                        BlockId(0u64)
                    }),
            decreases it.total() - it.cursor(),
        {
            let ghost k = it.cursor();
            match it.next() {
                Some(p) => {
                    proof {
                        lemma_simple_elem(it.range, it.v, k, p);
                    }
                    let idx = p.x() as usize + CHUNK_SIZE * (p.y() as usize) + CHUNK_SIZE
                        * CHUNK_SIZE * (p.z() as usize);
                    proof {
                        Chunk::lemma_flat_index_bounds(p);
                    }
                    b.set(idx, BlockId(1));
                    proof {
                        assert forall|q: Pos| Chunk::in_chunk(q) implies b@[Chunk::flat_index(q)]
                            == (if q.y <= my && grid_encode(
                            q.x as int,
                            q.y as int,
                            q.z as int,
                            16,
                            my + 1,
                        ) < k + 1 {
                            BlockId(1u64)
                        } else {
                            BlockId(0u64)
                        }) by {
                            Chunk::lemma_flat_index_bounds(q);
                            if q == p {
                            } else {
                                assert(Chunk::flat_index(q) != Chunk::flat_index(p)) by {
                                    if Chunk::flat_index(q) == Chunk::flat_index(p) {
                                        Chunk::lemma_flat_index_injective(q, p);
                                    }
                                }
                                if q.y <= my {
                                    lemma_simple_encode_injective(q, p, my);
                                }
                            }
                        }
                    }
                },
                None => {
                    proof {
                        assert forall|q: Pos| Chunk::in_chunk(q) && q.y <= my implies grid_encode(
                            q.x as int,
                            q.y as int,
                            q.z as int,
                            16,
                            my + 1,
                        ) < it.total() by {
                            lemma_grid_decode(q.x as int, q.y as int, q.z as int, 16, my + 1);
                            assert(16 * (my + 1) * (q.z + 1) <= 16 * (my + 1)
                                * 16) by (nonlinear_arith)
                                requires
                                    0 <= q.z < 16,
                                    my >= 0,
                            ;
                        }
                    }
                    break ;
                },
            }
        }
        proof {
            assert(b@ =~= simple_generated(base, seed)) by {
                assert forall|i: int| 0 <= i < CHUNK_VOLUME implies b@[i] == (
                if simple_cell_filled(base, seed, i) {
                    BlockId(1u64)
                } else {
                    BlockId(0u64)
                }) by {
                    lemma_flat_cell(i);
                    let q = choose|q: Pos| Chunk::in_chunk(q) && Chunk::flat_index(q) == i;
                    assert(b@[Chunk::flat_index(q)] == (if q.y <= my {
                        BlockId(1u64)
                    } else {
                        BlockId(0u64)
                    }));
                    assert((i / 16) % 16 == q.y) by {
                        lemma_grid_decode(q.x as int, q.y as int, q.z as int, 16, 16);
                        assert(grid_encode(q.x as int, q.y as int, q.z as int, 16, 16) == i);
                    }
                }
            }
        }
        b
    }
}

/// The position an in-range step of the generator's cube iteration yields is
/// an in-chunk cell within the filled height band, and its encoding against
/// the band's layout is the iteration cursor.
proof fn lemma_simple_elem(range: Pos, v: (i64, i64, i64), k: int, p: Pos)
    requires
        range.x == 15,
        0 <= range.y <= 15,
        range.z == 15,
        v.0 == 1,
        v.2 == 1,
        v.1 == (if range.y == 0 {
            0i64
        } else {
            1i64
        }),
        0 <= k < 16 * (range.y + 1) * 16,
        p == (PosIterator {
            base_pos: Pos { x: 0i64, y: 0i64, z: 0i64 },
            now_delta: Pos { x: 0i64, y: 0i64, z: 0i64 },
            v,
            range,
        }).elem(k),
    ensures
        Chunk::in_chunk(p),
        p.y <= range.y,
        grid_encode(p.x as int, p.y as int, p.z as int, 16, range.y + 1) == k,
{
    let my = range.y as int;
    let ix = k % 16;
    let iy = (k / 16) % (my + 1);
    let iz = k / (16 * (my + 1));
    vstd::arithmetic::div_mod::lemma_mod_pos_bound(k, 16);
    vstd::arithmetic::div_mod::lemma_div_pos_is_pos(k, 16);
    vstd::arithmetic::div_mod::lemma_mod_pos_bound(k / 16, my + 1);
    vstd::arithmetic::mul::lemma_mul_strictly_positive(16, my + 1);
    vstd::arithmetic::div_mod::lemma_div_pos_is_pos(k, 16 * (my + 1));
    assert(iz < 16) by {
        if iz >= 16 {
            vstd::arithmetic::div_mod::lemma_fundamental_div_mod(k, 16 * (my + 1));
            vstd::arithmetic::div_mod::lemma_mod_pos_bound(k, 16 * (my + 1));
            vstd::arithmetic::mul::lemma_mul_inequality(16, iz, 16 * (my + 1));
            assert((16 * (my + 1)) * 16 == 16 * (my + 1) * 16) by (nonlinear_arith);
            assert((16 * (my + 1)) * iz >= (16 * (my + 1)) * 16) by (nonlinear_arith)
                requires
                    16 <= iz,
                    16 * (my + 1) > 0,
            ;
            assert(false);
        }
    }
    assert(ix * 1 == ix && iz * 1 == iz) by (nonlinear_arith);
    if my == 0 {
        assert(iy == 0) by {
            vstd::arithmetic::div_mod::lemma_mod_pos_bound(k / 16, 1);
        }
        assert(iy * v.1 == 0) by (nonlinear_arith)
            requires
                iy == 0,
        ;
    } else {
        assert(iy * v.1 == iy) by (nonlinear_arith)
            requires
                v.1 == 1,
        ;
    }
    assert(k == grid_encode(ix, iy, iz, 16, my + 1)) by {
        vstd::arithmetic::div_mod::lemma_fundamental_div_mod(k, 16);
        vstd::arithmetic::div_mod::lemma_fundamental_div_mod(k / 16, my + 1);
        vstd::arithmetic::div_mod::lemma_div_denominator(k, 16, my + 1);
        assert(k == 16 * ((my + 1) * iz + iy) + ix);
        assert(16 * ((my + 1) * iz + iy) == 16 * (iy + (my + 1) * iz)) by (nonlinear_arith);
    }
}

/// Within the filled height band, the band's flat layout is injective.
proof fn lemma_simple_encode_injective(q: Pos, p: Pos, my: int)
    requires
        Chunk::in_chunk(q),
        Chunk::in_chunk(p),
        0 <= my <= 15,
        q.y <= my,
        p.y <= my,
        q != p,
    ensures
        grid_encode(q.x as int, q.y as int, q.z as int, 16, my + 1) != grid_encode(
            p.x as int,
            p.y as int,
            p.z as int,
            16,
            my + 1,
        ),
{
    if grid_encode(q.x as int, q.y as int, q.z as int, 16, my + 1) == grid_encode(
        p.x as int,
        p.y as int,
        p.z as int,
        16,
        my + 1,
    ) {
        lemma_grid_encode_injective(
            q.x as int,
            q.y as int,
            q.z as int,
            p.x as int,
            p.y as int,
            p.z as int,
            16,
            my + 1,
        );
    }
}

/// Every flat index of the cell array is the index of exactly one in-chunk
/// position.
proof fn lemma_flat_cell(i: int)
    requires
        0 <= i < CHUNK_VOLUME,
    ensures
        exists|q: Pos| Chunk::in_chunk(q) && #[trigger] Chunk::flat_index(q) == i,
{
    let ix = i % 16;
    let iy = (i / 16) % 16;
    let iz = i / 256;
    vstd::arithmetic::div_mod::lemma_mod_pos_bound(i, 16);
    vstd::arithmetic::div_mod::lemma_div_pos_is_pos(i, 16);
    vstd::arithmetic::div_mod::lemma_mod_pos_bound(i / 16, 16);
    vstd::arithmetic::div_mod::lemma_div_pos_is_pos(i, 256);
    assert(iz < 16) by {
        vstd::arithmetic::div_mod::lemma_fundamental_div_mod(i, 256);
        vstd::arithmetic::div_mod::lemma_mod_pos_bound(i, 256);
        if iz >= 16 {
            vstd::arithmetic::mul::lemma_mul_inequality(16, iz, 256);
            assert(false);
        }
    }
    let q = Pos { x: ix as i64, y: iy as i64, z: iz as i64 };
    assert(Chunk::flat_index(q) == i) by {
        vstd::arithmetic::div_mod::lemma_fundamental_div_mod(i, 16);
        vstd::arithmetic::div_mod::lemma_fundamental_div_mod(i / 16, 16);
        assert((i / 16) / 16 == i / 256) by {
            vstd::arithmetic::div_mod::lemma_div_denominator(i, 16, 16);
        }
        assert(i == 16 * (16 * iz + iy) + ix);
    }
    assert(Chunk::in_chunk(q) && Chunk::flat_index(q) == i);
}

} // verus!
