//! Chunk store: one cubic region of the voxel grid as a dense flat array of
//! block ids, with cached derived state (quad group, mesh) and its staleness
//! flags; plus the culling pass that fills the quad group and the mesh pass
//! that assembles the buffers.

use crate::block::{BlockClient, BlockId, BlockType, IdMapping};
use crate::grid::{grid_encode, lemma_grid_decode, lemma_grid_encode_injective};
use crate::pos::{box_set, face_index, lemma_box_set_len, BlockFace, BlockVisibility, Pos};
use crate::quad::{mesh_matches_group, Mesh, Quad, QuadGroup};
use vstd::prelude::*;
use vstd::set_lib::lemma_len_subset;

verus! {

/// Edge length of a chunk, in cells.
pub const CHUNK_SIZE: usize = 16;

/// Number of cells of a chunk.
pub const CHUNK_VOLUME: usize = 4096;

/// One cubic region of the world: its base position (minimum corner), a
/// dense cell array in x-fastest order (`x + 16 y + 256 z`), the cached quad
/// group and mesh, and the staleness flags. Whoever writes `blocks` directly
/// must clear the caches; the culling and meshing passes keep them.
pub struct Chunk {
    pub base_pos_of_chunk: Pos,
    pub blocks: Vec<BlockId>,
    pub mesh: Option<Mesh>,
    pub quad_group: Option<QuadGroup>,
    pub quad_group_changed: bool,
    pub mesh_up_to_date: bool,
}

impl Chunk {
    /// The cell array covers the whole cube.
    pub open spec fn wf(self) -> bool {
        self.blocks@.len() == CHUNK_VOLUME
    }

    /// `p` addresses a cell of the chunk.
    pub open spec fn in_chunk(p: Pos) -> bool {
        &&& 0 <= p.x < CHUNK_SIZE
        &&& 0 <= p.y < CHUNK_SIZE
        &&& 0 <= p.z < CHUNK_SIZE
    }

    /// Flat index of an in-chunk position, x varying fastest: one step in y
    /// is an edge length (16), one step in z a whole layer (256).
    pub open spec fn flat_index(p: Pos) -> int {
        p.x + 16 * p.y + 256 * p.z
    }

    /// The id stored at an in-chunk position.
    pub open spec fn spec_block_at(self, p: Pos) -> BlockId {
        self.blocks@[Self::flat_index(p)]
    }

    /// What `get_pos_in_chunk` returns: the stored id, or nothing outside the
    /// chunk.
    pub open spec fn spec_get(self, p: Pos) -> Option<BlockId> {
        if Self::in_chunk(p) {
            Some(self.spec_block_at(p))
        } else {
            None
        }
    }

    /// An in-chunk position's flat index addresses the cell array.
    pub proof fn lemma_flat_index_bounds(p: Pos)
        requires
            Self::in_chunk(p),
        ensures
            0 <= Self::flat_index(p) < CHUNK_VOLUME,
    {
        lemma_grid_decode(p.x as int, p.y as int, p.z as int, 16, 16);
        assert(grid_encode(p.x as int, p.y as int, p.z as int, 16, 16) == Self::flat_index(p));
    }

    /// Distinct in-chunk positions have distinct flat indices.
    pub proof fn lemma_flat_index_injective(p: Pos, q: Pos)
        requires
            Self::in_chunk(p),
            Self::in_chunk(q),
            Self::flat_index(p) == Self::flat_index(q),
        ensures
            p == q,
    {
        assert(grid_encode(p.x as int, p.y as int, p.z as int, 16, 16) == Self::flat_index(p));
        assert(grid_encode(q.x as int, q.y as int, q.z as int, 16, 16) == Self::flat_index(q));
        lemma_grid_encode_injective(
            p.x as int,
            p.y as int,
            p.z as int,
            q.x as int,
            q.y as int,
            q.z as int,
            16,
            16,
        );
    }

    /// Bounds-checked read of one cell: an out-of-range position yields
    /// nothing, never a fault.
    pub fn get_pos_in_chunk(&self, pos_in_chunk: Pos) -> (r: Option<BlockId>)
        requires
            self.wf(),
        ensures
            r == self.spec_get(pos_in_chunk),
    {
        if pos_in_chunk.all_in_range(0..CHUNK_SIZE as i64) {
            proof {
                Self::lemma_flat_index_bounds(pos_in_chunk);
            }
            let idx = pos_in_chunk.x() as usize + CHUNK_SIZE * (pos_in_chunk.y() as usize)
                + CHUNK_SIZE * CHUNK_SIZE * (pos_in_chunk.z() as usize);
            Some(self.blocks[idx])
        } else {
            None
        }
    }

    /// Write one cell. The caches are left alone: a caller that changes cell
    /// contents must clear `quad_group` and `mesh_up_to_date` itself, as with
    /// any direct write to `blocks`.
    pub fn set_pos_in_chunk(&mut self, pos_in_chunk: Pos, id: BlockId)
        requires
            old(self).wf(),
            Self::in_chunk(pos_in_chunk),
        ensures
            final(self).wf(),
            final(self).blocks@ == old(self).blocks@.update(Self::flat_index(pos_in_chunk), id),
            final(self).base_pos_of_chunk == old(self).base_pos_of_chunk,
            final(self).mesh == old(self).mesh,
            final(self).quad_group == old(self).quad_group,
            final(self).quad_group_changed == old(self).quad_group_changed,
            final(self).mesh_up_to_date == old(self).mesh_up_to_date,
    {
        proof {
            Self::lemma_flat_index_bounds(pos_in_chunk);
        }
        let idx = pos_in_chunk.x() as usize + CHUNK_SIZE * (pos_in_chunk.y() as usize)
            + CHUNK_SIZE * CHUNK_SIZE * (pos_in_chunk.z() as usize);
        self.blocks.set(idx, id);
    }

    /// A chunk at the origin with every cell holding `id` and no cached
    /// derived state.
    pub fn new_filled_with_id(id: BlockId) -> (c: Chunk)
        ensures
            c.wf(),
            c.base_pos_of_chunk == (Pos { x: 0i64, y: 0i64, z: 0i64 }),
            forall|p: Pos| Self::in_chunk(p) ==> #[trigger] c.spec_block_at(p) == id,
            c.mesh is None,
            c.quad_group is None,
            c.quad_group_changed == false,
            c.mesh_up_to_date == false,
    {
        let mut blocks: Vec<BlockId> = Vec::new();
        let mut k: usize = 0;
        while k < CHUNK_VOLUME
            invariant
                0 <= k <= CHUNK_VOLUME,
                blocks@.len() == k,
                forall|i: int| 0 <= i < k ==> blocks@[i] == id,
            decreases CHUNK_VOLUME - k,
        {
            blocks.push(id);
            k = k + 1;
        }
        let c = Chunk {
            base_pos_of_chunk: Pos::from_xyz(0, 0, 0),
            blocks,
            mesh: None,
            quad_group: None,
            quad_group_changed: false,
            mesh_up_to_date: false,
        };
        proof {
            assert forall|p: Pos| Self::in_chunk(p) implies #[trigger] c.spec_block_at(p)
                == id by {
                Self::lemma_flat_index_bounds(p);
            }
        }
        c
    }
}

/// Enumeration of a chunk's cells as `(position-in-chunk, id)` pairs, in the
/// fixed x-fastest order.
pub struct ChunkIter<'a> {
    pub chunk: &'a Chunk,
    pub pos_in_chunk: Pos,
}

impl Chunk {
    /// Enumerate all cells from `(0, 0, 0)`.
    pub fn iter(&self) -> (it: ChunkIter<'_>)
        requires
            self.wf(),
        ensures
            it.wf(),
            it.chunk == self,
            it.cursor() == 0,
    {
        ChunkIter { chunk: self, pos_in_chunk: Pos::from_xyz(0, 0, 0) }
    }
}

impl ChunkIter<'_> {
    /// The enumeration is over a well-formed chunk and stands on a cell of
    /// the grid (or one layer past it, once exhausted).
    pub open spec fn wf(self) -> bool {
        &&& self.chunk.wf()
        &&& 0 <= self.pos_in_chunk.x < CHUNK_SIZE
        &&& 0 <= self.pos_in_chunk.y < CHUNK_SIZE
        &&& 0 <= self.pos_in_chunk.z <= CHUNK_SIZE
        &&& (self.pos_in_chunk.z == CHUNK_SIZE ==> self.pos_in_chunk.x == 0 && self.pos_in_chunk.y
            == 0)
    }

    /// How many cells have been yielded so far.
    pub open spec fn cursor(self) -> int {
        Chunk::flat_index(self.pos_in_chunk)
    }

    /// Yield the next cell and its id, or nothing once all cells are done.
    pub fn next(&mut self) -> (r: Option<(Pos, BlockId)>)
        requires
            old(self).wf(),
        ensures
            final(self).wf(),
            final(self).chunk == old(self).chunk,
            old(self).cursor() < CHUNK_VOLUME ==> {
                &&& Chunk::in_chunk(old(self).pos_in_chunk)
                &&& r == Some(
                    (
                        old(self).pos_in_chunk,
                        old(self).chunk.spec_block_at(old(self).pos_in_chunk),
                    ),
                )
                &&& final(self).cursor() == old(self).cursor() + 1
            },
            old(self).cursor() >= CHUNK_VOLUME ==> {
                &&& r == None::<(Pos, BlockId)>
                &&& *final(self) == *old(self)
            },
    {
        proof {
            if self.pos_in_chunk.z < CHUNK_SIZE {
                Chunk::lemma_flat_index_bounds(self.pos_in_chunk);
            }
        }
        if self.pos_in_chunk.all_in_range(0..CHUNK_SIZE as i64) {
            let out_pos = self.pos_in_chunk;
            let out_id = self.chunk.get_pos_in_chunk(out_pos).unwrap();
            self.pos_in_chunk.x = self.pos_in_chunk.x + 1;
            if self.pos_in_chunk.x >= CHUNK_SIZE as i64 {
                self.pos_in_chunk.x = 0;
                self.pos_in_chunk.y = self.pos_in_chunk.y + 1;
            }
            if self.pos_in_chunk.y >= CHUNK_SIZE as i64 {
                self.pos_in_chunk.y = 0;
                self.pos_in_chunk.z = self.pos_in_chunk.z + 1;
            }
            Some((out_pos, out_id))
        } else {
            None
        }
    }
}

impl Chunk {
    /// The block type a cell resolves to through the mapping table, or
    /// nothing for an out-of-range id.
    pub open spec fn resolved_type(self, m: IdMapping, p: Pos) -> Option<BlockType> {
        m.spec_get(self.spec_block_at(p).0 as usize as int)
    }

    /// The visibility class a position presents to its neighbours: cells
    /// outside the chunk and unresolved ids both count as empty.
    pub open spec fn visibility_of(self, m: IdMapping, p: Pos) -> BlockVisibility {
        if Self::in_chunk(p) {
            match self.resolved_type(m, p) {
                Some(bt) => bt.spec_visibility(),
                None => BlockVisibility::Empty,
            }
        } else {
            BlockVisibility::Empty
        }
    }

    /// The face of cell `p` in direction `f` is visible: the cell holds an
    /// opaque block and its neighbour in that direction is not opaque (cells
    /// beyond the chunk boundary count as empty, so boundary faces are always
    /// visible).
    pub open spec fn face_visible(self, m: IdMapping, p: Pos, f: BlockFace) -> bool {
        &&& Self::in_chunk(p)
        &&& self.visibility_of(m, p) == BlockVisibility::Opaque
        &&& self.visibility_of(m, p.spec_add(f.delta())) != BlockVisibility::Opaque
    }

    /// The block type of a visible cell (air for the positions `face_visible`
    /// rules out, which never reach a quad map).
    pub open spec fn visible_type(self, m: IdMapping, p: Pos) -> BlockType {
        match self.resolved_type(m, p) {
            Some(bt) => bt,
            None => BlockType::Empty,
        }
    }

    /// What one full culling pass computes for direction `f`: every cell
    /// whose face in direction `f` is visible, mapped to its block type.
    pub open spec fn culled_map(self, m: IdMapping, f: BlockFace) -> Map<Pos, BlockType> {
        Map::new(|p: Pos| self.face_visible(m, p, f), |p: Pos| self.visible_type(m, p))
    }

    /// The prefix of the culling pass that has visited the cells with flat
    /// index below `k`.
    pub open spec fn culled_map_upto(self, m: IdMapping, f: BlockFace, k: int) -> Map<
        Pos,
        BlockType,
    > {
        Map::new(
            |p: Pos| self.face_visible(m, p, f) && Self::flat_index(p) < k,
            |p: Pos| self.visible_type(m, p),
        )
    }

    /// The cached quad group `g` is exactly what a full culling pass over
    /// this chunk computes.
    pub open spec fn quad_group_is_culled(self, m: IdMapping, g: QuadGroup) -> bool {
        &&& g.wf()
        &&& forall|f: BlockFace| #[trigger] g.face_map(f) == self.culled_map(m, f)
    }

    /// Walk every cell, resolve it, and record each exposed face of each
    /// opaque cell into a fresh quad group; then mark the mesh stale. A full
    /// rebuild: any prior group is discarded.
    pub fn generate_quad_group(&mut self, id_mapping: &IdMapping)
        requires
            old(self).wf(),
        ensures
            final(self).wf(),
            final(self).base_pos_of_chunk == old(self).base_pos_of_chunk,
            final(self).blocks == old(self).blocks,
            final(self).mesh == old(self).mesh,
            final(self).quad_group_changed == old(self).quad_group_changed,
            final(self).mesh_up_to_date == false,
            final(self).quad_group matches Some(g) && old(self).quad_group_is_culled(
                *id_mapping,
                g,
            ) && g.positions_meshable() && g.total() <= 24576,
    {
        let mut quads = QuadGroup::default();
        let mut it = self.iter();
        let ghost me = *self;
        loop
            invariant
                it.wf(),
                it.chunk == &me,
                me.wf(),
                0 <= it.cursor() <= CHUNK_VOLUME,
                quads.wf(),
                forall|f: BlockFace| #[trigger] quads.face_map(f) == me.culled_map_upto(
                    *id_mapping,
                    f,
                    it.cursor(),
                ),
            ensures
                quads.wf(),
                forall|f: BlockFace| #[trigger] quads.face_map(f) == me.culled_map_upto(
                    *id_mapping,
                    f,
                    CHUNK_VOLUME as int,
                ),
            decreases CHUNK_VOLUME - it.cursor(),
        {
            let ghost k = it.cursor();
            match it.next() {
                Some((pos, block)) => {
                    proof {
                        Chunk::lemma_flat_index_bounds(pos);
                    }
                    emit_cell_faces(&it.chunk, id_mapping, &mut quads, pos, block);
                    proof {
                        assert forall|f: BlockFace| #[trigger] quads.face_map(f)
                            == me.culled_map_upto(*id_mapping, f, k + 1) by {
                            lemma_culled_map_step(me, *id_mapping, f, pos);
                        }
                    }
                },
                None => {
                    break ;
                },
            }
        }
        proof {
            assert forall|f: BlockFace| #[trigger] quads.face_map(f) == me.culled_map(
                *id_mapping,
                f,
            ) by {
                assert(me.culled_map_upto(*id_mapping, f, CHUNK_VOLUME as int) =~= me.culled_map(
                    *id_mapping,
                    f,
                )) by {
                    assert forall|p: Pos| me.face_visible(*id_mapping, p, f) implies Self::flat_index(
                        p,
                    ) < CHUNK_VOLUME by {
                        Self::lemma_flat_index_bounds(p);
                    }
                }
            }
        }
        proof {
            lemma_culled_group_meshable(me, *id_mapping, quads);
        }
        self.quad_group = Some(quads);
        self.mesh_up_to_date = false;
    }
}

/// Extending a culling prefix past the cell at `pos` either adds that cell's
/// face (when visible) or changes nothing.
proof fn lemma_culled_map_step(c: Chunk, m: IdMapping, f: BlockFace, pos: Pos)
    requires
        Chunk::in_chunk(pos),
    ensures
        c.culled_map_upto(m, f, Chunk::flat_index(pos) + 1) == (if c.face_visible(m, pos, f) {
            c.culled_map_upto(m, f, Chunk::flat_index(pos)).insert(pos, c.visible_type(m, pos))
        } else {
            c.culled_map_upto(m, f, Chunk::flat_index(pos))
        }),
{
    let k = Chunk::flat_index(pos);
    assert forall|p: Pos|
        c.face_visible(m, p, f) && Chunk::flat_index(p) == k implies p == pos by {
        Chunk::lemma_flat_index_injective(p, pos);
    }
    if c.face_visible(m, pos, f) {
        assert(c.culled_map_upto(m, f, k + 1) =~= c.culled_map_upto(m, f, k).insert(
            pos,
            c.visible_type(m, pos),
        ));
    } else {
        assert(c.culled_map_upto(m, f, k + 1) =~= c.culled_map_upto(m, f, k));
    }
}

/// Resolve one cell and record each of its exposed faces into `quads`: cells
/// that do not resolve to an opaque block contribute nothing; for an opaque
/// cell, every direction whose neighbour is not opaque gains the cell.
fn emit_cell_faces(chunk: &Chunk, id_mapping: &IdMapping, quads: &mut QuadGroup, pos: Pos, id: BlockId)
    requires
        chunk.wf(),
        Chunk::in_chunk(pos),
        id == chunk.spec_block_at(pos),
        old(quads).wf(),
    ensures
        final(quads).wf(),
        forall|f: BlockFace| #[trigger] final(quads).face_map(f) == (if chunk.face_visible(
            *id_mapping,
            pos,
            f,
        ) {
            old(quads).face_map(f).insert(pos, chunk.visible_type(*id_mapping, pos))
        } else {
            old(quads).face_map(f)
        }),
{
    let block = match id.get_block_type(id_mapping) {
        Some(v) => v,
        None => {
            return ;
        },
    };
    match block.visibility() {
        BlockVisibility::Opaque => {},
        _ => {
            return ;
        },
    };
    let faces = BlockFace::iter_all();
    let mut j: usize = 0;
    while j < 6
        invariant
            chunk.wf(),
            Chunk::in_chunk(pos),
            block == chunk.visible_type(*id_mapping, pos),
            chunk.visibility_of(*id_mapping, pos) == BlockVisibility::Opaque,
            faces@ == seq![
                BlockFace::XP,
                BlockFace::XN,
                BlockFace::YP,
                BlockFace::YN,
                BlockFace::ZP,
                BlockFace::ZN,
            ],
            0 <= j <= 6,
            quads.wf(),
            forall|f: BlockFace| #[trigger] quads.face_map(f) == (if face_index(f) < j
                && chunk.face_visible(*id_mapping, pos, f) {
                old(quads).face_map(f).insert(pos, chunk.visible_type(*id_mapping, pos))
            } else {
                old(quads).face_map(f)
            }),
        decreases 6 - j,
    {
        let face = faces[j];
        proof {
            assert(face_index(face) == j);
        }
        let npos = pos.offset(face);
        let neighbor_visibility = match chunk.get_pos_in_chunk(npos) {
            Some(v) => match v.get_block_type(id_mapping) {
                Some(v) => v.visibility(),
                None => BlockVisibility::Empty,
            },
            None => BlockVisibility::Empty,
        };
        proof {
            assert(neighbor_visibility == chunk.visibility_of(*id_mapping, npos));
        }
        match neighbor_visibility {
            BlockVisibility::Opaque => {},
            _ => {
                quads.insert_quad(Quad::new(pos, block, face));
            },
        };
        j = j + 1;
    }
}

impl Chunk {
    /// Any cached quad group is fit for mesh assembly.
    pub open spec fn group_cached_ok(self) -> bool {
        self.quad_group matches Some(g) ==> (g.wf() && g.positions_meshable() && g.total()
            <= 24576)
    }

    /// A non-empty cached quad group, if present.
    pub fn get_quad_group(&self) -> (r: Option<&QuadGroup>)
        ensures
            r is Some <==> self.quad_group is Some,
            r matches Some(g) ==> self.quad_group == Some(*g),
    {
        match &self.quad_group {
            Some(q) => Some(q),
            None => None,
        }
    }

    /// The cached quad group, generated first when none is cached yet
    /// ("asked too early" heals itself rather than faulting).
    pub fn get_quad_group_and_generate(&mut self, id_mapping: &IdMapping) -> (r: &QuadGroup)
        requires
            old(self).wf(),
        ensures
            final(self).wf(),
            final(self).quad_group == Some(*r),
            old(self).quad_group is Some ==> *final(self) == *old(self),
            old(self).quad_group is None ==> {
                &&& old(self).quad_group_is_culled(*id_mapping, *r)
                &&& final(self).base_pos_of_chunk == old(self).base_pos_of_chunk
                &&& final(self).blocks == old(self).blocks
                &&& final(self).mesh == old(self).mesh
                &&& final(self).quad_group_changed == old(self).quad_group_changed
                &&& final(self).mesh_up_to_date == false
            },
    {
        if self.get_quad_group().is_none() {
            self.generate_quad_group(id_mapping);
        }
        self.quad_group.as_ref().unwrap()
    }

    /// Assemble the chunk's mesh from its quad group, generating the group
    /// first when none is cached.
    pub fn generate_mesh(&mut self, id_mapping: &IdMapping)
        requires
            old(self).wf(),
            old(self).group_cached_ok(),
        ensures
            final(self).wf(),
            final(self).group_cached_ok(),
            final(self).base_pos_of_chunk == old(self).base_pos_of_chunk,
            final(self).blocks == old(self).blocks,
            final(self).quad_group_changed == old(self).quad_group_changed,
            old(self).quad_group is Some ==> final(self).quad_group == old(self).quad_group
                && final(self).mesh_up_to_date == old(self).mesh_up_to_date,
            old(self).quad_group is None ==> (final(self).quad_group matches Some(g) && old(
                self,
            ).quad_group_is_culled(*id_mapping, g)) && final(self).mesh_up_to_date == false,
            final(self).quad_group matches Some(g) && final(self).mesh matches Some(mm)
                && mesh_matches_group(g, mm),
    {
        if self.quad_group.is_none() {
            self.generate_quad_group(id_mapping);
            proof {
                let g = self.quad_group->Some_0;
                lemma_culled_group_meshable(*old(self), *id_mapping, g);
            }
        }
        let mesh = match &self.quad_group {
            Some(q) => q.generate_mesh(),
            None => Mesh::default(),
        };
        self.mesh = Some(mesh);
    }

    /// Hand the cached mesh out, leaving none behind: the renderer consumes
    /// it once per staleness transition.
    pub fn take_mesh(&mut self) -> (r: Option<Mesh>)
        ensures
            r == old(self).mesh,
            final(self).mesh is None,
            final(self).base_pos_of_chunk == old(self).base_pos_of_chunk,
            final(self).blocks == old(self).blocks,
            final(self).quad_group == old(self).quad_group,
            final(self).quad_group_changed == old(self).quad_group_changed,
            final(self).mesh_up_to_date == old(self).mesh_up_to_date,
    {
        self.mesh.take()
    }
}

/// A quad group computed by the culling pass holds only in-chunk positions
/// and at most one quad per cell and direction, so it is fit for mesh
/// assembly.
pub proof fn lemma_culled_group_meshable(c: Chunk, m: IdMapping, g: QuadGroup)
    requires
        c.quad_group_is_culled(m, g),
    ensures
        g.positions_meshable(),
        g.total() <= 24576,
{
    let cells = box_set(Pos { x: 0i64, y: 0i64, z: 0i64 }, 16, 16, 16);
    lemma_box_set_len(Pos { x: 0i64, y: 0i64, z: 0i64 }, 16, 16, 16);
    assert forall|f: BlockFace| (#[trigger] g.face_map(f)).dom().len() <= 4096 by {
        assert(g.face_map(f) == c.culled_map(m, f));
        assert(g.face_map(f).dom().subset_of(cells));
        lemma_len_subset(g.face_map(f).dom(), cells);
    }
    assert forall|f: BlockFace, p: Pos|
        #[trigger] g.face_map(f).dom().contains(p) implies p.x < i64::MAX && p.y < i64::MAX
        && p.z < i64::MAX by {
        assert(g.face_map(f) == c.culled_map(m, f));
    }
}

/// The boundary layer of the chunk that faces direction `f`: the cells whose
/// neighbour along `f` lies outside the chunk.
pub open spec fn face_boundary(f: BlockFace) -> Set<Pos> {
    match f {
        BlockFace::XP => box_set(Pos { x: 15i64, y: 0i64, z: 0i64 }, 1, 16, 16),
        BlockFace::XN => box_set(Pos { x: 0i64, y: 0i64, z: 0i64 }, 1, 16, 16),
        BlockFace::YP => box_set(Pos { x: 0i64, y: 15i64, z: 0i64 }, 16, 1, 16),
        BlockFace::YN => box_set(Pos { x: 0i64, y: 0i64, z: 0i64 }, 16, 1, 16),
        BlockFace::ZP => box_set(Pos { x: 0i64, y: 0i64, z: 15i64 }, 16, 16, 1),
        BlockFace::ZN => box_set(Pos { x: 0i64, y: 0i64, z: 0i64 }, 16, 16, 1),
    }
}

/// Culling a chunk whose every cell is opaque yields exactly the boundary
/// layer in each direction — one 16 x 16 sheet of quads per face, 256 quads
/// each and 1536 over all six directions — since every interior face is
/// occluded by its opaque neighbour and boundary faces are always exposed.
pub proof fn lemma_full_opaque_chunk_quads(c: Chunk, m: IdMapping, f: BlockFace)
    requires
        c.wf(),
        forall|p: Pos|
            Chunk::in_chunk(p) ==> #[trigger] c.visibility_of(m, p) == BlockVisibility::Opaque,
    ensures
        c.culled_map(m, f).dom() =~= face_boundary(f),
        c.culled_map(m, f).dom().len() == 256,
{
    assert forall|p: Pos| #[trigger] c.culled_map(m, f).dom().contains(p) <==> face_boundary(
        f,
    ).contains(p) by {
        if Chunk::in_chunk(p) {
            assert(c.visibility_of(m, p) == BlockVisibility::Opaque);
            let n = p.spec_add(f.delta());
            if Chunk::in_chunk(n) {
                assert(c.visibility_of(m, n) == BlockVisibility::Opaque);
            }
        }
    }
    match f {
        BlockFace::XP => lemma_box_set_len(Pos { x: 15i64, y: 0i64, z: 0i64 }, 1, 16, 16),
        BlockFace::XN => lemma_box_set_len(Pos { x: 0i64, y: 0i64, z: 0i64 }, 1, 16, 16),
        BlockFace::YP => lemma_box_set_len(Pos { x: 0i64, y: 15i64, z: 0i64 }, 16, 1, 16),
        BlockFace::YN => lemma_box_set_len(Pos { x: 0i64, y: 0i64, z: 0i64 }, 16, 1, 16),
        BlockFace::ZP => lemma_box_set_len(Pos { x: 0i64, y: 0i64, z: 15i64 }, 16, 16, 1),
        BlockFace::ZN => lemma_box_set_len(Pos { x: 0i64, y: 0i64, z: 0i64 }, 16, 16, 1),
    }
    assert(c.culled_map(m, f).dom() =~= face_boundary(f));
}

/// A quad group culled from a fully opaque chunk holds exactly the six
/// boundary sheets: 6 * 16 * 16 quads in all.
pub proof fn lemma_full_opaque_chunk_total(c: Chunk, m: IdMapping, g: QuadGroup)
    requires
        c.wf(),
        forall|p: Pos|
            Chunk::in_chunk(p) ==> #[trigger] c.visibility_of(m, p) == BlockVisibility::Opaque,
        c.quad_group_is_culled(m, g),
    ensures
        g.total() == 1536,
{
    lemma_full_opaque_chunk_quads(c, m, BlockFace::XP);
    lemma_full_opaque_chunk_quads(c, m, BlockFace::XN);
    lemma_full_opaque_chunk_quads(c, m, BlockFace::YP);
    lemma_full_opaque_chunk_quads(c, m, BlockFace::YN);
    lemma_full_opaque_chunk_quads(c, m, BlockFace::ZP);
    lemma_full_opaque_chunk_quads(c, m, BlockFace::ZN);
    assert(g.face_map(BlockFace::XP) == c.culled_map(m, BlockFace::XP));
    assert(g.face_map(BlockFace::XN) == c.culled_map(m, BlockFace::XN));
    assert(g.face_map(BlockFace::YP) == c.culled_map(m, BlockFace::YP));
    assert(g.face_map(BlockFace::YN) == c.culled_map(m, BlockFace::YN));
    assert(g.face_map(BlockFace::ZP) == c.culled_map(m, BlockFace::ZP));
    assert(g.face_map(BlockFace::ZN) == c.culled_map(m, BlockFace::ZN));
}

/// A quad group culled from a chunk with no opaque cell holds no quad at
/// all.
pub proof fn lemma_empty_chunk_total(c: Chunk, m: IdMapping, g: QuadGroup)
    requires
        c.wf(),
        forall|p: Pos|
            Chunk::in_chunk(p) ==> #[trigger] c.visibility_of(m, p) != BlockVisibility::Opaque,
        c.quad_group_is_culled(m, g),
    ensures
        g.total() == 0,
{
    lemma_empty_chunk_no_quads(c, m, BlockFace::XP);
    lemma_empty_chunk_no_quads(c, m, BlockFace::XN);
    lemma_empty_chunk_no_quads(c, m, BlockFace::YP);
    lemma_empty_chunk_no_quads(c, m, BlockFace::YN);
    lemma_empty_chunk_no_quads(c, m, BlockFace::ZP);
    lemma_empty_chunk_no_quads(c, m, BlockFace::ZN);
    assert(g.face_map(BlockFace::XP) == c.culled_map(m, BlockFace::XP));
    assert(g.face_map(BlockFace::XN) == c.culled_map(m, BlockFace::XN));
    assert(g.face_map(BlockFace::YP) == c.culled_map(m, BlockFace::YP));
    assert(g.face_map(BlockFace::YN) == c.culled_map(m, BlockFace::YN));
    assert(g.face_map(BlockFace::ZP) == c.culled_map(m, BlockFace::ZP));
    assert(g.face_map(BlockFace::ZN) == c.culled_map(m, BlockFace::ZN));
}

/// Culling a chunk with no opaque cell yields no quad in any direction.
pub proof fn lemma_empty_chunk_no_quads(c: Chunk, m: IdMapping, f: BlockFace)
    requires
        c.wf(),
        forall|p: Pos|
            Chunk::in_chunk(p) ==> #[trigger] c.visibility_of(m, p) != BlockVisibility::Opaque,
    ensures
        c.culled_map(m, f).dom() =~= Set::<Pos>::empty(),
        c.culled_map(m, f).dom().len() == 0,
{
    assert(c.culled_map(m, f).dom() =~= Set::<Pos>::empty());
}

impl Default for Chunk {
    /// An all-air chunk at the origin with no cached derived state.
    fn default() -> (c: Self)
        ensures
            c.wf(),
            c.base_pos_of_chunk == (Pos { x: 0i64, y: 0i64, z: 0i64 }),
            forall|p: Pos| Chunk::in_chunk(p) ==> #[trigger] c.spec_block_at(p) == BlockId(0u64),
            c.mesh is None,
            c.quad_group is None,
            c.quad_group_changed == false,
            c.mesh_up_to_date == false,
    {
        Chunk::new_filled_with_id(BlockId(0))
    }
}

} // verus!
