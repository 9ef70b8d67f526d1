//! Visible block faces (quads), the per-face-direction quad groups that the
//! culling pass fills, and the flat mesh buffers assembled from them.

use crate::block::{BlockClient, BlockType, UvRect};
use crate::pos::{face_index, BlockFace, Pos};
use vstd::prelude::*;

verus! {

/// One visible unit face: a grid cell, the block type that fills it, and the
/// face direction that is exposed.
#[derive(Debug, Clone, Copy, PartialEq, Eq, Hash, Structural)]
pub struct Quad {
    pub pos: Pos,
    pub block_type: BlockType,
    pub face: BlockFace,
}

impl Quad {
    pub fn new(pos: Pos, block_type: BlockType, face: BlockFace) -> (q: Quad)
        ensures
            q == (Quad { pos, block_type, face }),
    {
        Quad { pos, block_type, face }
    }
}

/// Flat mesh buffers ready for a renderer: vertex positions, per-vertex
/// normals and texture coordinates, and triangle indices. Coordinates are
/// exact integers (grid corners and atlas texels); the renderer scales them
/// into its own floating-point space.
#[derive(Debug, Clone)]
pub struct Mesh {
    pub vertices: Vec<(i64, i64, i64)>,
    pub normal: Vec<(i64, i64, i64)>,
    pub uv: Vec<(i64, i64)>,
    pub indices: Vec<u32>,
}

impl Default for Mesh {
    fn default() -> (r: Self)
        ensures
            r.vertices@.len() == 0,
            r.normal@.len() == 0,
            r.uv@.len() == 0,
            r.indices@.len() == 0,
    {
        Mesh { vertices: Vec::new(), normal: Vec::new(), uv: Vec::new(), indices: Vec::new() }
    }
}

impl Mesh {
    /// Empty buffers with room reserved for `v` vertices and `i` indices.
    pub fn new_with_capacity(v: usize, i: usize) -> (r: Mesh)
        ensures
            r.vertices@.len() == 0,
            r.normal@.len() == 0,
            r.uv@.len() == 0,
            r.indices@.len() == 0,
    {
        Mesh {
            vertices: Vec::with_capacity(v),
            normal: Vec::with_capacity(v),
            uv: Vec::with_capacity(v),
            indices: Vec::with_capacity(i),
        }
    }
}

/// The grid offset of the `i`-th vertex of a face, from the cell's minimum
/// corner. The vertex order is fixed per face and the triangle indices below
/// are chosen against it, so that every face winds consistently when seen
/// from outside the block.
pub open spec fn corner_offset(f: BlockFace, i: int) -> (int, int, int) {
    match f {
        BlockFace::XP => if i == 0 {
            (1, 0, 0)
        } else if i == 1 {
            (1, 1, 0)
        } else if i == 2 {
            (1, 0, 1)
        } else {
            (1, 1, 1)
        },
        BlockFace::XN => if i == 0 {
            (0, 0, 0)
        } else if i == 1 {
            (0, 1, 0)
        } else if i == 2 {
            (0, 0, 1)
        } else {
            (0, 1, 1)
        },
        BlockFace::YP => if i == 0 {
            (0, 1, 0)
        } else if i == 1 {
            (1, 1, 0)
        } else if i == 2 {
            (0, 1, 1)
        } else {
            (1, 1, 1)
        },
        BlockFace::YN => if i == 0 {
            (0, 0, 0)
        } else if i == 1 {
            (1, 0, 0)
        } else if i == 2 {
            (0, 0, 1)
        } else {
            (1, 0, 1)
        },
        BlockFace::ZP => if i == 0 {
            (0, 0, 1)
        } else if i == 1 {
            (1, 0, 1)
        } else if i == 2 {
            (0, 1, 1)
        } else {
            (1, 1, 1)
        },
        BlockFace::ZN => if i == 0 {
            (0, 0, 0)
        } else if i == 1 {
            (1, 0, 0)
        } else if i == 2 {
            (0, 1, 0)
        } else {
            (1, 1, 0)
        },
    }
}

/// World-relative position of the `i`-th vertex of a quad.
pub open spec fn quad_vertex_pos(q: Quad, i: int) -> (i64, i64, i64) {
    let d = corner_offset(q.face, i);
    (((q.pos.x + d.0) as i64), ((q.pos.y + d.1) as i64), ((q.pos.z + d.2) as i64))
}

/// The constant per-face normal: the outward unit vector of the face.
pub open spec fn quad_normal(f: BlockFace) -> (i64, i64, i64) {
    match f {
        BlockFace::XP => (1i64, 0i64, 0i64),
        BlockFace::XN => (-1i64, 0i64, 0i64),
        BlockFace::YP => (0i64, 1i64, 0i64),
        BlockFace::YN => (0i64, -1i64, 0i64),
        BlockFace::ZP => (0i64, 0i64, 1i64),
        BlockFace::ZN => (0i64, 0i64, -1i64),
    }
}

/// The four combinations of an atlas rectangle's two corners: the corner
/// itself, the two mixed corners, and the opposite corner.
pub open spec fn uv_corner(rect: UvRect, i: int) -> (i64, i64) {
    if i == 0 {
        (rect.0.0, rect.0.1)
    } else if i == 1 {
        (rect.0.0, rect.1.1)
    } else if i == 2 {
        (rect.1.0, rect.0.1)
    } else {
        (rect.1.0, rect.1.1)
    }
}

/// Which uv combination the `i`-th vertex of a face takes.
pub open spec fn uv_slot(f: BlockFace, i: int) -> int {
    match f {
        BlockFace::XP => i,
        BlockFace::XN => if i == 1 {
            2
        } else if i == 2 {
            1
        } else {
            i
        },
        BlockFace::YP => if i == 1 {
            2
        } else if i == 2 {
            1
        } else {
            i
        },
        BlockFace::YN => i,
        BlockFace::ZP => i,
        BlockFace::ZN => if i == 1 {
            2
        } else if i == 2 {
            1
        } else {
            i
        },
    }
}

/// Texture coordinates of the `i`-th vertex of a quad.
pub open spec fn quad_uv_at(q: Quad, i: int) -> (i64, i64) {
    uv_corner(q.block_type.spec_uv(q.face), uv_slot(q.face, i))
}

/// The two triangles of a face, as indices into the face's four vertices.
pub open spec fn quad_indices(f: BlockFace) -> Seq<u32> {
    match f {
        BlockFace::XP => seq![0u32, 1u32, 2u32, 1u32, 3u32, 2u32],
        BlockFace::XN => seq![0u32, 2u32, 1u32, 1u32, 2u32, 3u32],
        BlockFace::YP => seq![0u32, 2u32, 1u32, 1u32, 2u32, 3u32],
        BlockFace::YN => seq![0u32, 1u32, 2u32, 1u32, 3u32, 2u32],
        BlockFace::ZP => seq![0u32, 1u32, 2u32, 1u32, 3u32, 2u32],
        BlockFace::ZN => seq![0u32, 2u32, 1u32, 1u32, 2u32, 3u32],
    }
}

/// Each face's triangle indices point into its own four vertices.
pub proof fn lemma_quad_indices_small(f: BlockFace)
    ensures
        quad_indices(f).len() == 6,
        forall|i: int| 0 <= i < 6 ==> (#[trigger] quad_indices(f)[i]) < 4,
{
    assert forall|i: int| 0 <= i < 6 implies (#[trigger] quad_indices(f)[i]) < 4 by {
        match f {
            BlockFace::XP => assert(quad_indices(f) == seq![0u32, 1u32, 2u32, 1u32, 3u32, 2u32]),
            BlockFace::XN => assert(quad_indices(f) == seq![0u32, 2u32, 1u32, 1u32, 2u32, 3u32]),
            BlockFace::YP => assert(quad_indices(f) == seq![0u32, 2u32, 1u32, 1u32, 2u32, 3u32]),
            BlockFace::YN => assert(quad_indices(f) == seq![0u32, 1u32, 2u32, 1u32, 3u32, 2u32]),
            BlockFace::ZP => assert(quad_indices(f) == seq![0u32, 1u32, 2u32, 1u32, 3u32, 2u32]),
            BlockFace::ZN => assert(quad_indices(f) == seq![0u32, 2u32, 1u32, 1u32, 2u32, 3u32]),
        }
    }
}

impl Quad {
    /// The quad's renderable geometry: four vertices (position, normal,
    /// texture coordinates) and the six indices of its two triangles, in the
    /// fixed per-face order.
    pub fn generate_mesh(&self) -> (r: (
        [((i64, i64, i64), (i64, i64, i64), (i64, i64)); 4],
        [u32; 6],
    ))
        requires
            self.pos.x < i64::MAX,
            self.pos.y < i64::MAX,
            self.pos.z < i64::MAX,
        ensures
            forall|i: int|
                0 <= i < 4 ==> #[trigger] r.0@[i] == (
                    quad_vertex_pos(*self, i),
                    quad_normal(self.face),
                    quad_uv_at(*self, i),
                ),
            r.1@ == quad_indices(self.face),
    {
        let uv = self.block_type.get_uv(self.face);
        let a = uv.0;
        let b = uv.1;
        let uv0 = (a.0, a.1);
        let uv1 = (a.0, b.1);
        let uv2 = (b.0, a.1);
        let uv3 = (b.0, b.1);
        let px = self.pos.x;
        let py = self.pos.y;
        let pz = self.pos.z;
        match self.face {
            BlockFace::XP => {
                let n = (1i64, 0i64, 0i64);
                let v0 = (px + 1, py, pz);
                let v1 = (px + 1, py + 1, pz);
                let v2 = (px + 1, py, pz + 1);
                let v3 = (px + 1, py + 1, pz + 1);
                ([(v0, n, uv0), (v1, n, uv1), (v2, n, uv2), (v3, n, uv3)], [0, 1, 2, 1, 3, 2])
            },
            BlockFace::XN => {
                let n = (-1i64, 0i64, 0i64);
                let v0 = (px, py, pz);
                let v1 = (px, py + 1, pz);
                let v2 = (px, py, pz + 1);
                let v3 = (px, py + 1, pz + 1);
                ([(v0, n, uv0), (v1, n, uv2), (v2, n, uv1), (v3, n, uv3)], [0, 2, 1, 1, 2, 3])
            },
            BlockFace::YP => {
                let n = (0i64, 1i64, 0i64);
                let v0 = (px, py + 1, pz);
                let v1 = (px + 1, py + 1, pz);
                let v2 = (px, py + 1, pz + 1);
                let v3 = (px + 1, py + 1, pz + 1);
                ([(v0, n, uv0), (v1, n, uv2), (v2, n, uv1), (v3, n, uv3)], [0, 2, 1, 1, 2, 3])
            },
            BlockFace::YN => {
                let n = (0i64, -1i64, 0i64);
                let v0 = (px, py, pz);
                let v1 = (px + 1, py, pz);
                let v2 = (px, py, pz + 1);
                let v3 = (px + 1, py, pz + 1);
                ([(v0, n, uv0), (v1, n, uv1), (v2, n, uv2), (v3, n, uv3)], [0, 1, 2, 1, 3, 2])
            },
            BlockFace::ZP => {
                let n = (0i64, 0i64, 1i64);
                let v0 = (px, py, pz + 1);
                let v1 = (px + 1, py, pz + 1);
                let v2 = (px, py + 1, pz + 1);
                let v3 = (px + 1, py + 1, pz + 1);
                ([(v0, n, uv0), (v1, n, uv1), (v2, n, uv2), (v3, n, uv3)], [0, 1, 2, 1, 3, 2])
            },
            BlockFace::ZN => {
                let n = (0i64, 0i64, -1i64);
                let v0 = (px, py, pz);
                let v1 = (px + 1, py, pz);
                let v2 = (px, py + 1, pz);
                let v3 = (px + 1, py + 1, pz);
                ([(v0, n, uv0), (v1, n, uv2), (v2, n, uv1), (v3, n, uv3)], [0, 2, 1, 1, 2, 3])
            },
        }
    }
}

/// One direction's map from position to block type, backed by a hash map of
/// an outside crate. Verus sees it only through `quad_map_contents` and the
/// trusted wrappers below.
#[verifier::external_body]
pub struct QuadMap {
    inner: rustc_hash::FxHashMap<Pos, BlockType>,
}

/// What a `QuadMap` holds, as a mathematical map.
pub uninterp spec fn quad_map_contents(m: QuadMap) -> Map<Pos, BlockType>;

impl QuadMap {
    /// Relies on `rustc_hash::FxHashMap::default` (std's `HashMap` with the
    /// Fx hasher): a fresh map is empty.
    #[verifier::external_body]
    pub(crate) fn new() -> (r: QuadMap)
        ensures
            (quad_map_contents(r) == Map::<Pos, BlockType>::empty()),
    {
        QuadMap { inner: rustc_hash::FxHashMap::default() }
    }

    /// Relies on std's `HashMap::insert`: the entry is added (replacing any
    /// entry of the same key) and the replaced value comes back.
    #[verifier::external_body]
    pub(crate) fn insert(&mut self, pos: Pos, bt: BlockType) -> (prev: Option<BlockType>)
        ensures
            quad_map_contents(*final(self)) == quad_map_contents(*old(self)).insert(pos, bt),
            prev == (if quad_map_contents(*old(self)).dom().contains(pos) {
                Some(quad_map_contents(*old(self))[pos])
            } else {
                None::<BlockType>
            }),
    {
        self.inner.insert(pos, bt)
    }

    /// Relies on std's `HashMap::contains_key`.
    #[verifier::external_body]
    pub(crate) fn contains_key(&self, pos: &Pos) -> (r: bool)
        ensures
            r == quad_map_contents(*self).dom().contains(*pos),
    {
        self.inner.contains_key(pos)
    }

    /// Relies on std's `HashMap::iter`: every entry appears exactly once, in
    /// an unspecified order.
    #[verifier::external_body]
    pub(crate) fn entries(&self) -> (r: Vec<(Pos, BlockType)>)
        requires
            quad_map_contents(*self).dom().finite(),
        ensures
            r@.len() == quad_map_contents(*self).dom().len(),
            forall|i: int|
                0 <= i < r@.len() ==> quad_map_contents(*self).contains_pair(
                    (#[trigger] r@[i]).0,
                    r@[i].1,
                ),
            forall|i: int, j: int| 0 <= i < j < r@.len() ==> r@[i].0 != r@[j].0,
    {
        self.inner.iter().map(|(p, t)| (*p, *t)).collect()
    }
}

/// Six independent maps from position to block type, one per face direction.
/// Presence of a position in direction `d`'s map means that position's face
/// in direction `d` is currently visible.
pub struct QuadGroup {
    xp: QuadMap,
    xn: QuadMap,
    yp: QuadMap,
    yn: QuadMap,
    zp: QuadMap,
    zn: QuadMap,
}

impl Default for QuadGroup {
    /// A quad group with all six direction maps empty.
    fn default() -> (r: Self)
        ensures
            r.wf(),
            forall|f: BlockFace| #[trigger] r.face_map(f) =~= Map::<Pos, BlockType>::empty(),
    {
        QuadGroup {
            xp: QuadMap::new(),
            xn: QuadMap::new(),
            yp: QuadMap::new(),
            yn: QuadMap::new(),
            zp: QuadMap::new(),
            zn: QuadMap::new(),
        }
    }
}

impl QuadGroup {
    /// The map of visible faces pointing in direction `f`.
    pub closed spec fn face_map(self, f: BlockFace) -> Map<Pos, BlockType> {
        match f {
            BlockFace::XP => quad_map_contents(self.xp),
            BlockFace::XN => quad_map_contents(self.xn),
            BlockFace::YP => quad_map_contents(self.yp),
            BlockFace::YN => quad_map_contents(self.yn),
            BlockFace::ZP => quad_map_contents(self.zp),
            BlockFace::ZN => quad_map_contents(self.zn),
        }
    }

    /// Every direction map is finite.
    pub open spec fn wf(self) -> bool {
        forall|f: BlockFace| (#[trigger] self.face_map(f)).dom().finite()
    }

    /// How many quads the group holds over all six directions.
    pub open spec fn total(self) -> int {
        self.face_map(BlockFace::XP).dom().len() as int + self.face_map(
            BlockFace::XN,
        ).dom().len() as int + self.face_map(BlockFace::YP).dom().len() as int + self.face_map(
            BlockFace::YN,
        ).dom().len() as int + self.face_map(BlockFace::ZP).dom().len() as int + self.face_map(
            BlockFace::ZN,
        ).dom().len() as int
    }

    /// `q` is one of the quads this group holds.
    pub open spec fn has_quad(self, q: Quad) -> bool {
        self.face_map(q.face).contains_pair(q.pos, q.block_type)
    }

    /// Insert a quad into the group, replacing (and returning) whatever block
    /// type was recorded for the same position and direction before.
    pub fn insert_quad(&mut self, quad: Quad) -> (prev: Option<BlockType>)
        requires
            old(self).wf(),
        ensures
            final(self).wf(),
            final(self).face_map(quad.face) == old(self).face_map(quad.face).insert(
                quad.pos,
                quad.block_type,
            ),
            forall|f: BlockFace|
                f != quad.face ==> #[trigger] final(self).face_map(f) == old(self).face_map(f),
            prev == (if old(self).face_map(quad.face).dom().contains(quad.pos) {
                Some(old(self).face_map(quad.face)[quad.pos])
            } else {
                None::<BlockType>
            }),
    {
        let prev = match quad.face {
            BlockFace::XP => self.xp.insert(quad.pos, quad.block_type),
            BlockFace::XN => self.xn.insert(quad.pos, quad.block_type),
            BlockFace::YP => self.yp.insert(quad.pos, quad.block_type),
            BlockFace::YN => self.yn.insert(quad.pos, quad.block_type),
            BlockFace::ZP => self.zp.insert(quad.pos, quad.block_type),
            BlockFace::ZN => self.zn.insert(quad.pos, quad.block_type),
        };
        proof {
            assert forall|f: BlockFace| (#[trigger] self.face_map(f)).dom().finite() by {
                if f == quad.face {
                    assert(self.face_map(f).dom() =~= old(self).face_map(f).dom().insert(
                        quad.pos,
                    ));
                    assert(old(self).face_map(f).dom().finite());
                } else {
                    assert(self.face_map(f) == old(self).face_map(f));
                }
            }
        }
        prev
    }

    /// Whether the group holds a quad at this quad's position and direction
    /// (the block type carried by `quad` plays no part).
    pub fn contains(&mut self, quad: Quad) -> (r: bool)
        ensures
            *final(self) == *old(self),
            r == old(self).face_map(quad.face).dom().contains(quad.pos),
    {
        match quad.face {
            BlockFace::XP => self.xp.contains_key(&quad.pos),
            BlockFace::XN => self.xn.contains_key(&quad.pos),
            BlockFace::YP => self.yp.contains_key(&quad.pos),
            BlockFace::YN => self.yn.contains_key(&quad.pos),
            BlockFace::ZP => self.zp.contains_key(&quad.pos),
            BlockFace::ZN => self.zn.contains_key(&quad.pos),
        }
    }

    /// All quads of the group, one per held (direction, position) pair, in an
    /// unspecified order.
    pub fn iter(&self) -> (r: Vec<Quad>)
        requires
            self.wf(),
        ensures
            r@.len() == self.total(),
            forall|i: int| 0 <= i < r@.len() ==> self.has_quad(#[trigger] r@[i]),
            forall|i: int, j: int|
                0 <= i < j < r@.len() ==> (r@[i].pos != r@[j].pos || r@[i].face != r@[j].face),
            forall|i: int, j: int|
                0 <= i < j < r@.len() ==> face_index(r@[i].face) <= face_index(r@[j].face),
    {
        let mut out: Vec<Quad> = Vec::new();
        proof {
            assert(self.face_map(BlockFace::XP).dom().finite());
            assert(self.face_map(BlockFace::XN).dom().finite());
            assert(self.face_map(BlockFace::YP).dom().finite());
            assert(self.face_map(BlockFace::YN).dom().finite());
            assert(self.face_map(BlockFace::ZP).dom().finite());
            assert(self.face_map(BlockFace::ZN).dom().finite());
        }
        append_face_quads(&mut out, &self.xp, BlockFace::XP);
        let ghost n1 = out@.len() as int;
        append_face_quads(&mut out, &self.xn, BlockFace::XN);
        let ghost n2 = out@.len() as int;
        append_face_quads(&mut out, &self.yp, BlockFace::YP);
        let ghost n3 = out@.len() as int;
        append_face_quads(&mut out, &self.yn, BlockFace::YN);
        let ghost n4 = out@.len() as int;
        append_face_quads(&mut out, &self.zp, BlockFace::ZP);
        let ghost n5 = out@.len() as int;
        append_face_quads(&mut out, &self.zn, BlockFace::ZN);
        proof {
            assert forall|i: int| 0 <= i < out@.len() implies self.has_quad(
                #[trigger] out@[i],
            ) && face_index(out@[i].face) == segment_of(i, n1, n2, n3, n4, n5) by {
                let q = out@[i];
                if i < n1 {
                    assert(q.face == BlockFace::XP);
                } else if i < n2 {
                    assert(q.face == BlockFace::XN);
                } else if i < n3 {
                    assert(q.face == BlockFace::YP);
                } else if i < n4 {
                    assert(q.face == BlockFace::YN);
                } else if i < n5 {
                    assert(q.face == BlockFace::ZP);
                } else {
                    assert(q.face == BlockFace::ZN);
                }
            }
            assert forall|i: int, j: int|
                0 <= i < j < out@.len() implies face_index(out@[i].face) <= face_index(
                out@[j].face,
            ) by {
                assert(face_index(out@[i].face) == segment_of(i, n1, n2, n3, n4, n5));
                assert(face_index(out@[j].face) == segment_of(j, n1, n2, n3, n4, n5));
            }
        }
        out
    }
}

/// `m` is the assembly of the quads `qs`, each of which the group holds
/// exactly once: `qs` covers a duplicate-free set of (position, direction)
/// pairs, has one quad per held pair, and block `j` of the mesh carries the
/// geometry of `qs[j]`.
pub open spec fn mesh_assembles_quads(g: QuadGroup, m: Mesh, qs: Seq<Quad>) -> bool {
    &&& qs.len() == g.total()
    &&& (forall|j: int| 0 <= j < qs.len() ==> g.has_quad(#[trigger] qs[j]))
    &&& (forall|i: int, j: int|
        0 <= i < j < qs.len() ==> (qs[i].pos != qs[j].pos || qs[i].face != qs[j].face))
    &&& (forall|j: int| 0 <= j < qs.len() ==> #[trigger] mesh_quad_block(m, j, qs[j]))
}

/// `m` is an assembly of exactly the group's quads: four vertices (with
/// normals and texture coordinates in step) and six indices per quad, every
/// index inside the assembled vertex range, and the four-vertex blocks are
/// the geometry of a duplicate-free enumeration of the whole group — each
/// held (position, direction) pair appears as exactly one block.
pub open spec fn mesh_matches_group(g: QuadGroup, m: Mesh) -> bool {
    &&& m.vertices@.len() == 4 * g.total()
    &&& m.normal@.len() == 4 * g.total()
    &&& m.uv@.len() == 4 * g.total()
    &&& m.indices@.len() == 6 * g.total()
    &&& (forall|i: int| 0 <= i < m.indices@.len() ==> (#[trigger] m.indices@[i]) < 4 * g.total())
    &&& (exists|qs: Seq<Quad>| #[trigger] mesh_assembles_quads(g, m, qs))
}

/// The `j`-th four-vertex block of `m` is the geometry of quad `q`: the
/// vertices, normals and texture coordinates at slots `4j..4j+4` and the
/// indices at slots `6j..6j+6`, the latter shifted by the running vertex
/// offset `4j`.
pub open spec fn mesh_quad_block(m: Mesh, j: int, q: Quad) -> bool {
    &&& forall|i: int| 0 <= i < 4 ==> #[trigger] m.vertices@[4 * j + i] == quad_vertex_pos(q, i)
    &&& forall|i: int| 0 <= i < 4 ==> #[trigger] m.normal@[4 * j + i] == quad_normal(q.face)
    &&& forall|i: int| 0 <= i < 4 ==> #[trigger] m.uv@[4 * j + i] == quad_uv_at(q, i)
    &&& forall|i: int|
        0 <= i < 6 ==> (#[trigger] m.indices@[6 * j + i]) as int == quad_indices(q.face)[i] as int
            + 4 * j
}

impl QuadGroup {
    /// Every position the group holds leaves room for the `+1` corner
    /// arithmetic of the mesh assembler.
    pub open spec fn positions_meshable(self) -> bool {
        forall|f: BlockFace, p: Pos|
            #[trigger] self.face_map(f).dom().contains(p) ==> p.x < i64::MAX && p.y < i64::MAX
                && p.z < i64::MAX
    }

    /// Assemble the group's quads into flat buffers: exactly four vertices
    /// (with matching normals and texture coordinates) and six indices per
    /// quad, every index pointing into the assembled vertex range, and each
    /// four-vertex block carrying the geometry of one quad of the group.
    pub fn generate_mesh(&self) -> (m: Mesh)
        requires
            self.wf(),
            self.positions_meshable(),
            self.total() <= 0x3FFF_FFFF,
        ensures
            mesh_matches_group(*self, m),
    {
        let quads = self.iter();
        let mut mesh = Mesh::new_with_capacity(8192, 8192);
        let mut indices_base: u32 = 0;
        let n = quads.len();
        let mut j: usize = 0;
        while j < n
            invariant
                n == quads@.len(),
                n == self.total(),
                n <= 0x3FFF_FFFF,
                self.wf(),
                self.positions_meshable(),
                forall|i: int| 0 <= i < n ==> self.has_quad(#[trigger] quads@[i]),
                0 <= j <= n,
                mesh.vertices@.len() == 4 * j,
                mesh.normal@.len() == 4 * j,
                mesh.uv@.len() == 4 * j,
                mesh.indices@.len() == 6 * j,
                indices_base == 4 * j,
                forall|i: int| 0 <= i < mesh.indices@.len() ==> (#[trigger] mesh.indices@[i]) < 4 * j,
                forall|jj: int| 0 <= jj < j ==> mesh_quad_block(mesh, jj, quads@[jj]),
            decreases n - j,
        {
            let q = quads[j];
            proof {
                assert(self.has_quad(q));
                assert(self.face_map(q.face).dom().contains(q.pos));
                lemma_quad_indices_small(q.face);
            }
            let (vtx, idx) = q.generate_mesh();
            mesh.indices.push(idx[0] + indices_base);
            mesh.indices.push(idx[1] + indices_base);
            mesh.indices.push(idx[2] + indices_base);
            mesh.indices.push(idx[3] + indices_base);
            mesh.indices.push(idx[4] + indices_base);
            mesh.indices.push(idx[5] + indices_base);
            let v0 = vtx[0];
            let v1 = vtx[1];
            let v2 = vtx[2];
            let v3 = vtx[3];
            mesh.vertices.push(v0.0);
            mesh.normal.push(v0.1);
            mesh.uv.push(v0.2);
            mesh.vertices.push(v1.0);
            mesh.normal.push(v1.1);
            mesh.uv.push(v1.2);
            mesh.vertices.push(v2.0);
            mesh.normal.push(v2.1);
            mesh.uv.push(v2.2);
            mesh.vertices.push(v3.0);
            mesh.normal.push(v3.1);
            mesh.uv.push(v3.2);
            indices_base = indices_base + 4;
            j = j + 1;
            proof {
                assert(vtx@[0] == (quad_vertex_pos(q, 0), quad_normal(q.face), quad_uv_at(q, 0)));
                assert(vtx@[1] == (quad_vertex_pos(q, 1), quad_normal(q.face), quad_uv_at(q, 1)));
                assert(vtx@[2] == (quad_vertex_pos(q, 2), quad_normal(q.face), quad_uv_at(q, 2)));
                assert(vtx@[3] == (quad_vertex_pos(q, 3), quad_normal(q.face), quad_uv_at(q, 3)));
                assert(mesh_quad_block(mesh, j - 1, q));
            }
        }
        proof {
            assert(mesh_assembles_quads(*self, mesh, quads@));
        }
        mesh
    }
}

/// Which of the six appended runs a slot of the assembled quad list falls
/// into, given the five run boundaries: monotone in the slot.
spec fn segment_of(i: int, n1: int, n2: int, n3: int, n4: int, n5: int) -> int {
    if i < n1 {
        0
    } else if i < n2 {
        1
    } else if i < n3 {
        2
    } else if i < n4 {
        3
    } else if i < n5 {
        4
    } else {
        5
    }
}

/// Append one direction map's quads to `out`, tagged with that direction.
fn append_face_quads(out: &mut Vec<Quad>, m: &QuadMap, face: BlockFace)
    requires
        quad_map_contents(*m).dom().finite(),
    ensures
        final(out)@.len() == old(out)@.len() + quad_map_contents(*m).dom().len(),
        forall|i: int| 0 <= i < old(out)@.len() ==> final(out)@[i] == old(out)@[i],
        forall|i: int|
            old(out)@.len() <= i < final(out)@.len() ==> (#[trigger] final(out)@[i]).face == face
                && quad_map_contents(*m).contains_pair(final(out)@[i].pos, final(out)@[i].block_type),
        forall|i: int, j: int|
            old(out)@.len() <= i < j < final(out)@.len()
                ==> final(out)@[i].pos != final(out)@[j].pos,
{
    let entries = m.entries();
    let n = entries.len();
    let base = out.len();
    let mut k: usize = 0;
    while k < n
        invariant
            n == entries@.len(),
            base == old(out)@.len(),
            0 <= k <= n,
            out@.len() == base + k,
            forall|i: int| 0 <= i < base ==> out@[i] == old(out)@[i],
            forall|i: int|
                base <= i < out@.len() ==> #[trigger] out@[i] == (Quad {
                    pos: entries@[i - base].0,
                    block_type: entries@[i - base].1,
                    face,
                }),
            quad_map_contents(*m).dom().finite(),
            n == quad_map_contents(*m).dom().len(),
            forall|i: int|
                0 <= i < n ==> quad_map_contents(*m).contains_pair(
                    (#[trigger] entries@[i]).0,
                    entries@[i].1,
                ),
            forall|i: int, j: int| 0 <= i < j < n ==> entries@[i].0 != entries@[j].0,
        decreases n - k,
    {
        let e = entries[k];
        out.push(Quad { pos: e.0, block_type: e.1, face });
        k = k + 1;
    }
}

} // verus!
