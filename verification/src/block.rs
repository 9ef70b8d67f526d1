//! Block identity layer: numeric block ids resolved through a swappable
//! mapping table into concrete block types that expose a visibility class and
//! per-face texture-atlas coordinates.
//!
//! Atlas coordinates are kept as integer texel corners (two opposite corners
//! of a rectangle); the renderer scales them into its own coordinate space.

use crate::pos::{BlockFace, BlockVisibility};
use vstd::prelude::*;

verus! {

/// Two opposite corners of a texture-atlas rectangle, in texel units.
pub type UvRect = ((i64, i64), (i64, i64));

/// What a concrete block type must expose: a visibility class that drives
/// face culling, and an atlas rectangle for each face.
pub trait BlockClient: Sized + Copy {
    /// The visibility class, as a specification value.
    spec fn spec_visibility(self) -> BlockVisibility;

    /// The atlas rectangle of `face`, as a specification value.
    spec fn spec_uv(self, face: BlockFace) -> UvRect;

    /// The visibility class of this block type.
    fn visibility(self) -> (r: BlockVisibility)
        ensures
            r == self.spec_visibility(),
    ;

    /// The texture-atlas rectangle of this block type for `face`.
    fn get_uv(self, face: BlockFace) -> (r: UvRect)
        ensures
            r == self.spec_uv(face),
    ;
}

/// Plain stone: opaque on every side, textured with the whole unit tile.
#[derive(Debug, Clone, Copy, PartialEq, Eq, Hash, Structural)]
pub struct Stone {}

impl BlockClient for Stone {
    open spec fn spec_visibility(self) -> BlockVisibility {
        BlockVisibility::Opaque
    }

    open spec fn spec_uv(self, face: BlockFace) -> UvRect {
        ((0i64, 0i64), (1i64, 1i64))
    }

    fn visibility(self) -> (r: BlockVisibility)
        ensures
            r == self.spec_visibility(),
    {
        BlockVisibility::Opaque
    }

    fn get_uv(self, face: BlockFace) -> (r: UvRect)
        ensures
            r == self.spec_uv(face),
    {
        ((0, 0), (1, 1))
    }
}

/// The closed set of block types the engine knows; `Empty` is the default
/// "air" block that emits no geometry.
#[derive(Debug, Clone, Copy, PartialEq, Eq, Hash, Structural)]
pub enum BlockType {
    Empty,
    Stone(Stone),
}

impl Default for BlockType {
    fn default() -> (r: Self)
        ensures
            r == BlockType::Empty,
    {
        BlockType::Empty
    }
}

impl BlockClient for BlockType {
    open spec fn spec_visibility(self) -> BlockVisibility {
        match self {
            BlockType::Empty => BlockVisibility::Empty,
            BlockType::Stone(s) => s.spec_visibility(),
        }
    }

    open spec fn spec_uv(self, face: BlockFace) -> UvRect {
        match self {
            BlockType::Empty => ((0i64, 0i64), (0i64, 0i64)),
            BlockType::Stone(s) => s.spec_uv(face),
        }
    }

    fn visibility(self) -> (r: BlockVisibility)
        ensures
            r == self.spec_visibility(),
    {
        match self {
            BlockType::Empty => BlockVisibility::Empty,
            BlockType::Stone(s) => s.visibility(),
        }
    }

    fn get_uv(self, face: BlockFace) -> (r: UvRect)
        ensures
            r == self.spec_uv(face),
    {
        match self {
            BlockType::Empty => ((0, 0), (0, 0)),
            BlockType::Stone(s) => s.get_uv(face),
        }
    }
}

/// Ordered table of block types, indexed by a block id cast to an array
/// index. Owned by the caller; the engine only reads it.
#[derive(Debug, Clone, PartialEq, Eq)]
pub struct IdMapping {
    pub mapping: Vec<BlockType>,
}

impl IdMapping {
    /// What `get` returns: the entry at `id`, or nothing when `id` lies
    /// outside the table.
    pub open spec fn spec_get(self, id: int) -> Option<BlockType> {
        if 0 <= id < self.mapping@.len() {
            Some(self.mapping@[id])
        } else {
            None
        }
    }

    /// Bounds-checked lookup: an out-of-range id yields nothing, never a
    /// fault.
    pub fn get(&self, id: usize) -> (r: Option<BlockType>)
        ensures
            r == self.spec_get(id as int),
    {
        match self.mapping.get(id) {
            Some(v) => Some(*v),
            None => None,
        }
    }
}

impl Default for IdMapping {
    /// The default table: id 0 is air, id 1 is stone.
    fn default() -> (r: Self)
        ensures
            r.mapping@ == seq![BlockType::Empty, BlockType::Stone(Stone {})],
    {
        let mut mapping: Vec<BlockType> = Vec::new();
        mapping.push(BlockType::Empty);
        mapping.push(BlockType::Stone(Stone {}));
        proof {
            assert(mapping@ =~= seq![BlockType::Empty, BlockType::Stone(Stone {})]);
        }
        IdMapping { mapping }
    }
}

/// An opaque numeric block id; a chunk stores only these. Id 0 is the
/// default "air" id.
#[derive(Debug, Clone, Copy, PartialEq, Eq, Hash, Structural)]
pub struct BlockId(pub u64);

impl Default for BlockId {
    fn default() -> (r: Self)
        ensures
            r == BlockId(0u64),
    {
        BlockId(0)
    }
}

impl BlockId {
    /// Resolve this id through the mapping table; an unmapped id yields
    /// nothing, never a fault.
    pub fn get_block_type(self, id_mapping: &IdMapping) -> (r: Option<BlockType>)
        ensures
            r == id_mapping.spec_get(self.0 as usize as int),
    {
        id_mapping.get(#[verifier::truncate] (self.0 as usize))
    }
}

impl From<u64> for BlockId {
    fn from(value: u64) -> (r: Self) {
        BlockId(value)
    }
}

impl vstd::std_specs::convert::FromSpecImpl<u64> for BlockId {
    open spec fn obeys_from_spec() -> bool {
        true
    }

    open spec fn from_spec(value: u64) -> Self {
        BlockId(value)
    }
}

impl From<usize> for BlockId {
    fn from(value: usize) -> (r: Self) {
        BlockId(value as u64)
    }
}

impl vstd::std_specs::convert::FromSpecImpl<usize> for BlockId {
    open spec fn obeys_from_spec() -> bool {
        true
    }

    open spec fn from_spec(value: usize) -> Self {
        BlockId(value as u64)
    }
}

impl From<BlockId> for u64 {
    fn from(value: BlockId) -> (r: Self) {
        value.0
    }
}

impl vstd::std_specs::convert::FromSpecImpl<BlockId> for u64 {
    open spec fn obeys_from_spec() -> bool {
        true
    }

    open spec fn from_spec(value: BlockId) -> Self {
        value.0
    }
}

impl From<BlockId> for usize {
    fn from(value: BlockId) -> (r: Self) {
        #[verifier::truncate] (value.0 as usize)
    }
}

impl vstd::std_specs::convert::FromSpecImpl<BlockId> for usize {
    open spec fn obeys_from_spec() -> bool {
        true
    }

    open spec fn from_spec(value: BlockId) -> Self {
        value.0 as usize
    }
}

} // verus!
