//! Chunk store, block identity, culling and meshing behaviour.

use phyvox::{
    BlockClient,
    BlockFace,
    BlockId,
    BlockType,
    BlockVisibility,
    Chunk,
    ChunkGenerator,
    ChunkGeneratorBasic,
    IdMapping,
    Pos,
    Seed,
    SimpleGenerator,
    Stone,
};

#[test]
fn iter_a() {
    let mut c = Chunk::default();
    let mut id: u64 = 0;
    for z in 0..16i64 {
        for y in 0..16i64 {
            for x in 0..16i64 {
                c.set_pos_in_chunk(Pos::from_xyz(x, y, z), id.into());
                id += 1;
            }
        }
    }
    let mut it = c.iter();
    while let Some(i) = it.next() {
        println!("{:?}", i)
    }
}

#[test]
fn main_t() {
    let mut c = Chunk::new_filled_with_id(1_u64.into());
    let id_mapping = IdMapping::default();
    c.generate_quad_group(&id_mapping);
    c.generate_mesh(&id_mapping);
    c.take_mesh().unwrap();
}

#[test]
fn block_identity_lookup() {
    let m = IdMapping::default();
    assert_eq!(m.get(0), Some(BlockType::Empty));
    assert_eq!(m.get(1), Some(BlockType::Stone(Stone {})));
    assert_eq!(m.get(2), None);
    assert_eq!(BlockId(0).get_block_type(&m), Some(BlockType::Empty));
    assert_eq!(BlockId(1).get_block_type(&m), Some(BlockType::Stone(Stone {})));
    assert_eq!(BlockId(7).get_block_type(&m), None);
    let id: BlockId = 3_usize.into();
    assert_eq!(u64::from(id), 3);
    assert_eq!(usize::from(BlockId(9)), 9);
    assert_eq!(BlockId::default(), BlockId(0));
}

#[test]
fn block_visibility_and_uv() {
    assert_eq!(BlockType::default(), BlockType::Empty);
    assert_eq!(BlockType::Empty.visibility(), BlockVisibility::Empty);
    let stone = BlockType::Stone(Stone {});
    assert_eq!(stone.visibility(), BlockVisibility::Opaque);
    assert_eq!(stone.get_uv(BlockFace::XP), ((0, 0), (1, 1)));
    assert_eq!(BlockType::Empty.get_uv(BlockFace::YN), ((0, 0), (0, 0)));
}

#[test]
fn chunk_cell_access() {
    let mut c = Chunk::default();
    assert_eq!(c.get_pos_in_chunk(Pos::from_xyz(0, 0, 0)), Some(BlockId(0)));
    assert_eq!(c.get_pos_in_chunk(Pos::from_xyz(16, 0, 0)), None);
    assert_eq!(c.get_pos_in_chunk(Pos::from_xyz(-1, 3, 3)), None);
    c.set_pos_in_chunk(Pos::from_xyz(5, 6, 7), BlockId(42));
    assert_eq!(c.get_pos_in_chunk(Pos::from_xyz(5, 6, 7)), Some(BlockId(42)));
    assert_eq!(c.get_pos_in_chunk(Pos::from_xyz(7, 6, 5)), Some(BlockId(0)));
}

fn quad_count(c: &Chunk) -> usize {
    c.get_quad_group().expect("quad group must be cached").iter().len()
}

#[test]
fn full_opaque_chunk_emits_boundary_quads() {
    // Every interior face occludes; only the 6 * 16 * 16 boundary faces stay.
    let mut c = Chunk::new_filled_with_id(1_u64.into());
    let id_mapping = IdMapping::default();
    c.generate_quad_group(&id_mapping);
    assert_eq!(quad_count(&c), 6 * 16 * 16);
}

#[test]
fn empty_chunk_emits_no_quads() {
    let mut c = Chunk::default();
    let id_mapping = IdMapping::default();
    c.generate_quad_group(&id_mapping);
    assert_eq!(quad_count(&c), 0);
    c.generate_mesh(&id_mapping);
    let mesh = c.take_mesh().unwrap();
    assert_eq!(mesh.vertices.len(), 0);
    assert_eq!(mesh.indices.len(), 0);
}

#[test]
fn single_block_emits_six_quads() {
    let mut c = Chunk::default();
    c.set_pos_in_chunk(Pos::from_xyz(0, 0, 0), BlockId(1));
    let id_mapping = IdMapping::default();
    c.generate_quad_group(&id_mapping);
    assert_eq!(quad_count(&c), 6);
}

#[test]
fn adjacent_blocks_cull_shared_face() {
    // Two opaque cells along +X: the shared internal face is culled from
    // both sides, leaving 6 + 6 - 2 quads.
    let mut c = Chunk::default();
    c.set_pos_in_chunk(Pos::from_xyz(0, 0, 0), BlockId(1));
    c.set_pos_in_chunk(Pos::from_xyz(1, 0, 0), BlockId(1));
    let id_mapping = IdMapping::default();
    c.generate_quad_group(&id_mapping);
    assert_eq!(quad_count(&c), 10);
}

#[test]
fn unmapped_ids_emit_nothing() {
    // An id beyond the mapping table resolves to nothing and is treated as
    // invisible, not as a fault.
    let mut c = Chunk::default();
    c.set_pos_in_chunk(Pos::from_xyz(3, 3, 3), BlockId(250));
    let id_mapping = IdMapping::default();
    c.generate_quad_group(&id_mapping);
    assert_eq!(quad_count(&c), 0);
}

#[test]
fn mesh_counts_follow_quads() {
    // 4 vertices and 6 indices per quad, and every index stays inside the
    // assembled vertex range.
    let mut c = Chunk::default();
    c.set_pos_in_chunk(Pos::from_xyz(0, 0, 0), BlockId(1));
    c.set_pos_in_chunk(Pos::from_xyz(4, 5, 6), BlockId(1));
    let id_mapping = IdMapping::default();
    c.generate_quad_group(&id_mapping);
    let q = quad_count(&c);
    assert_eq!(q, 12);
    c.generate_mesh(&id_mapping);
    let mesh = c.take_mesh().unwrap();
    assert_eq!(mesh.vertices.len(), 4 * q);
    assert_eq!(mesh.normal.len(), 4 * q);
    assert_eq!(mesh.uv.len(), 4 * q);
    assert_eq!(mesh.indices.len(), 6 * q);
    for &ix in &mesh.indices {
        assert!((ix as usize) < mesh.vertices.len());
    }
}

#[test]
fn single_quad_mesh_geometry() {
    // One +X face at the origin cell: four corners of the x == 1 square,
    // the +X normal, the unit atlas rectangle, and the fixed winding.
    let q = phyvox::Quad::new(
        Pos::from_xyz(0, 0, 0),
        BlockType::Stone(Stone {}),
        BlockFace::XP,
    );
    let (vertices, indices) = q.generate_mesh();
    assert_eq!(vertices[0], ((1, 0, 0), (1, 0, 0), (0, 0)));
    assert_eq!(vertices[1], ((1, 1, 0), (1, 0, 0), (0, 1)));
    assert_eq!(vertices[2], ((1, 0, 1), (1, 0, 0), (1, 0)));
    assert_eq!(vertices[3], ((1, 1, 1), (1, 0, 0), (1, 1)));
    assert_eq!(indices, [0, 1, 2, 1, 3, 2]);
}

#[test]
fn negative_z_quad_mesh_geometry() {
    // The -Z face at the origin cell: four corners of the z == 0 square,
    // the outward -Z normal, the swapped uv assignment and its winding.
    let q = phyvox::Quad::new(
        Pos::from_xyz(0, 0, 0),
        BlockType::Stone(Stone {}),
        BlockFace::ZN,
    );
    let (vertices, indices) = q.generate_mesh();
    assert_eq!(vertices[0], ((0, 0, 0), (0, 0, -1), (0, 0)));
    assert_eq!(vertices[1], ((1, 0, 0), (0, 0, -1), (1, 0)));
    assert_eq!(vertices[2], ((0, 1, 0), (0, 0, -1), (0, 1)));
    assert_eq!(vertices[3], ((1, 1, 0), (0, 0, -1), (1, 1)));
    assert_eq!(indices, [0, 2, 1, 1, 2, 3]);
}

#[test]
fn mesh_requested_early_heals_itself() {
    // Asking for the mesh before any culling pass generates the quad group
    // on demand instead of faulting.
    let mut c = Chunk::default();
    c.set_pos_in_chunk(Pos::from_xyz(2, 2, 2), BlockId(1));
    let id_mapping = IdMapping::default();
    assert!(c.get_quad_group().is_none());
    c.generate_mesh(&id_mapping);
    assert!(c.get_quad_group().is_some());
    let mesh = c.take_mesh().unwrap();
    assert_eq!(mesh.vertices.len(), 4 * 6);
    assert!(c.take_mesh().is_none());
    let g = c.get_quad_group_and_generate(&id_mapping);
    assert_eq!(g.iter().len(), 6);
}

#[test]
fn generation_is_deterministic() {
    let base = Pos::from_xyz(-32, -16, 48);
    let seed = Seed { seed: 5 };
    let a = SimpleGenerator.generate_base_blocks(base, seed);
    let b = SimpleGenerator.generate_base_blocks(base, seed);
    assert_eq!(a, b);
    let c1 = SimpleGenerator.generate_chunk(base, seed);
    let c2 = SimpleGenerator.generate_chunk(base, seed);
    assert_eq!(c1.blocks, c2.blocks);
    assert_eq!(c1.base_pos_of_chunk, base);
}

#[test]
fn generator_height_field() {
    // Seed 3 fills every cell whose absolute height is at most 3.
    let c = SimpleGenerator.generate_chunk(Pos::from_xyz(0, 0, 0), Seed { seed: 3 });
    assert_eq!(c.get_pos_in_chunk(Pos::from_xyz(0, 0, 0)), Some(BlockId(1)));
    assert_eq!(c.get_pos_in_chunk(Pos::from_xyz(5, 3, 9)), Some(BlockId(1)));
    assert_eq!(c.get_pos_in_chunk(Pos::from_xyz(5, 4, 9)), Some(BlockId(0)));
    // A chunk based above the threshold stays empty.
    let high = SimpleGenerator.generate_chunk(Pos::from_xyz(0, 16, 0), Seed { seed: 3 });
    for y in 0..16i64 {
        assert_eq!(high.get_pos_in_chunk(Pos::from_xyz(0, y, 0)), Some(BlockId(0)));
    }
    // A chunk based below it is solid.
    let low = SimpleGenerator.generate_chunk(Pos::from_xyz(0, -32, 0), Seed { seed: 3 });
    assert_eq!(low.get_pos_in_chunk(Pos::from_xyz(15, 15, 15)), Some(BlockId(1)));
}

#[test]
fn chunk_iteration_order_and_count() {
    let c = Chunk::default();
    let mut it = c.iter();
    assert_eq!(it.next(), Some((Pos::from_xyz(0, 0, 0), BlockId(0))));
    assert_eq!(it.next(), Some((Pos::from_xyz(1, 0, 0), BlockId(0))));
    let mut count: usize = 2;
    while it.next().is_some() {
        count += 1;
    }
    assert_eq!(count, 16 * 16 * 16);
}
