//! Quad group behaviour: per-direction insertion, replacement, membership
//! and enumeration.

use phyvox::{BlockFace, BlockType, Pos, Quad, QuadGroup, Stone};

#[test]
fn insert_reports_replaced_value() {
    let mut g = QuadGroup::default();
    let p = Pos::from_xyz(1, 2, 3);
    let stone = BlockType::Stone(Stone {});
    assert_eq!(g.insert_quad(Quad::new(p, stone, BlockFace::XP)), None);
    // Same position, same direction: the stale entry is replaced.
    assert_eq!(g.insert_quad(Quad::new(p, BlockType::Empty, BlockFace::XP)), Some(stone));
    // Same position, another direction: an independent entry.
    assert_eq!(g.insert_quad(Quad::new(p, stone, BlockFace::YN)), None);
    assert_eq!(g.iter().len(), 2);
}

#[test]
fn contains_is_per_direction() {
    let mut g = QuadGroup::default();
    let p = Pos::from_xyz(0, 0, 0);
    let stone = BlockType::Stone(Stone {});
    g.insert_quad(Quad::new(p, stone, BlockFace::ZP));
    assert!(g.contains(Quad::new(p, stone, BlockFace::ZP)));
    assert!(!g.contains(Quad::new(p, stone, BlockFace::ZN)));
    assert!(!g.contains(Quad::new(Pos::from_xyz(1, 0, 0), stone, BlockFace::ZP)));
}

#[test]
fn iteration_yields_each_quad_once() {
    let mut g = QuadGroup::default();
    let stone = BlockType::Stone(Stone {});
    for f in BlockFace::iter_all() {
        g.insert_quad(Quad::new(Pos::from_xyz(4, 4, 4), stone, f));
    }
    g.insert_quad(Quad::new(Pos::from_xyz(5, 4, 4), stone, BlockFace::XP));
    let quads = g.iter();
    assert_eq!(quads.len(), 7);
    for a in 0..quads.len() {
        for b in 0..quads.len() {
            if a != b {
                assert!(quads[a].pos != quads[b].pos || quads[a].face != quads[b].face);
            }
        }
    }
}

#[test]
fn iteration_groups_by_face_order() {
    // Quads come out grouped by direction, in the fixed XP, XN, YP, YN, ZP,
    // ZN order.
    fn face_rank(f: BlockFace) -> usize {
        match f {
            BlockFace::XP => 0,
            BlockFace::XN => 1,
            BlockFace::YP => 2,
            BlockFace::YN => 3,
            BlockFace::ZP => 4,
            BlockFace::ZN => 5,
        }
    }
    let mut g = QuadGroup::default();
    let stone = BlockType::Stone(Stone {});
    for f in BlockFace::iter_all() {
        g.insert_quad(Quad::new(Pos::from_xyz(0, 0, 0), stone, f));
        g.insert_quad(Quad::new(Pos::from_xyz(7, 8, 9), stone, f));
    }
    let quads = g.iter();
    assert_eq!(quads.len(), 12);
    for w in quads.windows(2) {
        assert!(face_rank(w[0].face) <= face_rank(w[1].face));
    }
}

#[test]
fn group_mesh_counts() {
    let mut g = QuadGroup::default();
    let stone = BlockType::Stone(Stone {});
    g.insert_quad(Quad::new(Pos::from_xyz(0, 0, 0), stone, BlockFace::XP));
    g.insert_quad(Quad::new(Pos::from_xyz(0, 0, 0), stone, BlockFace::YP));
    g.insert_quad(Quad::new(Pos::from_xyz(2, 0, 1), stone, BlockFace::ZN));
    let mesh = g.generate_mesh();
    assert_eq!(mesh.vertices.len(), 12);
    assert_eq!(mesh.normal.len(), 12);
    assert_eq!(mesh.uv.len(), 12);
    assert_eq!(mesh.indices.len(), 18);
    for &i in &mesh.indices {
        assert!((i as usize) < mesh.vertices.len());
    }
}
