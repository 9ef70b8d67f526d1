//! Spatial primitive behaviour: position arithmetic, face displacement, and
//! cube / range iteration.

use phyvox::{BlockFace, Pos};

#[test]
fn basic_type_t() {
    let p = Pos::from_xyz(3, 4, 5);
    let f = BlockFace::ZN;
    println!("{:?}", p.offset(f));
    println!("{:?}", p.offset(f));
}

#[test]
fn test_pos_iter() {
    let p = Pos::from_xyz(1, 1, 1);
    let mut it = p.iter_cube(-1, 1, -1);
    let mut n: usize = 0;
    while let Some(q) = it.next() {
        println!("{:?}", (n, q));
        n += 1;
    }
}

#[test]
fn test_pos_iter_range() {
    let p = Pos::from_xyz(-1, -1, -1);
    let p1 = Pos::from_xyz(1, 1, 1);
    let mut it = Pos::iter_range(p1, p);
    let mut n: usize = 0;
    while let Some(q) = it.next() {
        println!("{:?}", (n, q));
        n += 1;
    }
}

#[test]
fn test_mul() {
    let p = Pos::from_xyz(1, 2, 3);
    let p1 = Pos::from_xyz(4, 8, 12);
    assert_eq!(p.scale(4), p1);
    assert_eq!(p.scale(4), p1);
}

#[test]
fn face_offset_round_trip() {
    let faces = BlockFace::iter_all();
    assert_eq!(faces.len(), 6);
    let p = Pos::from_xyz(7, -9, 100);
    for f in faces {
        let moved = p.offset(f);
        let back = moved.minus(f.to_delta());
        assert_eq!(back, p);
    }
}

#[test]
fn pos_arithmetic_values() {
    let a = Pos::from_xyz(1, -2, 3);
    let b = Pos::from_xyz(10, 20, -30);
    assert_eq!(a.plus(b), Pos::from_xyz(11, 18, -27));
    assert_eq!(a.minus(b), Pos::from_xyz(-9, -22, 33));
    assert_eq!(a.negate(), Pos::from_xyz(-1, 2, -3));
    assert_eq!(Pos::from_xyz(5, 6, 7).x(), 5);
    assert_eq!(Pos::from_xyz(5, 6, 7).y(), 6);
    assert_eq!(Pos::from_xyz(5, 6, 7).z(), 7);
    let mut m = Pos::from_xyz(0, 0, 0);
    *m.x_mut() = 4;
    *m.y_mut() = 5;
    *m.z_mut() = 6;
    assert_eq!(m, Pos::from_xyz(4, 5, 6));
}

#[test]
fn range_membership() {
    let p = Pos::from_xyz(0, 15, 7);
    assert!(p.all_in_range(0..16));
    assert!(!p.all_in_range(0..15));
    assert!(p.in_range(0..1, 15..16, 7..8));
    assert!(!p.in_range(1..2, 15..16, 7..8));
}

#[test]
fn cube_iteration_count_and_uniqueness() {
    // The enumeration yields (|dx|+1)(|dy|+1)(|dz|+1) positions, all inside
    // the inclusive box, with no repeats.
    let base = Pos::from_xyz(2, -1, 0);
    let mut it = base.iter_cube(2, -3, 1);
    let mut seen: Vec<Pos> = Vec::new();
    while let Some(q) = it.next() {
        assert!(2 <= q.x() && q.x() <= 4);
        assert!(-4 <= q.y() && q.y() <= -1);
        assert!(0 <= q.z() && q.z() <= 1);
        assert!(!seen.contains(&q));
        seen.push(q);
    }
    assert_eq!(seen.len(), 3 * 4 * 2);
}

#[test]
fn range_iteration_descends() {
    let mut it = Pos::iter_range(Pos::from_xyz(1, 1, 1), Pos::from_xyz(0, 0, 0));
    assert_eq!(it.next(), Some(Pos::from_xyz(1, 1, 1)));
    assert_eq!(it.next(), Some(Pos::from_xyz(0, 1, 1)));
    assert_eq!(it.next(), Some(Pos::from_xyz(1, 0, 1)));
    let mut rest: usize = 0;
    while it.next().is_some() {
        rest += 1;
    }
    assert_eq!(rest, 5);
}

#[test]
fn cube_iteration_order_is_x_fastest() {
    let mut it = Pos::from_xyz(0, 0, 0).iter_cube(1, 1, 1);
    assert_eq!(it.next(), Some(Pos::from_xyz(0, 0, 0)));
    assert_eq!(it.next(), Some(Pos::from_xyz(1, 0, 0)));
    assert_eq!(it.next(), Some(Pos::from_xyz(0, 1, 0)));
    assert_eq!(it.next(), Some(Pos::from_xyz(1, 1, 0)));
    assert_eq!(it.next(), Some(Pos::from_xyz(0, 0, 1)));
    assert_eq!(it.next(), Some(Pos::from_xyz(1, 0, 1)));
    assert_eq!(it.next(), Some(Pos::from_xyz(0, 1, 1)));
    assert_eq!(it.next(), Some(Pos::from_xyz(1, 1, 1)));
    assert_eq!(it.next(), None);
}
