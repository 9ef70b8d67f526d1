//! Streaming scheduler behaviour: grid snapping, candidate selection, and
//! the budgeted load and unload passes.

use phyvox::{delete_chunks, new_chunks, snap_pos, AllChunks, GeneratorInfo, Pos, Seed};

#[test]
fn systems_a() {
    println!("{:?}", 3 % 10);
    println!("{:?}", (-3) % 10);
    println!("{:?}", 3 / 10);
    println!("{:?}", (-3) / 10);
    println!("{:?}", 3_i32.rem_euclid(10));
    println!("{:?}", (-3_i32).rem_euclid(10));
}

fn small_policy(load: usize, unload: usize) -> GeneratorInfo {
    GeneratorInfo {
        range_xz: 1,
        range_yp: 1,
        range_yn: 1,
        range_r: 16,
        seed: Seed { seed: 3 },
        load_how_many_chunks_per_frame: load,
        unload_how_many_chunks_per_frame: unload,
    }
}

#[test]
fn snapping_is_sign_correct() {
    assert_eq!(snap_pos(Pos::from_xyz(17, -5, 3)), Pos::from_xyz(16, -16, 0));
    assert_eq!(snap_pos(Pos::from_xyz(0, 16, -16)), Pos::from_xyz(0, 16, -16));
    assert_eq!(snap_pos(Pos::from_xyz(-1, -16, 31)), Pos::from_xyz(-16, -16, 16));
}

#[test]
fn load_pass_fills_candidates_once() {
    // 3 x 3 x 3 offsets, all inside the radius: 27 candidates.
    let info = small_policy(50, 50);
    let mut chunks = AllChunks::new();
    let viewer = Pos::from_xyz(5, 5, 5);
    let loaded = new_chunks(&mut chunks, viewer, &info);
    assert_eq!(loaded.len(), 27);
    assert_eq!(chunks.len(), 27);
    for p in &loaded {
        assert_eq!(p.x().rem_euclid(16), 0);
        assert_eq!(p.y().rem_euclid(16), 0);
        assert_eq!(p.z().rem_euclid(16), 0);
    }
    // A second pass finds nothing missing: nothing already resident is
    // loaded again.
    let again = new_chunks(&mut chunks, viewer, &info);
    assert_eq!(again.len(), 0);
    assert_eq!(chunks.len(), 27);
}

#[test]
fn load_pass_respects_budget() {
    let info = small_policy(10, 50);
    let mut chunks = AllChunks::new();
    let viewer = Pos::from_xyz(0, 0, 0);
    assert_eq!(new_chunks(&mut chunks, viewer, &info).len(), 10);
    assert_eq!(new_chunks(&mut chunks, viewer, &info).len(), 10);
    assert_eq!(new_chunks(&mut chunks, viewer, &info).len(), 7);
    assert_eq!(new_chunks(&mut chunks, viewer, &info).len(), 0);
    assert_eq!(chunks.len(), 27);
}

#[test]
fn zero_load_budget_loads_nothing() {
    // A zero per-frame budget defers everything: no chunk is loaded and the
    // registry is untouched, frame after frame.
    let info = small_policy(0, 50);
    let mut chunks = AllChunks::new();
    assert_eq!(new_chunks(&mut chunks, Pos::from_xyz(0, 0, 0), &info).len(), 0);
    assert_eq!(new_chunks(&mut chunks, Pos::from_xyz(0, 0, 0), &info).len(), 0);
    assert_eq!(chunks.len(), 0);
}

#[test]
fn zero_unload_budget_removes_nothing() {
    let mut chunks = AllChunks::new();
    new_chunks(&mut chunks, Pos::from_xyz(0, 0, 0), &small_policy(50, 50));
    let info = small_policy(50, 0);
    let far = Pos::from_xyz(1000 * 16, 0, 0);
    assert_eq!(delete_chunks(&mut chunks, far, &info).len(), 0);
    assert_eq!(chunks.len(), 27);
}

#[test]
fn loaded_chunks_hold_generated_terrain() {
    let info = small_policy(50, 50);
    let mut chunks = AllChunks::new();
    let loaded = new_chunks(&mut chunks, Pos::from_xyz(0, 0, 0), &info);
    assert!(loaded.contains(&Pos::from_xyz(0, 0, 0)));
    let c = chunks.get(Pos::from_xyz(0, 0, 0)).unwrap();
    assert_eq!(c.base_pos_of_chunk, Pos::from_xyz(0, 0, 0));
    // Seed 3: the bottom row of the chunk at the origin is stone.
    assert_eq!(
        c.get_pos_in_chunk(Pos::from_xyz(0, 0, 0)),
        Some(phyvox::BlockId(1))
    );
    // A chunk one step up is above the height threshold: all air.
    let up = chunks.get(Pos::from_xyz(0, 16, 0)).unwrap();
    assert_eq!(
        up.get_pos_in_chunk(Pos::from_xyz(0, 0, 0)),
        Some(phyvox::BlockId(0))
    );
}

#[test]
fn unload_pass_removes_stray_chunks() {
    let info = small_policy(50, 50);
    let mut chunks = AllChunks::new();
    new_chunks(&mut chunks, Pos::from_xyz(0, 0, 0), &info);
    assert_eq!(chunks.len(), 27);
    // Nothing is stray while the viewer stays put.
    assert_eq!(delete_chunks(&mut chunks, Pos::from_xyz(0, 0, 0), &info).len(), 0);
    // Move the viewer far away: everything resident is stray.
    let far = Pos::from_xyz(1000 * 16, 0, 0);
    let removed = delete_chunks(&mut chunks, far, &info);
    assert_eq!(removed.len(), 27);
    assert_eq!(chunks.len(), 0);
}

#[test]
fn unload_pass_respects_budget() {
    let info = small_policy(50, 8);
    let mut chunks = AllChunks::new();
    new_chunks(&mut chunks, Pos::from_xyz(0, 0, 0), &info);
    let far = Pos::from_xyz(-1000 * 16, 320, 0);
    assert_eq!(delete_chunks(&mut chunks, far, &info).len(), 8);
    assert_eq!(chunks.len(), 19);
    assert_eq!(delete_chunks(&mut chunks, far, &info).len(), 8);
    assert_eq!(delete_chunks(&mut chunks, far, &info).len(), 8);
    assert_eq!(delete_chunks(&mut chunks, far, &info).len(), 3);
    assert_eq!(chunks.len(), 0);
}

#[test]
fn radial_cutoff_filters_offsets() {
    // With a radius of 1 chunk, only the zero offset passes the strict
    // squared-distance test: a single candidate despite the 3 x 3 x 3 box.
    let info = GeneratorInfo {
        range_r: 1,
        ..small_policy(50, 50)
    };
    let mut chunks = AllChunks::new();
    let loaded = new_chunks(&mut chunks, Pos::from_xyz(0, 0, 0), &info);
    assert_eq!(loaded.len(), 1);
    assert!(chunks.contains_pos(Pos::from_xyz(0, 0, 0)));
    assert!(!chunks.contains_pos(Pos::from_xyz(16, 0, 0)));
}

#[test]
fn default_policy_values() {
    let info = GeneratorInfo::default();
    assert_eq!(info.range_xz, 16);
    assert_eq!(info.range_yp, 3);
    assert_eq!(info.range_yn, 2);
    assert_eq!(info.range_r, 16);
    assert_eq!(info.seed, Seed { seed: 3 });
    assert_eq!(info.load_how_many_chunks_per_frame, 50);
    assert_eq!(info.unload_how_many_chunks_per_frame, 50);
}
