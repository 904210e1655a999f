use marching_plane::mesh::{Mesh, Meshable};
use marching_plane::square_march::{EdgeProfile, SquareSet, DEFAULT_CUTOFF, PROFILE_LEN};

fn smooth(t: f64) -> f64 {
    (-1.0 / t).exp()
}

fn sigmoid_profile() -> EdgeProfile {
    let mut table = Vec::new();
    for s in 0..PROFILE_LEN {
        let m = s as f64 / (PROFILE_LEN - 1) as f64;
        let v = if m <= 0.0 {
            0.0
        } else if m >= 1.0 {
            1.0
        } else {
            smooth(m) / (smooth(m) + smooth(1.0 - m))
        };
        table.push((v * 1000.0).round() as u32);
    }
    EdgeProfile::from_table(table).unwrap()
}

fn set(a: u32, b: u32, c: u32, d: u32) -> SquareSet {
    SquareSet { a, b, c, d }
}

fn positions(m: &Mesh) -> Vec<(i64, i64, i64)> {
    m.vertices.iter().map(|v| v.position).collect()
}

#[test]
fn profile_rejects_bad_tables() {
    assert!(EdgeProfile::from_table(vec![0; 10]).is_none());
    let mut t: Vec<u32> = (0..PROFILE_LEN as u32).map(|i| i / 2).collect();
    assert!(EdgeProfile::from_table(t.clone()).is_some());
    t[7] = 900;
    assert!(EdgeProfile::from_table(t.clone()).is_none());
    let mut u: Vec<u32> = (0..PROFILE_LEN as u32).map(|i| i / 2).collect();
    u[PROFILE_LEN - 1] = 999;
    assert!(EdgeProfile::from_table(u).is_none());
}

#[test]
fn side_bounds_and_monotonic() {
    let p = sigmoid_profile();
    assert_eq!(p.side_fn(0, 0), 0);
    assert_eq!(p.side_fn(1000, 1000), 1000);
    assert_eq!(p.side_fn(1000, 0), 500);
    assert_eq!(p.side_fn(0, 1000), 500);
    // flat near the ends: a smoothstep-like curve
    assert!(p.side_fn(50, 50) < 10);
    assert!(p.side_fn(950, 950) > 990);
    let mut last = 0;
    for s in 0..=2000u32 {
        let v = p.side_fn(s / 2, s - s / 2);
        assert!(v <= 1000);
        assert!(v >= last);
        last = v;
    }
    // sums past the table use its last entry
    assert_eq!(p.side_fn(3000, 5000), 1000);
}

#[test]
fn rotate_moves_corners_a_quarter_turn() {
    let mut s = set(1, 2, 3, 4);
    s.rotate(false);
    assert_eq!((s.a, s.b, s.c, s.d), (4, 1, 2, 3));
    s.rotate(false);
    s.rotate(false);
    s.rotate(false);
    assert_eq!((s.a, s.b, s.c, s.d), (1, 2, 3, 4));
}

#[test]
fn pattern_predicates() {
    let c = DEFAULT_CUTOFF;
    assert_eq!(set(1000, 0, 0, 0).matching_pattern(c), 1);
    assert_eq!(set(1000, 1000, 0, 0).matching_pattern(c), 2);
    assert_eq!(set(1000, 0, 1000, 0).matching_pattern(c), 3);
    assert_eq!(set(1000, 1000, 0, 1000).matching_pattern(c), 4);
    assert_eq!(set(1000, 1000, 1000, 1000).matching_pattern(c), 5);
    assert_eq!(set(200, 200, 200, 200).matching_pattern(c), 5);
    assert_eq!(set(0, 1000, 0, 0).matching_pattern(c), 0);
    assert_eq!(set(0, 0, 0, 0).matching_pattern(c), 0);
}

#[test]
fn single_corner_triangle() {
    let p = sigmoid_profile();
    let m = set(1000, 0, 0, 0).cell_mesh(DEFAULT_CUTOFF, &p);
    assert_eq!(positions(&m), vec![(-500, -500, 0), (0, -500, 0), (-500, 0, 0)]);
    assert_eq!(m.indices, vec![0, 1, 2]);
    assert!(m.vertices.iter().all(|v| v.colour == (0, 0, 0)));
}

#[test]
fn rotated_corner_is_turned_back() {
    let p = sigmoid_profile();
    // only b on: matched as pattern 1 after three quarter turns
    let m = set(0, 1000, 0, 0).cell_mesh(DEFAULT_CUTOFF, &p);
    assert_eq!(m.indices, vec![0, 1, 2]);
    assert_eq!(positions(&m)[0], (500, -500, 0));
    // only d on: one quarter turn
    let m = set(0, 0, 0, 1000).cell_mesh(DEFAULT_CUTOFF, &p);
    assert_eq!(positions(&m)[0], (-500, 500, 0));
    // only c on: two quarter turns
    let m = set(0, 0, 1000, 0).cell_mesh(DEFAULT_CUTOFF, &p);
    assert_eq!(positions(&m)[0], (500, 500, 0));
}

#[test]
fn every_non_diagonal_occupancy_gives_triangles() {
    let p = sigmoid_profile();
    for mask in 1u32..16 {
        let on = |bit: u32| if mask & (1 << bit) != 0 { 1000 } else { 0 };
        let s = set(on(0), on(1), on(2), on(3));
        let diagonal = mask == 0b0101 || mask == 0b1010;
        let m = s.to_mesh(DEFAULT_CUTOFF, &p);
        if !diagonal {
            assert!(m.indices.len() >= 3, "mask {}", mask);
        }
        assert!(m.indices.iter().all(|&i| (i as usize) < m.vertices.len()));
    }
}

#[test]
fn empty_cell_gives_nothing() {
    let p = sigmoid_profile();
    let m = set(0, 0, 0, 0).cell_mesh(DEFAULT_CUTOFF, &p);
    assert!(m.vertices.is_empty());
    assert!(m.indices.is_empty());
}

#[test]
fn saddle_connects_a_and_c() {
    let p = sigmoid_profile();
    let m = set(1000, 0, 1000, 0).cell_mesh(DEFAULT_CUTOFF, &p);
    assert_eq!(m.indices, vec![0, 1, 2, 1, 4, 2, 1, 3, 4, 3, 5, 4]);
    assert_eq!(positions(&m)[0], (-500, -500, 0));
    assert_eq!(positions(&m)[5], (500, 500, 0));
    // b and d on: the saddle after one quarter turn joins b and d
    let m = set(0, 1000, 0, 1000).cell_mesh(DEFAULT_CUTOFF, &p);
    assert_eq!(m.indices.len(), 12);
    assert_eq!(positions(&m)[0], (-500, 500, 0));
    assert_eq!(positions(&m)[5], (500, -500, 0));
}

#[test]
fn full_square_two_triangles() {
    let p = sigmoid_profile();
    let m = set(1000, 1000, 1000, 1000).cell_mesh(DEFAULT_CUTOFF, &p);
    assert_eq!(positions(&m), vec![(-500, -500, 0), (500, -500, 0), (-500, 500, 0), (500, 500, 0)]);
    assert_eq!(m.indices, vec![0, 1, 2, 1, 3, 2]);
}

#[test]
fn edge_cut_follows_profile() {
    let p = sigmoid_profile();
    // top edge on, sides cut by the profile of (a + d) and (b + c)
    let m = set(1000, 1000, 100, 150).cell_mesh(DEFAULT_CUTOFF, &p);
    let pos = positions(&m);
    assert_eq!(m.indices, vec![0, 1, 2, 1, 3, 2]);
    assert_eq!(pos[2], (-500, -500 + p.side_fn(1000, 150) as i64, 0));
    assert_eq!(pos[3], (500, -500 + p.side_fn(1000, 100) as i64, 0));
    assert!(p.side_fn(1000, 150) > p.side_fn(1000, 100));
}
