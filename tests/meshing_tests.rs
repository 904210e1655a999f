use marching_plane::chunk::Chunk;
use marching_plane::mesh::{Mesh, Meshable, Vertex};
use marching_plane::square_march::{EdgeProfile, SquareSet, DEFAULT_CUTOFF, PROFILE_LEN};
use std::collections::HashSet;

fn smooth(t: f64) -> f64 {
    (-1.0 / t).exp()
}

fn sigmoid_profile() -> EdgeProfile {
    let mut table = Vec::new();
    for s in 0..PROFILE_LEN {
        let m = s as f64 / (PROFILE_LEN - 1) as f64;
        let v = if m <= 0.0 {
            0.0
        } else if m >= 1.0 {
            1.0
        } else {
            smooth(m) / (smooth(m) + smooth(1.0 - m))
        };
        table.push((v * 1000.0).round() as u32);
    }
    EdgeProfile::from_table(table).unwrap()
}

fn assert_welded(m: &Mesh) {
    let mut seen = HashSet::new();
    for v in &m.vertices {
        assert!(seen.insert(v.position), "duplicate position {:?}", v.position);
    }
    assert_eq!(m.indices.len() % 3, 0);
    assert!(m.indices.iter().all(|&i| (i as usize) < m.vertices.len()));
}

fn has_vertex(m: &Mesh, p: (i64, i64, i64)) -> bool {
    m.vertices.iter().any(|v| v.position == p)
}

#[test]
fn chunk_to_sets_row_by_row() {
    let mut c = Chunk::new(3);
    for x in 0..3 {
        for y in 0..3 {
            c.data[x][y] = (10 * x + y) as u32;
        }
    }
    let sets = SquareSet::chunk_to_sets(&c);
    assert_eq!(sets.len(), 4);
    let corners: Vec<(u32, u32, u32, u32)> = sets.iter().map(|s| (s.a, s.b, s.c, s.d)).collect();
    assert_eq!(corners, vec![(0, 10, 11, 1), (10, 20, 21, 11), (1, 11, 12, 2), (11, 21, 22, 12)]);
    assert!(SquareSet::chunk_to_sets(&Chunk::new(1)).is_empty());
}

#[test]
fn empty_chunk_is_a_uniform_grid() {
    let p = sigmoid_profile();
    let c = Chunk::new(32);
    let m = SquareSet::chunk_mesh(&c, DEFAULT_CUTOFF, &p);
    assert_eq!(m.vertices.len(), 32 * 32);
    assert_eq!(m.indices.len(), 31 * 31 * 2 * 3);
    assert_welded(&m);
    for x in 0..32i64 {
        for y in 0..32i64 {
            assert!(has_vertex(&m, (x * 1000, y * 1000, 0)));
        }
    }
    // the chunk spans exactly its grid: from 0 to 31 sample spacings
    assert!(m.vertices.iter().all(|v| (0..=31000).contains(&v.position.0) && (0..=31000).contains(&v.position.1)));
    // the trait gives the same mesh
    let t = c.to_mesh(DEFAULT_CUTOFF, &p);
    assert_eq!(t.indices, m.indices);
}

#[test]
fn painted_circle_changes_only_its_region() {
    let p = sigmoid_profile();
    let mut c = Chunk::new(32);
    c.paint_antialiased_filled_circle(5000, 5000, 2000);
    assert!(c.data[5][5] <= DEFAULT_CUTOFF);
    assert!(c.data[4][5] <= DEFAULT_CUTOFF);
    let m = SquareSet::chunk_mesh(&c, DEFAULT_CUTOFF, &p);
    assert_welded(&m);
    let uniform = SquareSet::chunk_mesh(&Chunk::new(32), DEFAULT_CUTOFF, &p);
    let pos: Vec<(i64, i64, i64)> = m.vertices.iter().map(|v| v.position).collect();
    let uniform_pos: Vec<(i64, i64, i64)> = uniform.vertices.iter().map(|v| v.position).collect();
    assert_ne!(pos, uniform_pos);
    // the filled centre sample has no vertex of its own
    assert!(!has_vertex(&m, (5000, 5000, 0)));
    // far cells are still full quads
    for &(x, y) in [(20i64, 20i64), (0, 30), (12, 3)].iter() {
        assert!(has_vertex(&m, (x * 1000, y * 1000, 0)));
        assert!(has_vertex(&m, ((x + 1) * 1000, y * 1000, 0)));
        assert!(has_vertex(&m, (x * 1000, (y + 1) * 1000, 0)));
        assert!(has_vertex(&m, ((x + 1) * 1000, (y + 1) * 1000, 0)));
    }
}

#[test]
fn welding_merges_shared_corners() {
    let p = sigmoid_profile();
    let sets = vec![SquareSet { a: 1000, b: 1000, c: 1000, d: 1000 }; 4];
    let m = SquareSet::grid_mesh(&sets, 2, DEFAULT_CUTOFF, &p);
    // a 2 by 2 block of full cells: 9 distinct corners, 8 triangles
    assert_eq!(m.vertices.len(), 9);
    assert_eq!(m.indices.len(), 24);
    assert_welded(&m);
    // the trait lays four cells out in a square of side 2
    let t = sets.to_mesh(DEFAULT_CUTOFF, &p);
    assert_eq!(t.vertices.len(), 9);
    assert_eq!(t.indices, m.indices);
}

#[test]
fn welding_a_random_looking_field() {
    let p = sigmoid_profile();
    let mut c = Chunk::new(12);
    let mut v: u32 = 7;
    for x in 0..12 {
        for y in 0..12 {
            v = (v * 1103 + 12345) % 1001;
            c.data[x][y] = v;
        }
    }
    let m = SquareSet::chunk_mesh(&c, DEFAULT_CUTOFF, &p);
    assert_welded(&m);
    assert!(!m.indices.is_empty());
}

#[test]
fn vertex_transforms() {
    let mut v = Vertex { position: (3, -4, 5), colour: (1, 2, 3) };
    v.translate((10, 20, 30));
    assert_eq!(v.position, (13, 16, 35));
    v.scale(2);
    assert_eq!(v.position, (26, 32, 70));
    v.transform((1, -1, 0));
    assert_eq!(v.position, (26, -32, 0));
    v.rotate90(false);
    assert_eq!(v.position, (-32, -26, 0));
    assert_eq!(v.colour, (1, 2, 3));
}

#[test]
fn mesh_union_rebases_indices() {
    let corner = |x: i64, y: i64| Vertex { position: (x, y, 0), colour: (0, 0, 0) };
    let mut a = Mesh { vertices: vec![corner(0, 0), corner(1, 0), corner(0, 1)], indices: vec![0, 1, 2] };
    let b = Mesh { vertices: vec![corner(5, 5), corner(6, 5), corner(5, 6)], indices: vec![2, 1, 0] };
    a.union(&b);
    assert_eq!(a.vertices.len(), 6);
    assert_eq!(a.indices, vec![0, 1, 2, 5, 4, 3]);
    a.translate((1, 1, 0));
    assert_eq!(a.vertices[3].position, (6, 6, 0));
    a.rotate90(true);
    assert_eq!(a.vertices[0].position, (1, -1, 0));
    a.scale(3);
    assert_eq!(a.vertices[0].position, (3, -3, 0));
    a.transform((2, 1, 1));
    assert_eq!(a.vertices[0].position, (6, -3, 0));
    let e = Mesh::empty();
    assert!(e.vertices.is_empty() && e.indices.is_empty());
}

#[test]
fn tiny_chunks_give_empty_or_single_cell_meshes() {
    let p = sigmoid_profile();
    let m = SquareSet::chunk_mesh(&Chunk::new(1), DEFAULT_CUTOFF, &p);
    assert!(m.vertices.is_empty() && m.indices.is_empty());
    let m = SquareSet::chunk_mesh(&Chunk::new(2), DEFAULT_CUTOFF, &p);
    assert_eq!(m.vertices.len(), 4);
    assert_eq!(m.indices.len(), 6);
    let positions: Vec<(i64, i64, i64)> = m.vertices.iter().map(|v| v.position).collect();
    assert_eq!(positions, vec![(0, 0, 0), (1000, 0, 0), (0, 1000, 0), (1000, 1000, 0)]);
}

#[test]
fn fully_filled_chunk_gives_nothing() {
    let p = sigmoid_profile();
    let mut c = Chunk::new(6);
    for x in 0..6 {
        for y in 0..6 {
            c.data[x][y] = 0;
        }
    }
    let m = SquareSet::chunk_mesh(&c, DEFAULT_CUTOFF, &p);
    assert!(m.vertices.is_empty() && m.indices.is_empty());
}
