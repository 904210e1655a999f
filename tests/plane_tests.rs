use marching_plane::chunk::{Chunk, SAMPLE_ONE};
use marching_plane::mesh::Mesh;
use marching_plane::plane::{pattern_width, MeshError, Plane, ReferencePoint};
use marching_plane::square_march::{EdgeProfile, DEFAULT_CUTOFF, PROFILE_LEN};

fn smooth(t: f64) -> f64 {
    (-1.0 / t).exp()
}

fn sigmoid_profile() -> EdgeProfile {
    let mut table = Vec::new();
    for s in 0..PROFILE_LEN {
        let m = s as f64 / (PROFILE_LEN - 1) as f64;
        let v = if m <= 0.0 {
            0.0
        } else if m >= 1.0 {
            1.0
        } else {
            smooth(m) / (smooth(m) + smooth(1.0 - m))
        };
        table.push((v * 1000.0).round() as u32);
    }
    EdgeProfile::from_table(table).unwrap()
}

fn patterned(base: u32) -> Chunk {
    let mut c = Chunk::new(32);
    for x in 0..32 {
        for y in 0..32 {
            c.data[x][y] = base + (x * 32 + y) as u32 % 7;
        }
    }
    c
}

fn positions(m: &Mesh) -> Vec<(i64, i64, i64)> {
    m.vertices.iter().map(|v| v.position).collect()
}

#[test]
fn registry_get_and_set() {
    let mut p = Plane::new();
    assert_eq!(p.total_chunks(), 0);
    assert!(p.get_chunk((0, 0)).is_none());
    let c = patterned(300);
    assert!(p.set_chunk((2, -3), c.copy()).is_none());
    assert_eq!(p.total_chunks(), 1);
    assert_eq!(p.get_chunk((2, -3)).unwrap().data, c.data);
    assert!(p.get_chunk((-3, 2)).is_none());
    let previous = p.set_chunk((2, -3), Chunk::new(32)).unwrap();
    assert_eq!(previous.data, c.data);
    assert_eq!(p.total_chunks(), 1);
    p.set_chunk((i32::MIN, i32::MAX), Chunk::new(32));
    p.set_chunk((i32::MAX, i32::MIN), Chunk::new(32));
    assert_eq!(p.total_chunks(), 3);
}

#[test]
fn get_or_gen_chunk_stores_the_new_chunk() {
    let mut p = Plane::new();
    let c = p.get_or_gen_chunk((4, 5));
    assert_eq!(c.size, 32);
    assert!(c.data.iter().all(|row| row.iter().all(|&v| v == SAMPLE_ONE)));
    assert_eq!(p.total_chunks(), 1);
    assert!(p.get_chunk((4, 5)).is_some());
    p.set_chunk((4, 5), patterned(10));
    let again = p.get_or_gen_chunk((4, 5));
    assert_eq!(again.data, patterned(10).data);
    assert_eq!(p.total_chunks(), 1);
}

#[test]
fn clone_area_fills_a_rectangle() {
    let mut p = Plane::new();
    let c = patterned(500);
    p.clone_area(&c, -1, 0, 1, 2);
    assert_eq!(p.total_chunks(), 9);
    assert_eq!(p.get_chunk((1, 2)).unwrap().data, c.data);
    assert!(p.get_chunk((2, 2)).is_none());
    p.clone_area(&c, 3, 3, 2, 2);
    assert_eq!(p.total_chunks(), 9);
}

#[test]
fn padded_chunk_takes_neighbour_edges() {
    let mut p = Plane::new();
    let own = patterned(100);
    let east = patterned(200);
    let south = patterned(300);
    let south_east = patterned(400);
    p.set_chunk((0, 0), own.copy());
    p.set_chunk((1, 0), east.copy());
    p.set_chunk((0, 1), south.copy());
    p.set_chunk((1, 1), south_east.copy());
    let padded = p.padded_chunk((0, 0)).unwrap();
    assert_eq!(padded.size, 33);
    for x in 0..32 {
        for y in 0..32 {
            assert_eq!(padded.data[x][y], own.data[x][y]);
        }
    }
    // the east neighbour's first row (its western column) is the padded last column
    assert_eq!(padded.data[32][..32].to_vec(), east.data[0]);
    for x in 0..32 {
        assert_eq!(padded.data[x][32], south.data[x][0]);
    }
    assert_eq!(padded.data[32][32], south_east.data[0][0]);
    assert!(p.padded_chunk((5, 5)).is_none());
}

#[test]
fn padding_stays_empty_without_neighbours() {
    let mut p = Plane::new();
    p.set_chunk((0, 0), patterned(100));
    let padded = p.padded_chunk((0, 0)).unwrap();
    for i in 0..33 {
        assert_eq!(padded.data[32][i], SAMPLE_ONE);
        assert_eq!(padded.data[i][32], SAMPLE_ONE);
    }
}

#[test]
fn plane_paint_reaches_every_chunk_under_the_circle() {
    let mut p = Plane::new();
    // centred on the corner shared by four chunks
    p.paint_antialiased_filled_circle(32000, 32000, 3000);
    assert_eq!(p.total_chunks(), 4);
    let c = p.get_chunk((1, 1)).unwrap();
    assert_eq!(c.data[0][0], 0);
    let c = p.get_chunk((0, 0)).unwrap();
    assert_eq!(c.data[31][31], 0);
    assert_eq!(c.data[0][0], SAMPLE_ONE);
    let c = p.get_chunk((0, 1)).unwrap();
    assert_eq!(c.data[31][0], 0);
    // painting never raises a sample already painted
    let before = p.get_chunk((1, 1)).unwrap().data;
    p.paint_antialiased_filled_circle(34000, 33000, 1500);
    let after = p.get_chunk((1, 1)).unwrap().data;
    for x in 0..32 {
        for y in 0..32 {
            assert!(after[x][y] <= before[x][y]);
        }
    }
}

#[test]
fn plane_paint_in_negative_chunks() {
    let mut p = Plane::new();
    p.paint_antialiased_filled_circle(-5000, -6000, 1000);
    assert_eq!(p.total_chunks(), 1);
    let c = p.get_chunk((-1, -1)).unwrap();
    assert_eq!(c.data[27][26], 0);
    // a negative radius paints nothing and creates nothing
    p.paint_antialiased_filled_circle(100000, 100000, -5000);
    assert_eq!(p.total_chunks(), 1);
}

#[test]
fn mesh_from_ref_places_chunks_by_coordinate() {
    let prof = sigmoid_profile();
    let mut p = Plane::new();
    p.set_chunk((1, 0), Chunk::new(32));
    let r = ReferencePoint { position: (0, 0), render_dist: 32000 };
    let m = p.mesh_from_ref(&r, DEFAULT_CUTOFF, &prof).unwrap();
    assert_eq!(m.vertices.len(), 33 * 33);
    assert!(m.vertices.iter().all(|v| (32000..=64000).contains(&v.position.0) && (0..=32000).contains(&v.position.1)));

    let mut q = Plane::new();
    q.set_chunk((0, 1), Chunk::new(32));
    let m = q.mesh_from_ref(&r, DEFAULT_CUTOFF, &prof).unwrap();
    assert!(m.vertices.iter().all(|v| (0..=32000).contains(&v.position.0) && (32000..=64000).contains(&v.position.1)));

    // the reference point's position becomes the origin
    let r2 = ReferencePoint { position: (40000, 5000), render_dist: 32000 };
    let m2 = p.mesh_from_ref(&r2, DEFAULT_CUTOFF, &prof).unwrap();
    assert!(m2.vertices.iter().any(|v| v.position == (-8000, -5000, 0)));
}

#[test]
fn mesh_from_ref_skips_chunks_out_of_view() {
    let prof = sigmoid_profile();
    let mut p = Plane::new();
    p.set_chunk((10, 10), Chunk::new(32));
    let r = ReferencePoint { position: (0, 0), render_dist: 32000 };
    let m = p.mesh_from_ref(&r, DEFAULT_CUTOFF, &prof).unwrap();
    assert!(m.vertices.is_empty());
    assert!(m.indices.is_empty());
}

#[test]
fn mesh_from_ref_is_deterministic() {
    let prof = sigmoid_profile();
    let mut p = Plane::new();
    p.clone_area(&Chunk::new(32), 0, 0, 1, 1);
    p.paint_antialiased_filled_circle(30000, 33000, 6000);
    let r = ReferencePoint { position: (32000, 32000), render_dist: 20000 };
    let a = p.mesh_from_ref(&r, DEFAULT_CUTOFF, &prof).unwrap();
    let b = p.mesh_from_ref(&r, DEFAULT_CUTOFF, &prof).unwrap();
    assert_eq!(positions(&a), positions(&b));
    assert_eq!(a.indices, b.indices);
    assert!(a.indices.iter().all(|&i| (i as usize) < a.vertices.len()));
    assert_eq!(a.indices.len() % 3, 0);
}

#[test]
fn stitched_chunks_meet_at_their_border() {
    let prof = sigmoid_profile();
    let mut p = Plane::new();
    p.set_chunk((0, 0), Chunk::new(32));
    p.set_chunk((1, 0), Chunk::new(32));
    let r = ReferencePoint { position: (0, 0), render_dist: 32000 };
    let m = p.mesh_from_ref(&r, DEFAULT_CUTOFF, &prof).unwrap();
    // each padded chunk carries a full column at the shared border x = 32000
    let on_border = m.vertices.iter().filter(|v| v.position.0 == 32000).count();
    assert_eq!(on_border, 2 * 33);
    assert_eq!(m.vertices.len(), 2 * 33 * 33);
}

#[test]
fn mesh_from_ref_rejects_too_many_vertices() {
    let prof = sigmoid_profile();
    let mut p = Plane::new();
    p.clone_area(&Chunk::new(32), 0, 0, 7, 7);
    let r = ReferencePoint { position: (128000, 128000), render_dist: 128000 };
    let res = p.mesh_from_ref(&r, DEFAULT_CUTOFF, &prof);
    assert_eq!(res.err(), Some(MeshError::TooManyVertices));
}

#[test]
fn pattern_width_sums_powers_of_two() {
    assert_eq!(pattern_width(0), 0);
    assert_eq!(pattern_width(1), 2);
    assert_eq!(pattern_width(3), 14);
    assert_eq!(pattern_width(7), 254);
    assert_eq!(pattern_width(29), (1 << 30) - 2);
}

#[test]
fn whole_plane_mesh_joins_every_chunk() {
    let prof = sigmoid_profile();
    let mut p = Plane::new();
    let m = p.to_mesh(DEFAULT_CUTOFF, &prof).unwrap();
    assert!(m.vertices.is_empty());
    p.set_chunk((0, 0), Chunk::new(32));
    p.set_chunk((5, -2), Chunk::new(32));
    let m = p.to_mesh(DEFAULT_CUTOFF, &prof).unwrap();
    assert_eq!(m.vertices.len(), 2 * 33 * 33);
    assert_eq!(m.indices.len(), 2 * 32 * 32 * 6);
    assert!(m.indices.iter().all(|&i| (i as usize) < m.vertices.len()));
    assert!(m.vertices.iter().any(|v| v.position == (5 * 32000, -2 * 32000, 0)));
    assert!(m.vertices.iter().any(|v| v.position == (32000, 32000, 0)));
}

#[test]
fn whole_plane_mesh_rejects_too_many_vertices() {
    let prof = sigmoid_profile();
    let mut p = Plane::new();
    p.clone_area(&Chunk::new(32), 0, 0, 7, 7);
    assert_eq!(p.to_mesh(DEFAULT_CUTOFF, &prof).err(), Some(MeshError::TooManyVertices));
}

#[test]
fn chunks_at_the_coordinate_limit_have_no_neighbour_beyond() {
    let mut p = Plane::new();
    p.set_chunk((i32::MAX, i32::MAX), patterned(100));
    p.set_chunk((i32::MIN, i32::MAX), patterned(200));
    let padded = p.padded_chunk((i32::MAX, i32::MAX)).unwrap();
    for i in 0..33 {
        assert_eq!(padded.data[32][i], SAMPLE_ONE);
        assert_eq!(padded.data[i][32], SAMPLE_ONE);
    }
}
