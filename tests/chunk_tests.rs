use marching_plane::chunk::{isqrt, Chunk, SAMPLE_ONE};

fn filled(size: usize, value: u32) -> Chunk {
    let mut c = Chunk::new(size);
    for x in 0..size {
        for y in 0..size {
            c.data[x][y] = value;
        }
    }
    c
}

#[test]
fn new_chunk_is_fully_empty() {
    let c = Chunk::new(32);
    assert_eq!(c.size, 32);
    assert_eq!(c.data.len(), 32);
    for row in &c.data {
        assert_eq!(row.len(), 32);
        assert!(row.iter().all(|&v| v == SAMPLE_ONE));
    }
}

#[test]
fn edges_in_each_direction() {
    let mut c = Chunk::new(3);
    for x in 0..3 {
        for y in 0..3 {
            c.data[x][y] = (10 * x + y) as u32;
        }
    }
    assert_eq!(c.get_edge(0), vec![vec![0, 1, 2]]);
    assert_eq!(c.get_edge(1), vec![vec![0], vec![10], vec![20]]);
    assert_eq!(c.get_edge(2), vec![vec![0]]);
    assert!(c.get_edge(3).is_empty());
    assert!(c.get_edge(-1).is_empty());
}

#[test]
fn add_data_overwrites_only_the_block() {
    let mut c = Chunk::new(4);
    let block = vec![vec![7, 8], vec![9]];
    c.add_data(&block, 1, 2);
    assert_eq!(c.data[1][2], 7);
    assert_eq!(c.data[1][3], 8);
    assert_eq!(c.data[2][2], 9);
    assert_eq!(c.data[2][3], SAMPLE_ONE);
    assert_eq!(c.data[0][0], SAMPLE_ONE);
    assert_eq!(c.size, 4);
}

#[test]
fn isqrt_rounds_down() {
    assert_eq!(isqrt(0), 0);
    assert_eq!(isqrt(1), 1);
    assert_eq!(isqrt(2), 1);
    assert_eq!(isqrt(15), 3);
    assert_eq!(isqrt(16), 4);
    assert_eq!(isqrt(2_000_000), 1414);
    assert_eq!(isqrt(1u128 << 90), 1u128 << 45);
}

#[test]
fn paint_circle_falloff_values() {
    // radius 2 centred on sample (5, 5)
    let mut c = Chunk::new(32);
    c.paint_antialiased_filled_circle(5000, 5000, 2000);
    // centre: distance 0, alpha clamps to 0
    assert_eq!(c.data[5][5], 0);
    // distance 1: 1 - |1 - 2| = 0
    assert_eq!(c.data[4][5], 0);
    assert_eq!(c.data[5][6], 0);
    // distance sqrt 2 = 1.414: 1 - 0.586 = 0.414
    assert_eq!(c.data[4][4], 414);
    // distance sqrt 5 > 2: untouched
    assert_eq!(c.data[3][4], SAMPLE_ONE);
    // distance 2 on the rim: alpha 1, no change
    assert_eq!(c.data[3][5], SAMPLE_ONE);
    // far away: untouched
    assert_eq!(c.data[20][20], SAMPLE_ONE);
}

#[test]
fn painting_never_raises_samples() {
    let mut c = Chunk::new(16);
    let circles = [(3000, 4000, 2500), (8000, 8000, 5000), (3500, 4000, 1000), (-2000, 7000, 6000), (12000, 1000, 3000)];
    for &(x, y, r) in circles.iter() {
        let before = c.data.clone();
        c.paint_antialiased_filled_circle(x, y, r);
        for i in 0..16 {
            for j in 0..16 {
                assert!(c.data[i][j] <= before[i][j]);
            }
        }
    }
    // painting the same circle twice changes nothing the second time
    let before = c.data.clone();
    c.paint_antialiased_filled_circle(8000, 8000, 5000);
    assert_eq!(c.data, before);
}

#[test]
fn painting_keeps_lower_samples() {
    let mut c = filled(8, 100);
    c.paint_antialiased_filled_circle(4000, 4000, 3000);
    // ring samples would get a higher alpha than 100: they keep 100
    assert_eq!(c.data[1][4], 100);
    assert_eq!(c.data[4][4], 0);
}

#[test]
fn copy_keeps_samples() {
    let mut c = Chunk::new(5);
    c.paint_antialiased_filled_circle(2000, 2000, 2000);
    let d = c.copy();
    assert_eq!(d.size, 5);
    assert_eq!(d.data, c.data);
}

#[test]
fn paint_far_away_changes_nothing() {
    let mut c = Chunk::new(8);
    c.paint_antialiased_filled_circle(1 << 40, -(1 << 40), 1 << 40);
    assert!(c.data.iter().all(|row| row.iter().all(|&v| v == SAMPLE_ONE)));
}

#[test]
fn paint_negative_radius_fills_without_falloff() {
    // the squared radius decides coverage; |d - r| exceeds one unit everywhere
    let mut c = Chunk::new(8);
    c.paint_antialiased_filled_circle(3000, 3000, -2000);
    assert_eq!(c.data[3][3], 0);
    assert_eq!(c.data[3][5], 0);
    assert_eq!(c.data[4][4], 0);
    assert_eq!(c.data[0][0], SAMPLE_ONE);
    assert_eq!(c.data[3][6], SAMPLE_ONE);
}

#[test]
fn paint_circle_covering_the_whole_chunk() {
    let mut c = Chunk::new(4);
    c.paint_antialiased_filled_circle(1500, 1500, 100_000);
    assert!(c.data.iter().all(|row| row.iter().all(|&v| v == 0)));
}

#[test]
fn zero_sized_chunk() {
    let c = Chunk::new(0);
    assert!(c.data.is_empty());
    assert_eq!(c.size, 0);
}
