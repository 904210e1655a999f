use vstd::prelude::*;
use crate::chunk::SAMPLE_ONE;
use crate::chunk::{Chunk, floor_sqrt, isqrt};
use crate::mesh::{Mesh, MeshView, Meshable, Position, Vertex};
use crate::weld::{distinct_positions, lemma_weld_vertices, lemma_weld_wf, weld, weld_into};

verus! {

/// Half the width of a cell, in fixed-point units.
pub const HALF_CELL: i64 = 500;

/// Length of an edge profile: one entry for every possible sum of two
/// samples from 0 to twice `SAMPLE_ONE`.
pub const PROFILE_LEN: usize = 2001;

/// The sample threshold used when none is chosen: a corner whose sample
/// lies above it counts as "on".
pub const DEFAULT_CUTOFF: u32 = 200;

/// Where an edge between two corners is cut, as a function of the sum of
/// the two corners' samples: `table[p1 + p2]` is the distance of the cut
/// from the first corner, in fixed-point units (0 to one cell width).
/// Sums past the end of the table use its last entry.
pub struct EdgeProfile {
    pub table: Vec<u32>,
}

/// Whether `t` is a usable edge profile: it starts at 0, ends at a full
/// cell width, and never decreases.
pub open spec fn valid_profile(t: Seq<u32>) -> bool {
    &&& t.len() == PROFILE_LEN
    &&& t[0] == 0
    &&& t[PROFILE_LEN - 1] == 2 * HALF_CELL
    &&& forall|i: int, j: int| 0 <= i <= j < PROFILE_LEN ==> #[trigger] t[i] <= #[trigger] t[j]
}

/// The cut between corners with samples `p1` and `p2` under profile `t`.
pub open spec fn side(t: Seq<u32>, p1: u32, p2: u32) -> int {
    let s = p1 + p2;
    if s < PROFILE_LEN { t[s] as int } else { t[PROFILE_LEN - 1] as int }
}

impl EdgeProfile {
    /// The table is a valid profile.
    pub open spec fn wf(&self) -> bool {
        valid_profile(self.table@)
    }

    /// The profile given by `table`, or `None` where the table is not a
    /// valid profile (see `valid_profile`).
    pub fn from_table(table: Vec<u32>) -> (r: Option<EdgeProfile>)
        ensures
            r.is_some() <==> valid_profile(table@),
            r.is_some() ==> r.unwrap().table@ == table@,
    {
        if table.len() != PROFILE_LEN || table[0] != 0 || table[PROFILE_LEN - 1] != 1000 {
            return None;
        }
        let mut i: usize = 1;
        while i < PROFILE_LEN
            invariant
                table@.len() == PROFILE_LEN,
                1 <= i <= PROFILE_LEN,
                forall|a: int, b: int| 0 <= a <= b < i ==> #[trigger] table@[a] <= #[trigger] table@[b],
            decreases PROFILE_LEN - i,
        {
            if table[i - 1] > table[i] {
                assert(!valid_profile(table@)) by {
                    assert(table@[i - 1] > table@[i as int]);
                }
                return None;
            }
            assert forall|a: int, b: int| 0 <= a <= b < i + 1 implies #[trigger] table@[a] <= #[trigger] table@[b] by {
                if b == i && a < b {
                    assert(table@[a] <= table@[i - 1]);
                }
            }
            i = i + 1;
        }
        Some(EdgeProfile { table })
    }

    /// The cut between corners with samples `p1` and `p2` (see `side`).
    pub fn side_fn(&self, p1: u32, p2: u32) -> (r: u32)
        requires
            self.wf(),
        ensures
            r as int == side(self.table@, p1, p2),
            r <= 2 * HALF_CELL,
    {
        let s: u64 = p1 as u64 + p2 as u64;
        if s < PROFILE_LEN as u64 {
            assert(self.table@[s as int] <= self.table@[PROFILE_LEN - 1]);
            self.table[s as usize]
        } else {
            self.table[PROFILE_LEN - 1]
        }
    }
}

/// The four corner samples of one cell: `a` top-left, `b` top-right,
/// `c` bottom-right, `d` bottom-left.
#[derive(Clone, Copy, Debug)]
pub struct SquareSet {
    pub a: u32,
    pub b: u32,
    pub d: u32,
    pub c: u32,
}

/// The cell's corners relabelled a quarter turn on: `a` takes `d`'s sample,
/// `d` takes `c`'s, `c` takes `b`'s and `b` takes `a`'s.
pub open spec fn rotated_set(s: SquareSet) -> SquareSet {
    SquareSet { a: s.d, b: s.a, c: s.b, d: s.c }
}

/// `n` quarter turns of the corner labels.
pub open spec fn rotated_set_n(s: SquareSet, n: nat) -> SquareSet
    decreases n,
{
    if n == 0 {
        s
    } else {
        rotated_set(rotated_set_n(s, (n - 1) as nat))
    }
}

/// Only `a` on.
pub open spec fn pattern_1_matches(s: SquareSet, cutoff: u32) -> bool {
    s.a > cutoff && s.b <= cutoff && s.c <= cutoff && s.d <= cutoff
}

/// The top edge on.
pub open spec fn pattern_2_matches(s: SquareSet, cutoff: u32) -> bool {
    s.a > cutoff && s.b > cutoff && s.c <= cutoff && s.d <= cutoff
}

/// The diagonal `a`, `c` on.
pub open spec fn pattern_3_matches(s: SquareSet, cutoff: u32) -> bool {
    s.a > cutoff && s.b <= cutoff && s.c > cutoff && s.d <= cutoff
}

/// All but `d` on.
pub open spec fn pattern_4_matches(s: SquareSet, cutoff: u32) -> bool {
    s.a > cutoff && s.b > cutoff && s.c <= cutoff && s.d > cutoff
}

/// All four at or above the cutoff.
pub open spec fn pattern_5_matches(s: SquareSet, cutoff: u32) -> bool {
    s.a >= cutoff && s.b >= cutoff && s.c >= cutoff && s.d >= cutoff
}

/// The first of the five patterns that `s` matches as it stands, or 0.
pub open spec fn matching_pattern(s: SquareSet, cutoff: u32) -> u8 {
    if pattern_1_matches(s, cutoff) {
        1
    } else if pattern_2_matches(s, cutoff) {
        2
    } else if pattern_3_matches(s, cutoff) {
        3
    } else if pattern_4_matches(s, cutoff) {
        4
    } else if pattern_5_matches(s, cutoff) {
        5
    } else {
        0
    }
}

/// The pattern and the number of quarter turns of the first rotation, from
/// `r` on, under which `s` matches a pattern.
pub open spec fn classify_from(s: SquareSet, cutoff: u32, r: nat) -> Option<(u8, nat)>
    decreases 4 - r,
{
    if r >= 4 {
        None
    } else {
        let k = matching_pattern(rotated_set_n(s, r), cutoff);
        if k != 0 {
            Some((k, r))
        } else {
            classify_from(s, cutoff, r + 1)
        }
    }
}

/// The pattern that a cell takes and the quarter turns that bring it there,
/// or `None` where no rotation matches.
pub open spec fn classify(s: SquareSet, cutoff: u32) -> Option<(u8, nat)> {
    classify_from(s, cutoff, 0)
}

/// A vertex of colour black at `(x, y, 0)`.
pub open spec fn corner(x: int, y: int) -> Vertex {
    Vertex { position: (x as i64, y as i64, 0), colour: (0, 0, 0) }
}

/// The local mesh of pattern `k` for corners `s`, with corners at
/// plus or minus `HALF_CELL`.
pub open spec fn pattern_view(k: u8, s: SquareSet, t: Seq<u32>) -> MeshView {
    let h = HALF_CELL as int;
    if k == 1 {
        MeshView {
            vertices: seq![corner(-h, -h), corner(-h + side(t, s.a, s.b), -h), corner(-h, -h + side(t, s.a, s.d))],
            indices: seq![0, 1, 2],
        }
    } else if k == 2 {
        MeshView {
            vertices: seq![corner(-h, -h), corner(h, -h), corner(-h, -h + side(t, s.a, s.d)), corner(h, -h + side(t, s.b, s.c))],
            indices: seq![0, 1, 2, 1, 3, 2],
        }
    } else if k == 3 {
        MeshView {
            vertices: seq![
                corner(-h, -h),
                corner(-h + side(t, s.a, s.b), -h),
                corner(-h, -h + side(t, s.a, s.d)),
                corner(h, h - side(t, s.c, s.b)),
                corner(h - side(t, s.c, s.d), h),
                corner(h, h),
            ],
            indices: seq![0, 1, 2, 1, 4, 2, 1, 3, 4, 3, 5, 4],
        }
    } else if k == 4 {
        MeshView {
            vertices: seq![corner(-h, -h), corner(h, -h), corner(-h, h), corner(h, -h + side(t, s.b, s.c)), corner(-h + side(t, s.d, s.c), h)],
            indices: seq![0, 1, 3, 0, 3, 4, 0, 4, 2],
        }
    } else {
        MeshView {
            vertices: seq![corner(-h, -h), corner(h, -h), corner(-h, h), corner(h, h)],
            indices: seq![0, 1, 2, 1, 3, 2],
        }
    }
}

/// The triangles of one cell in its own frame: the matched pattern's mesh
/// turned back by the quarter turns used to match it; nothing where no
/// rotation matches.
pub open spec fn cell_view(s: SquareSet, cutoff: u32, t: Seq<u32>) -> MeshView {
    match classify(s, cutoff) {
        Some((k, r)) => pattern_view(k, rotated_set_n(s, r), t).rotate_n(r),
        None => MeshView::empty(),
    }
}

/// Every coordinate of every vertex lies within `[-b, b]`.
pub open spec fn bounded(m: MeshView, b: int) -> bool {
    forall|i: int| 0 <= i < m.vertices.len() ==> {
        let p = #[trigger] m.vertices[i].position;
        -b <= p.0 <= b && -b <= p.1 <= b && -b <= p.2 <= b
    }
}

/// Quarter turns keep a mesh within the same bound, with the same indices.
pub proof fn lemma_rotate_bounded(m: MeshView, b: int, n: nat)
    requires
        bounded(m, b),
        0 <= b <= i64::MAX,
    ensures
        bounded(m.rotate_n(n), b),
        m.rotate_n(n).indices == m.indices,
        m.rotate_n(n).vertices.len() == m.vertices.len(),
    decreases n,
{
    if n > 0 {
        lemma_rotate_bounded(m, b, (n - 1) as nat);
        let p = m.rotate_n((n - 1) as nat);
        assert forall|i: int| 0 <= i < p.rotate().vertices.len() implies {
            let q = #[trigger] p.rotate().vertices[i].position;
            -b <= q.0 <= b && -b <= q.1 <= b && -b <= q.2 <= b
        } by {
            assert(p.rotate().vertices[i] == crate::mesh::rotated(p.vertices[i]));
        }
    }
}


/// The number of corners of `s` above `cutoff`.
pub open spec fn corners_on(s: SquareSet, cutoff: u32) -> int {
    (if s.a > cutoff { 1int } else { 0 }) + (if s.b > cutoff { 1int } else { 0 }) + (if s.c > cutoff { 1int } else { 0 }) + (if s.d
        > cutoff { 1int } else { 0 })
}

/// Exactly two opposite corners of `s` lie above `cutoff`.
pub open spec fn diagonal_only(s: SquareSet, cutoff: u32) -> bool {
    ||| (s.a > cutoff && s.c > cutoff && s.b <= cutoff && s.d <= cutoff)
    ||| (s.b > cutoff && s.d > cutoff && s.a <= cutoff && s.c <= cutoff)
}

/// Under a valid profile an edge cut lies within the cell edge, is 0 where
/// both corners are 0 and a full cell width where both are fully empty, and
/// never moves back as the corners' sum grows.
pub proof fn lemma_side_bounds(t: Seq<u32>, p1: u32, p2: u32, q1: u32, q2: u32)
    requires
        valid_profile(t),
    ensures
        0 <= side(t, p1, p2) <= 2 * HALF_CELL,
        side(t, 0, 0) == 0,
        side(t, SAMPLE_ONE, SAMPLE_ONE) == 2 * HALF_CELL,
        p1 + p2 <= q1 + q2 ==> side(t, p1, p2) <= side(t, q1, q2),
{
    let s = p1 + p2;
    if s < PROFILE_LEN {
        assert(t[s as int] <= t[PROFILE_LEN - 1]);
    }
    if p1 + p2 <= q1 + q2 {
        let u = q1 + q2;
        if u < PROFILE_LEN {
            assert(t[s as int] <= t[u as int]);
        } else if s < PROFILE_LEN {
            assert(t[s as int] <= t[PROFILE_LEN - 1]);
        }
    }
}

/// The corner labels after zero to three quarter turns.
pub proof fn lemma_rotated_set_unfold(s: SquareSet)
    ensures
        rotated_set_n(s, 0) == s,
        rotated_set_n(s, 1) == rotated_set(s),
        rotated_set_n(s, 2) == rotated_set(rotated_set(s)),
        rotated_set_n(s, 3) == rotated_set(rotated_set(rotated_set(s))),
{
    assert(rotated_set_n(s, 1) == rotated_set(rotated_set_n(s, 0)));
    assert(rotated_set_n(s, 2) == rotated_set(rotated_set_n(s, 1)));
    assert(rotated_set_n(s, 3) == rotated_set(rotated_set_n(s, 2)));
}

/// Classification tries the rotations in order, 0 to 3.
pub proof fn lemma_classify_unfold(s: SquareSet, cutoff: u32)
    ensures
        classify(s, cutoff) == (if matching_pattern(s, cutoff) != 0 {
            Some((matching_pattern(s, cutoff), 0nat))
        } else if matching_pattern(rotated_set(s), cutoff) != 0 {
            Some((matching_pattern(rotated_set(s), cutoff), 1nat))
        } else if matching_pattern(rotated_set(rotated_set(s)), cutoff) != 0 {
            Some((matching_pattern(rotated_set(rotated_set(s)), cutoff), 2nat))
        } else if matching_pattern(rotated_set(rotated_set(rotated_set(s))), cutoff) != 0 {
            Some((matching_pattern(rotated_set(rotated_set(rotated_set(s))), cutoff), 3nat))
        } else {
            None
        }),
{
    lemma_rotated_set_unfold(s);
    reveal_with_fuel(classify_from, 5);
}

/// A cell with at least one corner above the cutoff, other than one with
/// exactly two opposite corners above it, matches some pattern under some
/// rotation, and its mesh holds at least one triangle.
pub proof fn lemma_classification_total(s: SquareSet, cutoff: u32, t: Seq<u32>)
    requires
        corners_on(s, cutoff) >= 1,
        !diagonal_only(s, cutoff),
    ensures
        classify(s, cutoff).is_some(),
        cell_view(s, cutoff, t).indices.len() >= 3,
{
    lemma_classify_unfold(s, cutoff);
    let (k, r) = classify(s, cutoff).unwrap();
    let base = pattern_view(k, rotated_set_n(s, r), t);
    assert(base.indices.len() >= 3);
    lemma_rotate_keeps_indices(base, r);
}

/// A cell with exactly `a` and `c` above the cutoff is the saddle pattern as
/// it stands: one strip of four triangles joins the corner at `a` (vertex 0)
/// to the corner at `c` (vertex 5). With exactly `b` and `d` above it, the
/// saddle is matched after one quarter turn, unless `a` and `c` both equal
/// the cutoff, where the inclusive full-square pattern matches first.
pub proof fn lemma_saddle(s: SquareSet, cutoff: u32, t: Seq<u32>)
    requires
        diagonal_only(s, cutoff),
    ensures
        s.a > cutoff ==> {
            &&& classify(s, cutoff) == Some((3u8, 0nat))
            &&& cell_view(s, cutoff, t) == pattern_view(3, s, t)
            &&& cell_view(s, cutoff, t).indices == seq![0u16, 1, 2, 1, 4, 2, 1, 3, 4, 3, 5, 4]
            &&& cell_view(s, cutoff, t).vertices[0] == corner(-HALF_CELL as int, -HALF_CELL as int)
            &&& cell_view(s, cutoff, t).vertices[5] == corner(HALF_CELL as int, HALF_CELL as int)
        },
        s.a <= cutoff ==> classify(s, cutoff) == if s.a == cutoff && s.c == cutoff {
            Some((5u8, 0nat))
        } else {
            Some((3u8, 1nat))
        },
{
    lemma_classify_unfold(s, cutoff);
    lemma_rotated_set_unfold(s);
}

/// Quarter turns keep the indices.
pub proof fn lemma_rotate_keeps_indices(m: MeshView, n: nat)
    ensures
        m.rotate_n(n).indices == m.indices,
    decreases n,
{
    if n > 0 {
        lemma_rotate_keeps_indices(m, (n - 1) as nat);
    }
}


/// Most cells that one grid mesh may hold: six vertices each stay within
/// 16-bit indices.
pub const MAX_CELLS: usize = 10922;

/// Largest chunk side that can be meshed: its cells stay within `MAX_CELLS`.
pub const MAX_MESH_SIZE: usize = 105;

/// Bound on every coordinate of a grid mesh.
pub const GRID_BOUND: i64 = 16_000_000;

/// The cell whose top-left corner is sample `[x][y]`.
pub open spec fn cell_at(s: Seq<Seq<u32>>, x: int, y: int) -> SquareSet {
    SquareSet { a: s[x][y], b: s[x + 1][y], c: s[x + 1][y + 1], d: s[x][y + 1] }
}

/// The cells of a grid of side `size`, row by row: cell `i` has its
/// top-left corner at `(i % (size - 1), i / (size - 1))`.
pub open spec fn chunk_cells(s: Seq<Seq<u32>>, size: int) -> Seq<SquareSet> {
    let w = size - 1;
    if size >= 2 {
        Seq::new((w * w) as nat, |i: int| cell_at(s, i % w, i / w))
    } else {
        Seq::empty()
    }
}

/// Where the centre of cell `i` of a grid `width` cells wide stands.
pub open spec fn cell_offset(i: int, width: int) -> Position {
    ((i % width * 1000 + HALF_CELL) as i64, (i / width * 1000 + HALF_CELL) as i64, 0)
}

/// The mesh of cell `i`, moved to its place in the grid.
pub open spec fn placed_cell(sets: Seq<SquareSet>, i: int, width: int, cutoff: u32, t: Seq<u32>) -> MeshView {
    cell_view(sets[i], cutoff, t).translate(cell_offset(i, width))
}

/// The first `n` cells' meshes, placed and welded in order.
pub open spec fn grid_view_prefix(sets: Seq<SquareSet>, n: nat, width: int, cutoff: u32, t: Seq<u32>) -> MeshView
    decreases n,
{
    if n == 0 {
        MeshView::empty()
    } else {
        weld(grid_view_prefix(sets, (n - 1) as nat, width, cutoff, t), placed_cell(sets, n - 1, width, cutoff, t))
    }
}

/// The mesh of a grid of cells `width` cells wide: every cell's mesh placed
/// at its cell and welded into one.
pub open spec fn grid_view(sets: Seq<SquareSet>, width: int, cutoff: u32, t: Seq<u32>) -> MeshView {
    grid_view_prefix(sets, sets.len(), width, cutoff, t)
}

/// The mesh of a chunk with samples `s` and side `size`: one unit of
/// `1000` per sample spacing, the chunk spanning `[0, (size - 1) * 1000]`.
pub open spec fn chunk_view(s: Seq<Seq<u32>>, size: int, cutoff: u32, t: Seq<u32>) -> MeshView {
    grid_view(chunk_cells(s, size), size - 1, cutoff, t)
}

/// Moving a mesh bounded by `b` by at most `b2 - b` on each axis keeps it
/// within `b2`, and does not overflow.
pub proof fn lemma_translate_bounded(m: MeshView, b: int, t: Position, b2: int)
    requires
        bounded(m, b),
        0 <= b,
        b + vstd::math::abs(t.0 as int) <= b2,
        b + vstd::math::abs(t.1 as int) <= b2,
        b + vstd::math::abs(t.2 as int) <= b2,
        b2 <= i64::MAX,
    ensures
        m.can_translate(t),
        bounded(m.translate(t), b2),
        m.translate(t).vertices.len() == m.vertices.len(),
{
    assert forall|i: int| 0 <= i < m.vertices.len() implies crate::mesh::can_translate(#[trigger] m.vertices[i].position, t) by {}
    assert forall|i: int| 0 <= i < m.translate(t).vertices.len() implies {
        let p = #[trigger] m.translate(t).vertices[i].position;
        -b2 <= p.0 <= b2 && -b2 <= p.1 <= b2 && -b2 <= p.2 <= b2
    } by {
        assert(m.translate(t).vertices[i] == crate::mesh::translated(m.vertices[i], t));
    }
}

/// A cell's mesh is well-formed, holds at most six vertices, and lies within
/// half a cell of the cell's centre.
pub proof fn lemma_cell_view_wf(s: SquareSet, cutoff: u32, t: Seq<u32>)
    requires
        valid_profile(t),
    ensures
        cell_view(s, cutoff, t).wf(),
        cell_view(s, cutoff, t).vertices.len() <= 6,
        bounded(cell_view(s, cutoff, t), HALF_CELL as int),
{
    match classify(s, cutoff) {
        Some((k, r)) => {
            let rs = rotated_set_n(s, r);
            let base = pattern_view(k, rs, t);
            lemma_side_bounds(t, rs.a, rs.b, 0, 0);
            lemma_side_bounds(t, rs.a, rs.d, 0, 0);
            lemma_side_bounds(t, rs.b, rs.c, 0, 0);
            lemma_side_bounds(t, rs.c, rs.b, 0, 0);
            lemma_side_bounds(t, rs.c, rs.d, 0, 0);
            lemma_side_bounds(t, rs.d, rs.c, 0, 0);
            assert(base.wf());
            assert(bounded(base, HALF_CELL as int));
            lemma_rotate_bounded(base, HALF_CELL as int, r);
        },
        None => {},
    }
}

/// Every grid mesh, hence every chunk mesh, is welded: no two of its
/// vertices share a position, and every index names a vertex.
pub proof fn lemma_grid_welded(sets: Seq<SquareSet>, n: nat, width: int, cutoff: u32, t: Seq<u32>)
    requires
        valid_profile(t),
        n <= sets.len() <= MAX_CELLS,
        0 < width <= MAX_CELLS,
    ensures
        grid_view_prefix(sets, n, width, cutoff, t).wf(),
        distinct_positions(grid_view_prefix(sets, n, width, cutoff, t).vertices),
        grid_view_prefix(sets, n, width, cutoff, t).vertices.len() <= 6 * n,
    decreases n,
{
    if n > 0 {
        lemma_grid_welded(sets, (n - 1) as nat, width, cutoff, t);
        let prev = grid_view_prefix(sets, (n - 1) as nat, width, cutoff, t);
        let i = n - 1;
        let local = cell_view(sets[i], cutoff, t);
        lemma_cell_view_wf(sets[i], cutoff, t);
        assert(i / width <= i) by (nonlinear_arith)
            requires width > 0, i >= 0;
        vstd::arithmetic::div_mod::lemma_mod_bound(i, width);
        lemma_translate_bounded(local, HALF_CELL as int, cell_offset(i, width), GRID_BOUND as int);
        let placed = placed_cell(sets, i, width, cutoff, t);
        assert(placed.wf()) by {
            assert forall|k: int| 0 <= k < placed.indices.len() implies (#[trigger] placed.indices[k]) < placed.vertices.len() by {
                assert(local.indices[k] < local.vertices.len());
            }
        }
        lemma_weld_wf(prev, placed);
    }
}

/// The mesh of every chunk of side up to `MAX_MESH_SIZE` is welded: no two
/// of its vertices share a position, and every index names a vertex.
pub proof fn lemma_chunk_mesh_welded(s: Seq<Seq<u32>>, size: int, cutoff: u32, t: Seq<u32>)
    requires
        valid_profile(t),
        0 <= size <= MAX_MESH_SIZE,
    ensures
        chunk_view(s, size, cutoff, t).wf(),
        distinct_positions(chunk_view(s, size, cutoff, t).vertices),
{
    let cells = chunk_cells(s, size);
    if size >= 2 {
        assert((size - 1) * (size - 1) <= 104 * 104) by (nonlinear_arith)
            requires 1 <= size - 1 <= 104;
        lemma_grid_welded(cells, cells.len(), size - 1, cutoff, t);
    } else {
        assert(chunk_view(s, size, cutoff, t) == MeshView::empty());
    }
}

fn corner_vertex(x: i64, y: i64) -> (r: Vertex)
    ensures
        r == corner(x as int, y as int),
{
    Vertex { position: (x, y, 0), colour: (0, 0, 0) }
}

impl SquareSet {
    /// Relabels the corners a quarter turn on (see `rotated_set`).
    pub fn rotate(&mut self, _counter_clock: bool)
        ensures
            *final(self) == rotated_set(*old(self)),
    {
        let temp = self.a;
        self.a = self.d;
        self.d = self.c;
        self.c = self.b;
        self.b = temp;
    }

    /// The first pattern that the cell matches as it stands, or 0.
    pub fn matching_pattern(&self, cutoff: u32) -> (r: u8)
        ensures
            r == matching_pattern(*self, cutoff),
    {
        if self.a > cutoff && self.b <= cutoff && self.c <= cutoff && self.d <= cutoff {
            1
        } else if self.a > cutoff && self.b > cutoff && self.c <= cutoff && self.d <= cutoff {
            2
        } else if self.a > cutoff && self.b <= cutoff && self.c > cutoff && self.d <= cutoff {
            3
        } else if self.a > cutoff && self.b > cutoff && self.c <= cutoff && self.d > cutoff {
            4
        } else if self.a >= cutoff && self.b >= cutoff && self.c >= cutoff && self.d >= cutoff {
            5
        } else {
            0
        }
    }

    /// The local mesh of pattern `k` (1 to 5) for these corners.
    pub fn pattern_mesh(&self, k: u8, profile: &EdgeProfile) -> (r: Mesh)
        requires
            profile.wf(),
        ensures
            r@ == pattern_view(k, *self, profile.table@),
            bounded(r@, HALF_CELL as int),
            r@.wf(),
            r@.indices.len() >= 3,
    {
        let t = Ghost(profile.table@);
        let h: i64 = HALF_CELL;
        let lo: i64 = -HALF_CELL;
        let top_left = corner_vertex(lo, lo);
        let top_right = corner_vertex(h, lo);
        let bottom_left = corner_vertex(lo, h);
        let bottom_right = corner_vertex(h, h);
        let r = if k == 1 {
            let i = corner_vertex(lo + profile.side_fn(self.a, self.b) as i64, lo);
            let j = corner_vertex(lo, lo + profile.side_fn(self.a, self.d) as i64);
            Mesh { vertices: vec![top_left, i, j], indices: vec![0, 1, 2] }
        } else if k == 2 {
            let j = corner_vertex(lo, lo + profile.side_fn(self.a, self.d) as i64);
            let k = corner_vertex(h, lo + profile.side_fn(self.b, self.c) as i64);
            Mesh { vertices: vec![top_left, top_right, j, k], indices: vec![0, 1, 2, 1, 3, 2] }
        } else if k == 3 {
            let i = corner_vertex(lo + profile.side_fn(self.a, self.b) as i64, lo);
            let j = corner_vertex(lo, lo + profile.side_fn(self.a, self.d) as i64);
            let k = corner_vertex(h, h - profile.side_fn(self.c, self.b) as i64);
            let l = corner_vertex(h - profile.side_fn(self.c, self.d) as i64, h);
            Mesh {
                vertices: vec![top_left, i, j, k, l, bottom_right],
                indices: vec![0, 1, 2, 1, 4, 2, 1, 3, 4, 3, 5, 4],
            }
        } else if k == 4 {
            let k = corner_vertex(h, lo + profile.side_fn(self.b, self.c) as i64);
            let l = corner_vertex(lo + profile.side_fn(self.d, self.c) as i64, h);
            Mesh {
                vertices: vec![top_left, top_right, bottom_left, k, l],
                indices: vec![0, 1, 3, 0, 3, 4, 0, 4, 2],
            }
        } else {
            Mesh {
                vertices: vec![top_left, top_right, bottom_left, bottom_right],
                indices: vec![0, 1, 2, 1, 3, 2],
            }
        };
        assert(r@.vertices =~= pattern_view(k, *self, t@).vertices);
        assert(r@.indices =~= pattern_view(k, *self, t@).indices);
        r
    }

    /// The cells of a chunk, row by row (see `chunk_cells`).
    pub fn chunk_to_sets(chunk: &Chunk) -> (r: Vec<SquareSet>)
        requires
            chunk.wf(),
            chunk.size <= MAX_MESH_SIZE,
        ensures
            r@ == chunk_cells(chunk.samples(), chunk.size as int),
    {
        let mut r: Vec<SquareSet> = Vec::new();
        if chunk.size < 2 {
            assert(r@ =~= chunk_cells(chunk.samples(), chunk.size as int));
            return r;
        }
        let w: usize = chunk.size - 1;
        let ghost s = chunk.samples();
        let mut y: usize = 0;
        while y < w
            invariant
                chunk.wf(),
                s == chunk.samples(),
                w == chunk.size - 1,
                1 <= w < MAX_MESH_SIZE,
                y <= w,
                r@.len() == y * w,
                forall|q: int| 0 <= q < r@.len() ==> #[trigger] r@[q] == cell_at(s, q % (w as int), q / (w as int)),
            decreases w - y,
        {
            let mut x: usize = 0;
            while x < w
                invariant
                    chunk.wf(),
                    s == chunk.samples(),
                    w == chunk.size - 1,
                    1 <= w < MAX_MESH_SIZE,
                    y < w,
                    x <= w,
                    r@.len() == y * w + x,
                    forall|q: int| 0 <= q < r@.len() ==> #[trigger] r@[q] == cell_at(s, q % (w as int), q / (w as int)),
                decreases w - x,
            {
                assert((y + 1) * w <= w * w) by (nonlinear_arith)
                    requires y < w;
                let set = SquareSet {
                    a: chunk.data[x][y],
                    b: chunk.data[x + 1][y],
                    c: chunk.data[x + 1][y + 1],
                    d: chunk.data[x][y + 1],
                };
                proof {
                    let q = (y * w + x) as int;
                    vstd::arithmetic::div_mod::lemma_fundamental_div_mod_converse(q, w as int, y as int, x as int);
                    assert(s[x as int] == chunk.data@[x as int]@);
                    assert(s[x + 1] == chunk.data@[x + 1]@);
                }
                r.push(set);
                x = x + 1;
            }
            y = y + 1;
            assert(r@.len() == y * w) by (nonlinear_arith)
                requires r@.len() == (y - 1) * w + w;
        }
        assert(r@ =~= chunk_cells(s, chunk.size as int));
        r
    }

    /// The mesh of a grid of cells `width` cells wide (see `grid_view`).
    /// Vertices at the same position are welded into one, so no two
    /// vertices of the result share a position and every index names a
    /// vertex.
    pub fn grid_mesh(sets: &Vec<SquareSet>, width: usize, cutoff: u32, profile: &EdgeProfile) -> (r: Mesh)
        requires
            profile.wf(),
            0 < width <= MAX_CELLS,
            sets@.len() <= MAX_CELLS,
        ensures
            r@ == grid_view(sets@, width as int, cutoff, profile.table@),
            r@.wf(),
            distinct_positions(r@.vertices),
            bounded(r@, GRID_BOUND as int),
    {
        let mut total = Mesh::empty();
        let mut i: usize = 0;
        while i < sets.len()
            invariant
                profile.wf(),
                0 < width <= MAX_CELLS,
                sets@.len() <= MAX_CELLS,
                i <= sets@.len(),
                total@ == grid_view_prefix(sets@, i as nat, width as int, cutoff, profile.table@),
                total@.wf(),
                distinct_positions(total@.vertices),
                total@.vertices.len() <= 6 * i,
                bounded(total@, GRID_BOUND as int),
            decreases sets@.len() - i,
        {
            let mut cell = sets[i].cell_mesh(cutoff, profile);
            let ghost local = cell@;
            let x: i64 = (i % width) as i64;
            let y: i64 = (i / width) as i64;
            assert(i / width <= i) by (nonlinear_arith)
                requires width > 0;
            let offset: Position = (x * 1000 + HALF_CELL, y * 1000 + HALF_CELL, 0);
            assert(offset == cell_offset(i as int, width as int));
            proof {
                lemma_translate_bounded(local, HALF_CELL as int, offset, GRID_BOUND as int);
            }
            cell.translate(offset);
            assert(cell@ == placed_cell(sets@, i as int, width as int, cutoff, profile.table@));
            let ghost before = total@;
            proof {
                lemma_weld_vertices(before.vertices, cell@.vertices);
                assert(cell@.wf()) by {
                    assert forall|k: int| 0 <= k < cell@.indices.len() implies (#[trigger] cell@.indices[k]) < cell@.vertices.len() by {
                        assert(local.indices[k] < local.vertices.len());
                    }
                }
            }
            weld_into(&mut total, &cell);
            i = i + 1;
            proof {
                let w = total@.vertices;
                assert forall|q: int| 0 <= q < w.len() implies {
                    let p = #[trigger] w[q].position;
                    -GRID_BOUND <= p.0 <= GRID_BOUND && -GRID_BOUND <= p.1 <= GRID_BOUND && -GRID_BOUND <= p.2 <= GRID_BOUND
                } by {
                    if q < before.vertices.len() {
                        assert(w.subrange(0, before.vertices.len() as int)[q] == before.vertices[q]);
                    } else {
                        let k = choose|k: int| 0 <= k < cell@.vertices.len() && #[trigger] w[q] == cell@.vertices[k];
                    }
                }
            }
        }
        total
    }

    /// The mesh of a chunk (see `chunk_view`), welded as `grid_mesh` does.
    pub fn chunk_mesh(chunk: &Chunk, cutoff: u32, profile: &EdgeProfile) -> (r: Mesh)
        requires
            chunk.wf(),
            chunk.size <= MAX_MESH_SIZE,
            profile.wf(),
        ensures
            r@ == chunk_view(chunk.samples(), chunk.size as int, cutoff, profile.table@),
            r@.wf(),
            distinct_positions(r@.vertices),
            bounded(r@, GRID_BOUND as int),
    {
        let sets = SquareSet::chunk_to_sets(chunk);
        if chunk.size < 2 {
            let r = Mesh::empty();
            assert(r@ == grid_view_prefix(sets@, 0, chunk.size - 1, cutoff, profile.table@));
            return r;
        }
        let w: usize = chunk.size - 1;
        assert(w * w <= 104 * 104) by (nonlinear_arith)
            requires 1 <= w <= 104;
        SquareSet::grid_mesh(&sets, w, cutoff, profile)
    }

    /// The triangles of this cell (see `cell_view`).
    pub fn cell_mesh(&self, cutoff: u32, profile: &EdgeProfile) -> (r: Mesh)
        requires
            profile.wf(),
        ensures
            r@ == cell_view(*self, cutoff, profile.table@),
            bounded(r@, HALF_CELL as int),
            r@.wf(),
            r@.vertices.len() <= 6,
    {
        let mut rot: SquareSet = *self;
        let mut n: u8 = 0;
        while n < 4
            invariant
                profile.wf(),
                n <= 4,
                rot == rotated_set_n(*self, n as nat),
                classify(*self, cutoff) == classify_from(*self, cutoff, n as nat),
            decreases 4 - n,
        {
            let k = rot.matching_pattern(cutoff);
            if k != 0 {
                let mut m = rot.pattern_mesh(k, profile);
                let ghost base = m@;
                let mut turns: u8 = 0;
                while turns < n
                    invariant
                        turns <= n,
                        m@ == base.rotate_n(turns as nat),
                        bounded(base, HALF_CELL as int),
                        base.wf(),
                        base.vertices.len() <= 6,
                    decreases n - turns,
                {
                    proof {
                        lemma_rotate_bounded(base, HALF_CELL as int, turns as nat);
                        assert forall|i: int| 0 <= i < m@.vertices.len() implies crate::mesh::can_rotate(#[trigger] m@.vertices[i].position) by {}
                    }
                    m.rotate90(false);
                    turns = turns + 1;
                }
                proof {
                    lemma_rotate_bounded(base, HALF_CELL as int, n as nat);
                }
                return m;
            }
            rot.rotate(false);
            n = n + 1;
        }
        let r = Mesh::empty();
        r
    }
}

/// The width of the square that `n` cells are laid out in, row by row.
pub open spec fn square_width(n: int) -> int {
    if floor_sqrt(n) == 0 { 1 } else { floor_sqrt(n) }
}

impl Meshable for SquareSet {
    open spec fn can_mesh(&self) -> bool {
        true
    }

    open spec fn mesh_view(&self, cutoff: u32, t: Seq<u32>) -> MeshView {
        cell_view(*self, cutoff, t)
    }

    fn to_mesh(&self, cutoff: u32, profile: &EdgeProfile) -> (r: Mesh) {
        self.cell_mesh(cutoff, profile)
    }
}

impl Meshable for Vec<SquareSet> {
    open spec fn can_mesh(&self) -> bool {
        self@.len() <= MAX_CELLS
    }

    /// The cells laid out row by row in a square (see `square_width`).
    open spec fn mesh_view(&self, cutoff: u32, t: Seq<u32>) -> MeshView {
        grid_view(self@, square_width(self@.len() as int), cutoff, t)
    }

    fn to_mesh(&self, cutoff: u32, profile: &EdgeProfile) -> (r: Mesh) {
        let root = isqrt(self.len() as u128);
        let width: usize = if root == 0 { 1 } else { root as usize };
        assert(root <= self@.len()) by (nonlinear_arith)
            requires root * root <= self@.len(), 0 <= root;
        SquareSet::grid_mesh(self, width, cutoff, profile)
    }
}

impl Meshable for Chunk {
    open spec fn can_mesh(&self) -> bool {
        self.wf() && self.size <= MAX_MESH_SIZE
    }

    open spec fn mesh_view(&self, cutoff: u32, t: Seq<u32>) -> MeshView {
        chunk_view(self.samples(), self.size as int, cutoff, t)
    }

    fn to_mesh(&self, cutoff: u32, profile: &EdgeProfile) -> (r: Mesh) {
        SquareSet::chunk_mesh(self, cutoff, profile)
    }
}

} // verus!
