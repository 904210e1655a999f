use vstd::prelude::*;
use vstd::std_specs::iter::IteratorSpec;
use std::collections::HashMap;
use crate::chunk::{Chunk, CHUNK_SIZE, UNIT, blit, edge_of, empty_grid, paint_grid};
use crate::mesh::{Mesh, MeshView, MAX_VERTICES};
use crate::square_march::{EdgeProfile, GRID_BOUND, SquareSet, bounded, chunk_view, lemma_translate_bounded};

verus! {

broadcast use vstd::std_specs::hash::group_hash_axioms;

/// The integer coordinate of a chunk in the plane.
pub type ChunkCoord = (i32, i32);

/// Samples of the chunks of a plane, by coordinate.
pub type PlaneView = Map<ChunkCoord, Seq<Seq<u32>>>;

const KEY_SHIFT: u64 = 0x1_0000_0000;

const KEY_BIAS: i64 = 0x8000_0000;

/// The registry key of chunk coordinate `c`: both halves biased to be
/// non-negative and packed into one word.
pub open spec fn key_of(c: ChunkCoord) -> u64 {
    ((c.0 + 0x8000_0000) * 0x1_0000_0000 + (c.1 + 0x8000_0000)) as u64
}

/// The chunk coordinate that registry key `k` stands for.
pub open spec fn coord_of(k: u64) -> ChunkCoord {
    ((k / 0x1_0000_0000 - 0x8000_0000) as i32, (k % 0x1_0000_0000 - 0x8000_0000) as i32)
}

/// `key_of` and `coord_of` are inverse to each other.
pub proof fn lemma_key_round_trip(c: ChunkCoord, k: u64)
    ensures
        coord_of(key_of(c)) == c,
        key_of(coord_of(k)) == k,
{
    let hi = c.0 + 0x8000_0000;
    let lo = c.1 + 0x8000_0000;
    assert(0 <= hi * 0x1_0000_0000 + lo < 0x1_0000_0000_0000_0000) by (nonlinear_arith)
        requires 0 <= hi < 0x1_0000_0000, 0 <= lo < 0x1_0000_0000;
    vstd::arithmetic::div_mod::lemma_fundamental_div_mod_converse(
        hi * 0x1_0000_0000 + lo,
        0x1_0000_0000,
        hi,
        lo,
    );
    vstd::arithmetic::div_mod::lemma_fundamental_div_mod(k as int, 0x1_0000_0000);
    assert(k / 0x1_0000_0000 < 0x1_0000_0000) by {
        vstd::arithmetic::div_mod::lemma_div_is_ordered(k as int, 0x1_0000_0000_0000_0000 - 1, 0x1_0000_0000);
    }
}

fn key(c: ChunkCoord) -> (r: u64)
    ensures
        r == key_of(c),
{
    let hi: u64 = (c.0 as i64 + KEY_BIAS) as u64;
    let lo: u64 = (c.1 as i64 + KEY_BIAS) as u64;
    assert(hi * 0x1_0000_0000 + lo < 0x1_0000_0000_0000_0000) by (nonlinear_arith)
        requires hi < 0x1_0000_0000, lo < 0x1_0000_0000;
    hi * KEY_SHIFT + lo
}

/// Side of a chunk padded with its neighbours' edges.
pub const PADDED_SIZE: usize = 33;

/// Fixed-point width of one chunk.
pub const CHUNK_SPAN: i64 = 32000;

/// Largest absolute reference-point coordinate or render distance.
pub const MAX_VIEW_COORD: i64 = 0x100_0000_0000;

/// Bound on every coordinate of a plane mesh before it is centred.
pub const SCENE_BOUND: i64 = 0x400_0000_0000;

/// A viewport: a world position and a render distance, in fixed-point units.
#[derive(Clone, Copy, Debug)]
pub struct ReferencePoint {
    pub position: (i64, i64),
    pub render_dist: i64,
}

/// Why a plane mesh could not be built.
#[derive(Clone, Copy, Debug, PartialEq, Eq)]
pub enum MeshError {
    /// The meshes of the chunks in view hold more vertices than 16-bit
    /// indices can name.
    TooManyVertices,
}

/// The coordinate one chunk east of `c`.
pub open spec fn east_of(c: ChunkCoord) -> ChunkCoord {
    ((c.0 + 1) as i32, c.1)
}

/// The coordinate one chunk south of `c`.
pub open spec fn south_of(c: ChunkCoord) -> ChunkCoord {
    (c.0, (c.1 + 1) as i32)
}

/// The coordinate one chunk south-east of `c`.
pub open spec fn south_east_of(c: ChunkCoord) -> ChunkCoord {
    ((c.0 + 1) as i32, (c.1 + 1) as i32)
}

/// Whether the plane `m` holds an east neighbour of `c`.
pub open spec fn has_east(m: PlaneView, c: ChunkCoord) -> bool {
    c.0 < i32::MAX && m.contains_key(east_of(c))
}

/// Whether the plane `m` holds a south neighbour of `c`.
pub open spec fn has_south(m: PlaneView, c: ChunkCoord) -> bool {
    c.1 < i32::MAX && m.contains_key(south_of(c))
}

/// Whether the plane `m` holds a south-east neighbour of `c`.
pub open spec fn has_south_east(m: PlaneView, c: ChunkCoord) -> bool {
    c.0 < i32::MAX && c.1 < i32::MAX && m.contains_key(south_east_of(c))
}

/// Whether `s` is an `n` by `n` grid.
pub open spec fn grid_shape(s: Seq<Seq<u32>>, n: int) -> bool {
    s.len() == n && forall|x: int| 0 <= x < n ==> (#[trigger] s[x]).len() == n
}

/// The chunk at `c` on a fully empty grid one sample wider and taller, its
/// last column taken from the east neighbour's western column, its last row
/// from the south neighbour's northern row, and its last corner from the
/// south-east neighbour's first sample, for each neighbour that exists (a
/// chunk at the largest coordinate has no neighbour beyond it).
pub open spec fn padded_samples(m: PlaneView, c: ChunkCoord) -> Seq<Seq<u32>> {
    let n = CHUNK_SIZE as int;
    let base = blit(empty_grid(n + 1), m[c], 0, 0);
    let with_east = if has_east(m, c) {
        blit(base, edge_of(m[east_of(c)], 0), n, 0)
    } else {
        base
    };
    let with_south = if has_south(m, c) {
        blit(with_east, edge_of(m[south_of(c)], 1), 0, n)
    } else {
        with_east
    };
    if has_south_east(m, c) {
        blit(with_south, edge_of(m[south_east_of(c)], 2), n, n)
    } else {
        with_south
    }
}

/// The mesh of the chunk at `c`, padded, placed at its position in the plane.
pub open spec fn placed_chunk(m: PlaneView, c: ChunkCoord, cutoff: u32, t: Seq<u32>) -> MeshView {
    chunk_view(padded_samples(m, c), PADDED_SIZE as int, cutoff, t).translate(
        ((c.0 * CHUNK_SPAN) as i64, (c.1 * CHUNK_SPAN) as i64, 0),
    )
}

/// The first chunk column in view of `r`, and the last; then the first and
/// last chunk row.
pub open spec fn view_range(r: ReferencePoint) -> (int, int, int, int) {
    let lo_x = r.position.0 - r.render_dist;
    let hi_x = r.position.0 + r.render_dist;
    let lo_y = r.position.1 - r.render_dist;
    let hi_y = r.position.1 + r.render_dist;
    (lo_x / CHUNK_SPAN as int, -((-hi_x) / CHUNK_SPAN as int), lo_y / CHUNK_SPAN as int, -((-hi_y) / CHUNK_SPAN as int))
}

/// Coordinate `n` of the chunks in view, column by column: `ny` rows per
/// column, from `(x0, y0)`.
pub open spec fn scan_coord(x0: int, y0: int, ny: int, n: int) -> ChunkCoord {
    ((x0 + n / ny) as i32, (y0 + n % ny) as i32)
}

/// The first `n` chunks in scan order, those that exist meshed, placed and
/// joined in order.
pub open spec fn scene_prefix(m: PlaneView, x0: int, y0: int, ny: int, n: nat, cutoff: u32, t: Seq<u32>) -> MeshView
    decreases n,
{
    if n == 0 {
        MeshView::empty()
    } else {
        let prev = scene_prefix(m, x0, y0, ny, (n - 1) as nat, cutoff, t);
        let c = scan_coord(x0, y0, ny, n - 1);
        if m.contains_key(c) {
            prev.union(placed_chunk(m, c, cutoff, t))
        } else {
            prev
        }
    }
}

/// The joined mesh of every chunk in view of `r`, in world position.
pub open spec fn scene(m: PlaneView, r: ReferencePoint, cutoff: u32, t: Seq<u32>) -> MeshView {
    let (x0, x1, y0, y1) = view_range(r);
    let nx = if x1 >= x0 { x1 - x0 + 1 } else { 0 };
    let ny = if y1 >= y0 { y1 - y0 + 1 } else { 0 };
    scene_prefix(m, x0, y0, ny, (nx * ny) as nat, cutoff, t)
}

/// Joining more chunks never removes vertices.
pub proof fn lemma_scene_grows(m: PlaneView, x0: int, y0: int, ny: int, k: nat, n: nat, cutoff: u32, t: Seq<u32>)
    requires
        k <= n,
    ensures
        scene_prefix(m, x0, y0, ny, k, cutoff, t).vertices.len() <= scene_prefix(m, x0, y0, ny, n, cutoff, t).vertices.len(),
    decreases n,
{
    if k < n {
        lemma_scene_grows(m, x0, y0, ny, k, (n - 1) as nat, cutoff, t);
    }
}

/// Joining more chunks never removes vertices.
pub proof fn lemma_join_grows(m: PlaneView, order: Seq<ChunkCoord>, k: int, cutoff: u32, t: Seq<u32>)
    requires
        0 <= k <= order.len(),
    ensures
        join_in_order(m, order.take(k), cutoff, t).vertices.len() <= join_in_order(m, order, cutoff, t).vertices.len(),
    decreases order.len(),
{
    if k < order.len() {
        lemma_join_grows(m, order.drop_last(), k, cutoff, t);
        assert(order.drop_last().take(k) =~= order.take(k));
    } else {
        assert(order.take(k) =~= order);
    }
}

/// The mesh of the chunks in view of `r`, centred on `r`'s position, or
/// `None` where it holds too many vertices for 16-bit indices.
pub open spec fn view_mesh(m: PlaneView, r: ReferencePoint, cutoff: u32, t: Seq<u32>) -> Option<MeshView> {
    let all = scene(m, r, cutoff, t);
    if all.vertices.len() <= MAX_VERTICES {
        Some(all.translate(((-r.position.0) as i64, (-r.position.1) as i64, 0)))
    } else {
        None
    }
}

/// A reference point whose coordinates fit the plane's arithmetic.
pub open spec fn valid_reference(r: ReferencePoint) -> bool {
    &&& -MAX_VIEW_COORD <= r.position.0 <= MAX_VIEW_COORD
    &&& -MAX_VIEW_COORD <= r.position.1 <= MAX_VIEW_COORD
    &&& 0 <= r.render_dist <= MAX_VIEW_COORD
}

/// The padded chunk at `c` holds the chunk's own samples in its first
/// `CHUNK_SIZE` columns and rows, exactly the east neighbour's western
/// column in its last column, exactly the south neighbour's northern row in
/// its last row, and the south-east neighbour's first sample in its last
/// corner; where a neighbour is missing, that padding stays fully empty.
pub proof fn lemma_stitching(m: PlaneView, c: ChunkCoord)
    requires
        m.contains_key(c),
        grid_shape(m[c], CHUNK_SIZE as int),
        has_east(m, c) ==> grid_shape(m[east_of(c)], CHUNK_SIZE as int),
        has_south(m, c) ==> grid_shape(m[south_of(c)], CHUNK_SIZE as int),
        has_south_east(m, c) ==> grid_shape(m[south_east_of(c)], CHUNK_SIZE as int),
    ensures
        grid_shape(padded_samples(m, c), PADDED_SIZE as int),
        forall|x: int, y: int|
            0 <= x < CHUNK_SIZE && 0 <= y < CHUNK_SIZE ==> #[trigger] padded_samples(m, c)[x][y] == m[c][x][y],
        forall|y: int|
            0 <= y < CHUNK_SIZE ==> #[trigger] padded_samples(m, c)[CHUNK_SIZE as int][y] == if has_east(m, c) {
                m[east_of(c)][0][y]
            } else {
                crate::chunk::SAMPLE_ONE
            },
        forall|x: int|
            0 <= x < CHUNK_SIZE ==> #[trigger] padded_samples(m, c)[x][CHUNK_SIZE as int] == if has_south(m, c) {
                m[south_of(c)][x][0]
            } else {
                crate::chunk::SAMPLE_ONE
            },
        padded_samples(m, c)[CHUNK_SIZE as int][CHUNK_SIZE as int] == if has_south_east(m, c) {
            m[south_east_of(c)][0][0]
        } else {
            crate::chunk::SAMPLE_ONE
        },
{
}

const DIV_SHIFT: i64 = 0x8000_0000;

/// `a` divided by `CHUNK_SPAN`, rounded down.
fn floor_span(a: i64) -> (r: i64)
    requires
        -0x200_0000_0000 <= a <= 0x200_0000_0000,
    ensures
        r == (a as int) / (CHUNK_SPAN as int),
        -0x800_0000 <= r <= 0x800_0000,
{
    let shifted: u64 = (a + DIV_SHIFT * CHUNK_SPAN) as u64;
    let q: u64 = shifted / (CHUNK_SPAN as u64);
    proof {
        let b = CHUNK_SPAN as int;
        vstd::arithmetic::div_mod::lemma_fundamental_div_mod(shifted as int, b);
        vstd::arithmetic::div_mod::lemma_fundamental_div_mod_converse(
            a as int,
            b,
            q - DIV_SHIFT,
            shifted as int % b,
        );
        vstd::arithmetic::div_mod::lemma_div_is_ordered(shifted as int, (0x200_0000_0000 + 0x8000_0000 * 32000) as int, b);
        vstd::arithmetic::div_mod::lemma_div_is_ordered((0x8000_0000 * 32000 - 0x200_0000_0000) as int, shifted as int, b);
    }
    q as i64 - DIV_SHIFT
}

/// Whether `res` is what building the mesh in view of `r` from a plane
/// with chunks `m` gives: the mesh of `view_mesh`, or an error exactly where
/// that mesh is too large.
pub open spec fn built_from(m: PlaneView, r: ReferencePoint, cutoff: u32, t: Seq<u32>, res: Result<Mesh, MeshError>) -> bool {
    match res {
        Ok(mesh) => view_mesh(m, r, cutoff, t) == Some(mesh@) && mesh@.wf(),
        Err(_) => view_mesh(m, r, cutoff, t).is_none(),
    }
}

/// Building the mesh of one view twice from an unchanged plane gives the
/// same vertices and indices, or fails both times.
pub proof fn lemma_mesh_deterministic(
    m: PlaneView,
    r: ReferencePoint,
    cutoff: u32,
    t: Seq<u32>,
    first: Result<Mesh, MeshError>,
    second: Result<Mesh, MeshError>,
)
    requires
        built_from(m, r, cutoff, t, first),
        built_from(m, r, cutoff, t, second),
    ensures
        first.is_ok() == second.is_ok(),
        first.is_ok() ==> first.unwrap()@.vertices == second.unwrap()@.vertices && first.unwrap()@.indices
            == second.unwrap()@.indices,
{
}

/// Bound on every coordinate of a mesh of the whole plane.
pub const PLANE_BOUND: i64 = 0x8000_0000_0000;

/// The chunks at coordinates `order`, meshed, placed and joined in order.
pub open spec fn join_in_order(m: PlaneView, order: Seq<ChunkCoord>, cutoff: u32, t: Seq<u32>) -> MeshView
    decreases order.len(),
{
    if order.len() == 0 {
        MeshView::empty()
    } else {
        join_in_order(m, order.drop_last(), cutoff, t).union(placed_chunk(m, order.last(), cutoff, t))
    }
}

/// Whether `order` lists each chunk of `m` exactly once.
pub open spec fn lists_all_chunks(m: PlaneView, order: Seq<ChunkCoord>) -> bool {
    order.no_duplicates() && order.to_set() == m.dom()
}

/// Largest absolute plane paint coordinate or radius accepted.
pub const MAX_PLANE_PAINT: i64 = 0x40_0000_0000;

/// Whether chunk `c` lies in the range of chunks that a circle of radius
/// `r` centred at `(x, y)` can reach: the chunks under its bounding box.
pub open spec fn in_paint_range(c: ChunkCoord, x: int, y: int, r: int) -> bool {
    &&& (x - r) / CHUNK_SPAN as int <= c.0 <= (x + r) / CHUNK_SPAN as int
    &&& (y - r) / CHUNK_SPAN as int <= c.1 <= (y + r) / CHUNK_SPAN as int
}

/// Chunk `c` of `m` after painting, in its own frame, the circle of radius
/// `r` centred at plane position `(x, y)`; a missing chunk starts fully
/// empty.
pub open spec fn painted_chunk(m: PlaneView, c: ChunkCoord, x: int, y: int, r: int) -> Seq<Seq<u32>> {
    let base = if m.contains_key(c) { m[c] } else { empty_grid(CHUNK_SIZE as int) };
    paint_grid(base, x - c.0 * CHUNK_SPAN, y - c.1 * CHUNK_SPAN, r)
}

/// A sparse, unbounded plane of chunks, created on demand.
#[derive(Clone, Debug)]
pub struct Plane {
    /// Seed for procedural generation; generation yields fully empty
    /// chunks for now.
    seed: i32,
    chunks: HashMap<u64, Chunk>,
}

impl Plane {
    /// The samples of each chunk, by coordinate.
    pub closed spec fn view(&self) -> PlaneView {
        Map::new(|c: ChunkCoord| self.chunks@.contains_key(key_of(c)), |c: ChunkCoord| self.chunks@[key_of(c)].samples())
    }

    /// Every chunk held is a well-formed chunk of side `CHUNK_SIZE`.
    pub closed spec fn wf(&self) -> bool {
        forall|k: u64| #[trigger] self.chunks@.contains_key(k) ==> self.chunks@[k].wf() && self.chunks@[k].size == CHUNK_SIZE
    }

    /// A plane that holds no chunk.
    pub fn new() -> (r: Self)
        ensures
            r.wf(),
            r.view() == PlaneView::empty(),
    {
        let r = Plane { seed: 0, chunks: HashMap::new() };
        assert(r.view() =~= PlaneView::empty());
        r
    }

    /// A copy of the chunk at `coord`, if the plane holds one; never
    /// creates a chunk.
    pub fn get_chunk(&self, coord: ChunkCoord) -> (r: Option<Chunk>)
        requires
            self.wf(),
        ensures
            r.is_some() == self.view().contains_key(coord),
            r.is_some() ==> r.unwrap().wf() && r.unwrap().size == CHUNK_SIZE && r.unwrap().samples() == self.view()[coord],
    {
        match self.chunks.get(&key(coord)) {
            Some(c) => Some(c.copy()),
            None => None,
        }
    }

    /// Stores `chunk` at `coord`, and returns the chunk it replaces, if any.
    pub fn set_chunk(&mut self, coord: ChunkCoord, chunk: Chunk) -> (r: Option<Chunk>)
        requires
            old(self).wf(),
            chunk.wf(),
            chunk.size == CHUNK_SIZE,
        ensures
            final(self).wf(),
            final(self).view() == old(self).view().insert(coord, chunk.samples()),
            r.is_some() == old(self).view().contains_key(coord),
            r.is_some() ==> r.unwrap().samples() == old(self).view()[coord],
    {
        let ghost c0 = chunk;
        let r = self.chunks.insert(key(coord), chunk);
        proof {
            assert forall|c: ChunkCoord| #![auto] self.view().contains_key(c) == old(self).view().insert(coord, c0.samples()).contains_key(c) by {
                lemma_key_round_trip(c, 0);
                lemma_key_round_trip(coord, 0);
            }
            assert(self.view() =~= old(self).view().insert(coord, c0.samples()));
        }
        r
    }

    /// Stores a fully empty chunk at `coord`, and returns the chunk it
    /// replaces, if any.
    fn generate(&mut self, coord: ChunkCoord) -> (r: Option<Chunk>)
        requires
            old(self).wf(),
        ensures
            final(self).wf(),
            final(self).view() == old(self).view().insert(coord, empty_grid(CHUNK_SIZE as int)),
    {
        self.set_chunk(coord, Chunk::new(CHUNK_SIZE))
    }

    /// The chunk at `coord`; where there is none yet, a fully empty one is
    /// stored there first.
    pub fn get_or_gen_chunk(&mut self, coord: ChunkCoord) -> (r: Chunk)
        requires
            old(self).wf(),
        ensures
            final(self).wf(),
            final(self).view() == if old(self).view().contains_key(coord) {
                old(self).view()
            } else {
                old(self).view().insert(coord, empty_grid(CHUNK_SIZE as int))
            },
            final(self).view().contains_key(coord),
            r.wf(),
            r.size == CHUNK_SIZE,
            r.samples() == final(self).view()[coord],
    {
        match self.get_chunk(coord) {
            Some(c) => c,
            None => {
                self.generate(coord);
                Chunk::new(CHUNK_SIZE)
            },
        }
    }

    /// Every chunk of a well-formed plane is a `CHUNK_SIZE` square grid.
    pub proof fn lemma_view_shapes(&self)
        requires
            self.wf(),
        ensures
            forall|c: ChunkCoord| #[trigger] self.view().contains_key(c) ==> grid_shape(self.view()[c], CHUNK_SIZE as int),
    {
        assert forall|c: ChunkCoord| #[trigger] self.view().contains_key(c) implies grid_shape(self.view()[c], CHUNK_SIZE as int) by {
            let ch = self.chunks@[key_of(c)];
            assert(ch.wf());
            assert forall|x: int| 0 <= x < CHUNK_SIZE implies (#[trigger] self.view()[c][x]).len() == CHUNK_SIZE by {
                assert(ch.samples()[x] == ch.data@[x]@);
            }
        }
    }

    /// The chunk at `coord` padded with its neighbours' edges (see
    /// `padded_samples`), or `None` where the plane holds no chunk there.
    pub fn padded_chunk(&self, coord: ChunkCoord) -> (r: Option<Chunk>)
        requires
            self.wf(),
        ensures
            r.is_some() == self.view().contains_key(coord),
            r.is_some() ==> r.unwrap().wf() && r.unwrap().size == PADDED_SIZE && r.unwrap().samples() == padded_samples(
                self.view(),
                coord,
            ),
    {
        let chunk = match self.get_chunk(coord) {
            Some(c) => c,
            None => {
                return None;
            },
        };
        proof {
            self.lemma_view_shapes();
        }
        let ghost m = self.view();
        let n: usize = CHUNK_SIZE;
        let mut padded = Chunk::new(PADDED_SIZE);
        proof {
            assert(chunk.samples() == chunk.data@.map_values(|row: Vec<u32>| row@));
        }
        padded.add_data(&chunk.data, 0, 0);
        if coord.0 < i32::MAX {
            if let Some(east) = self.get_chunk((coord.0 + 1, coord.1)) {
                let edge = east.get_edge(0);
                padded.add_data(&edge, n, 0);
            }
        }
        if coord.1 < i32::MAX {
            if let Some(south) = self.get_chunk((coord.0, coord.1 + 1)) {
                let edge = south.get_edge(1);
                padded.add_data(&edge, 0, n);
            }
        }
        if coord.0 < i32::MAX && coord.1 < i32::MAX {
            if let Some(corner) = self.get_chunk((coord.0 + 1, coord.1 + 1)) {
                let edge = corner.get_edge(2);
                padded.add_data(&edge, n, n);
            }
        }
        Some(padded)
    }

    /// The mesh of every chunk in view of `ref_point` (see `view_mesh`):
    /// each existing chunk in view, column by column, padded with its
    /// neighbours' edges, meshed, moved to its place in the plane and joined;
    /// the whole then moved so that `ref_point`'s position is the origin.
    /// Fails where the result would hold more vertices than 16-bit indices
    /// can name.
    pub fn mesh_from_ref(&self, ref_point: &ReferencePoint, cutoff: u32, profile: &EdgeProfile) -> (r: Result<
        Mesh,
        MeshError,
    >)
        requires
            self.wf(),
            valid_reference(*ref_point),
            profile.wf(),
        ensures
            built_from(self.view(), *ref_point, cutoff, profile.table@, r),
    {
        let ghost m = self.view();
        let ghost t = profile.table@;
        let rd = ref_point.render_dist;
        let min_x = floor_span(ref_point.position.0 - rd);
        let max_x = -floor_span(-(ref_point.position.0 + rd));
        let min_y = floor_span(ref_point.position.1 - rd);
        let max_y = -floor_span(-(ref_point.position.1 + rd));
        let ghost range = view_range(*ref_point);
        assert(range == (min_x as int, max_x as int, min_y as int, max_y as int));
        proof {
            vstd::arithmetic::div_mod::lemma_div_is_ordered(
                ref_point.position.0 - rd,
                ref_point.position.0 + rd,
                CHUNK_SPAN as int,
            );
            vstd::arithmetic::div_mod::lemma_div_is_ordered(
                ref_point.position.1 - rd,
                ref_point.position.1 + rd,
                CHUNK_SPAN as int,
            );
            vstd::arithmetic::div_mod::lemma_div_is_ordered(
                -(ref_point.position.0 + rd),
                -(ref_point.position.0 - rd),
                CHUNK_SPAN as int,
            );
            vstd::arithmetic::div_mod::lemma_div_is_ordered(
                -(ref_point.position.1 + rd),
                -(ref_point.position.1 - rd),
                CHUNK_SPAN as int,
            );
        }
        let nx: u64 = (max_x - min_x + 1) as u64;
        let ny: u64 = (max_y - min_y + 1) as u64;
        assert(nx * ny <= 0x1000_0001 * 0x1000_0001) by (nonlinear_arith)
            requires nx <= 0x1000_0001, ny <= 0x1000_0001;
        let count: u64 = nx * ny;
        assert(scene(m, *ref_point, cutoff, t) == scene_prefix(m, min_x as int, min_y as int, ny as int, count as nat, cutoff, t));
        let mut total = Mesh::empty();
        let mut n: u64 = 0;
        while n < count
            invariant
                self.wf(),
                profile.wf(),
                m == self.view(),
                t == profile.table@,
                1 <= nx <= 0x1000_0001,
                1 <= ny <= 0x1000_0001,
                count == nx * ny,
                scene(m, *ref_point, cutoff, t) == scene_prefix(m, min_x as int, min_y as int, ny as int, count as nat, cutoff, t),
                -0x800_0000 <= min_x && min_x + nx - 1 <= 0x800_0000,
                -0x800_0000 <= min_y && min_y + ny - 1 <= 0x800_0000,
                n <= count,
                total@ == scene_prefix(m, min_x as int, min_y as int, ny as int, n as nat, cutoff, t),
                total@.wf(),
                bounded(total@, SCENE_BOUND as int),
            decreases count - n,
        {
            let ghost prev = total@;
            proof {
                vstd::arithmetic::div_mod::lemma_div_pos_is_pos(n as int, ny as int);
                vstd::arithmetic::div_mod::lemma_mod_bound(n as int, ny as int);
                assert(n / ny < nx) by {
                    vstd::arithmetic::div_mod::lemma_div_is_ordered(n as int, (nx * ny - 1) as int, ny as int);
                    assert(nx * ny - 1 == (nx - 1) * ny + (ny - 1)) by (nonlinear_arith);
                    vstd::arithmetic::div_mod::lemma_fundamental_div_mod_converse((nx * ny - 1) as int, ny as int, (nx - 1) as int, (ny - 1) as int);
                }
            }
            let x: i64 = min_x + (n / ny) as i64;
            let y: i64 = min_y + (n % ny) as i64;
            let coord: ChunkCoord = (x as i32, y as i32);
            assert(coord == scan_coord(min_x as int, min_y as int, ny as int, n as int));
            if let Some(padded) = self.padded_chunk(coord) {
                let mut cm = SquareSet::chunk_mesh(&padded, cutoff, profile);
                let offset = (x * CHUNK_SPAN, y * CHUNK_SPAN, 0i64);
                proof {
                    lemma_translate_bounded(cm@, GRID_BOUND as int, offset, SCENE_BOUND as int);
                }
                cm.translate(offset);
                assert(cm@ == placed_chunk(m, coord, cutoff, t));
                assert(cm@.wf()) by {
                    assert forall|k: int| 0 <= k < cm@.indices.len() implies (#[trigger] cm@.indices[k]) < cm@.vertices.len() by {}
                }
                if total.vertices.len() + cm.vertices.len() > MAX_VERTICES {
                    proof {
                        assert(scene_prefix(m, min_x as int, min_y as int, ny as int, (n + 1) as nat, cutoff, t) == prev.union(cm@));
                        lemma_scene_grows(m, min_x as int, min_y as int, ny as int, (n + 1) as nat, count as nat, cutoff, t);
                    }
                    return Err(MeshError::TooManyVertices);
                }
                total.union(&cm);
                proof {
                    let w = total@.vertices;
                    assert forall|q: int| 0 <= q < w.len() implies {
                        let p = #[trigger] w[q].position;
                        -SCENE_BOUND <= p.0 <= SCENE_BOUND && -SCENE_BOUND <= p.1 <= SCENE_BOUND && -SCENE_BOUND <= p.2 <= SCENE_BOUND
                    } by {
                        if q < prev.vertices.len() {
                            assert(w[q] == prev.vertices[q]);
                        } else {
                            assert(w[q] == cm@.vertices[q - prev.vertices.len()]);
                        }
                    }
                }
            }
            n = n + 1;
        }
        let shift = (-ref_point.position.0, -ref_point.position.1, 0i64);
        proof {
            lemma_translate_bounded(total@, SCENE_BOUND as int, shift, (SCENE_BOUND + MAX_VIEW_COORD) as int);
        }
        total.translate(shift);
        Ok(total)
    }

    /// Paints an antialiased filled circle of radius `radius` centred at
    /// plane position `(x, y)` into every chunk under its bounding box,
    /// creating the chunks that do not exist yet (see `painted_chunk`).
    pub fn paint_antialiased_filled_circle(&mut self, x: i64, y: i64, radius: i64)
        requires
            old(self).wf(),
            -MAX_PLANE_PAINT <= x <= MAX_PLANE_PAINT,
            -MAX_PLANE_PAINT <= y <= MAX_PLANE_PAINT,
            -MAX_PLANE_PAINT <= radius <= MAX_PLANE_PAINT,
        ensures
            final(self).wf(),
            forall|c: ChunkCoord| #[trigger] final(self).view().contains_key(c) == (old(self).view().contains_key(c)
                || in_paint_range(c, x as int, y as int, radius as int)),
            forall|c: ChunkCoord| #[trigger] final(self).view().contains_key(c) ==> final(self).view()[c] == if in_paint_range(
                c,
                x as int,
                y as int,
                radius as int,
            ) {
                painted_chunk(old(self).view(), c, x as int, y as int, radius as int)
            } else {
                old(self).view()[c]
            },
    {
        let ghost m0 = self.view();
        let min_x = floor_span(x - radius);
        let max_x = floor_span(x + radius);
        let min_y = floor_span(y - radius);
        let max_y = floor_span(y + radius);
        if min_x > max_x || min_y > max_y {
            return;
        }
        let mut cx: i64 = min_x;
        while cx <= max_x
            invariant
                self.wf(),
                m0 == old(self).view(),
                -MAX_PLANE_PAINT <= x <= MAX_PLANE_PAINT,
                -MAX_PLANE_PAINT <= y <= MAX_PLANE_PAINT,
                -MAX_PLANE_PAINT <= radius <= MAX_PLANE_PAINT,
                min_x == (x - radius) / CHUNK_SPAN as int,
                max_x == (x + radius) / CHUNK_SPAN as int,
                min_y == (y - radius) / CHUNK_SPAN as int,
                max_y == (y + radius) / CHUNK_SPAN as int,
                -0x800_0000 <= min_x <= 0x800_0000,
                -0x800_0000 <= max_x <= 0x800_0000,
                -0x800_0000 <= min_y <= 0x800_0000,
                -0x800_0000 <= max_y <= 0x800_0000,
                min_x <= cx <= max_x + 1,
                forall|c: ChunkCoord| #[trigger] self.view().contains_key(c) == (m0.contains_key(c) || (in_paint_range(c, x as int, y as int, radius as int) && c.0 < cx)),
                forall|c: ChunkCoord| #[trigger] self.view().contains_key(c) ==> self.view()[c] == if in_paint_range(c, x as int, y as int, radius as int) && c.0 < cx {
                    painted_chunk(m0, c, x as int, y as int, radius as int)
                } else {
                    m0[c]
                },
            decreases max_x + 1 - cx,
        {
            let mut cy: i64 = min_y;
            while cy <= max_y
                invariant
                    self.wf(),
                    m0 == old(self).view(),
                    -MAX_PLANE_PAINT <= x <= MAX_PLANE_PAINT,
                    -MAX_PLANE_PAINT <= y <= MAX_PLANE_PAINT,
                    -MAX_PLANE_PAINT <= radius <= MAX_PLANE_PAINT,
                    min_x == (x - radius) / CHUNK_SPAN as int,
                    max_x == (x + radius) / CHUNK_SPAN as int,
                    min_y == (y - radius) / CHUNK_SPAN as int,
                    max_y == (y + radius) / CHUNK_SPAN as int,
                    -0x800_0000 <= min_y <= 0x800_0000,
                    -0x800_0000 <= max_y <= 0x800_0000,
                    min_x <= cx <= max_x,
                    -0x800_0000 <= cx <= 0x800_0000,
                    min_y <= cy <= max_y + 1,
                    forall|c: ChunkCoord| #[trigger] self.view().contains_key(c) == (m0.contains_key(c) || (in_paint_range(c, x as int, y as int, radius as int) && (c.0 < cx || (c.0 == cx && c.1 < cy)))),
                    forall|c: ChunkCoord| #[trigger] self.view().contains_key(c) ==> self.view()[c] == if in_paint_range(c, x as int, y as int, radius as int) && (c.0 < cx || (c.0 == cx && c.1 < cy)) {
                        painted_chunk(m0, c, x as int, y as int, radius as int)
                    } else {
                        m0[c]
                    },
                decreases max_y + 1 - cy,
            {
                let coord: ChunkCoord = (cx as i32, cy as i32);
                let ghost before = self.view();
                let mut chunk = self.get_or_gen_chunk(coord);
                assert(chunk.samples() == if m0.contains_key(coord) { m0[coord] } else { empty_grid(CHUNK_SIZE as int) });
                let local_x = x - cx * CHUNK_SPAN;
                let local_y = y - cy * CHUNK_SPAN;
                chunk.paint_antialiased_filled_circle(local_x, local_y, radius);
                self.set_chunk(coord, chunk);
                cy = cy + 1;
            }
            cx = cx + 1;
        }
    }

    /// The mesh of every chunk of the plane, each padded with its
    /// neighbours' edges and placed at its coordinate, joined in the order
    /// in which the registry lists them (which it does not fix). Fails
    /// where the result would hold more vertices than 16-bit indices can
    /// name.
    pub fn to_mesh(&self, cutoff: u32, profile: &EdgeProfile) -> (r: Result<Mesh, MeshError>)
        requires
            self.wf(),
            profile.wf(),
        ensures
            exists|order: Seq<ChunkCoord>| #![auto]
                lists_all_chunks(self.view(), order) && match r {
                    Ok(mesh) => mesh@ == join_in_order(self.view(), order, cutoff, profile.table@) && mesh@.wf(),
                    Err(_) => join_in_order(self.view(), order, cutoff, profile.table@).vertices.len() > MAX_VERTICES,
                },
    {
        let ghost m = self.view();
        let ghost t = profile.table@;
        let mut keys: Vec<u64> = Vec::new();
        let ghost full = vstd::std_specs::hash::spec_keys_iter(&self.chunks).remaining();
        for k in it: self.chunks.keys()
            invariant
                it.seq() == full,
                keys@ == full.take(it.index() as int).map_values(|q: &u64| *q),
        {
            keys.push(*k);
            assert(keys@ =~= full.take(it.index() as int + 1).map_values(|q: &u64| *q));
        }
        let ghost all = keys@;
        proof {
            assert(all =~= full.map_values(|q: &u64| *q));
            assert(full.unref() =~= all);
        }
        let mut total = Mesh::empty();
        let mut i: usize = 0;
        while i < keys.len()
            invariant
                self.wf(),
                profile.wf(),
                m == self.view(),
                t == profile.table@,
                keys@ == all,
                all.to_set() == self.chunks@.dom(),
                all.no_duplicates(),
                i <= all.len(),
                total@ == join_in_order(m, all.take(i as int).map_values(|k: u64| coord_of(k)), cutoff, t),
                total@.wf(),
                bounded(total@, PLANE_BOUND as int),
            decreases all.len() - i,
        {
            let ghost prev = total@;
            let k = keys[i];
            let coord: ChunkCoord = (((k / KEY_SHIFT) as i64 - KEY_BIAS) as i32, ((k % KEY_SHIFT) as i64 - KEY_BIAS) as i32);
            assert(coord == coord_of(k));
            proof {
                lemma_key_round_trip(coord, k);
                assert(self.chunks@.dom().contains(k)) by {
                    assert(all.to_set().contains(all[i as int]));
                }
            }
            assert(all.take(i as int + 1).map_values(|k: u64| coord_of(k)).drop_last() =~= all.take(i as int).map_values(
                |k: u64| coord_of(k),
            ));
            let padded = self.padded_chunk(coord).unwrap();
            let mut cm = SquareSet::chunk_mesh(&padded, cutoff, profile);
            let offset = (coord.0 as i64 * CHUNK_SPAN, coord.1 as i64 * CHUNK_SPAN, 0i64);
            proof {
                lemma_translate_bounded(cm@, GRID_BOUND as int, offset, PLANE_BOUND as int);
            }
            cm.translate(offset);
            assert(cm@.wf()) by {
                assert forall|q: int| 0 <= q < cm@.indices.len() implies (#[trigger] cm@.indices[q]) < cm@.vertices.len() by {}
            }
            if total.vertices.len() + cm.vertices.len() > MAX_VERTICES {
                proof {
                    let order = all.map_values(|k: u64| coord_of(k));
                    self.lemma_order_lists_all(all);
                    lemma_join_grows(m, order, (i + 1) as int, cutoff, t);
                    assert(order.take(i as int + 1) =~= all.take(i as int + 1).map_values(|k: u64| coord_of(k)));
                }
                return Err(MeshError::TooManyVertices);
            }
            total.union(&cm);
            i = i + 1;
            proof {
                let w = total@.vertices;
                assert forall|q: int| 0 <= q < w.len() implies {
                    let p = #[trigger] w[q].position;
                    -PLANE_BOUND <= p.0 <= PLANE_BOUND && -PLANE_BOUND <= p.1 <= PLANE_BOUND && -PLANE_BOUND <= p.2 <= PLANE_BOUND
                } by {
                    if q < prev.vertices.len() {
                        assert(w[q] == prev.vertices[q]);
                    } else {
                        assert(w[q] == cm@.vertices[q - prev.vertices.len()]);
                    }
                }
            }
        }
        proof {
            self.lemma_order_lists_all(all);
            assert(all.take(i as int) =~= all);
        }
        Ok(total)
    }

    proof fn lemma_order_lists_all(&self, all: Seq<u64>)
        requires
            all.to_set() == self.chunks@.dom(),
            all.no_duplicates(),
        ensures
            lists_all_chunks(self.view(), all.map_values(|k: u64| coord_of(k))),
    {
        let order = all.map_values(|k: u64| coord_of(k));
        assert forall|a: int, b: int| 0 <= a < order.len() && 0 <= b < order.len() && a != b implies order[a] != order[b] by {
            lemma_key_round_trip(order[a], all[a]);
            lemma_key_round_trip(order[b], all[b]);
        }
        assert forall|c: ChunkCoord| #![auto] order.to_set().contains(c) == self.view().dom().contains(c) by {
            lemma_key_round_trip(c, 0);
            if self.view().dom().contains(c) {
                assert(all.to_set().contains(key_of(c)));
                let j = choose|j: int| 0 <= j < all.len() && all[j] == key_of(c);
                assert(order[j] == c);
            }
            if order.to_set().contains(c) {
                let j = choose|j: int| 0 <= j < order.len() && order[j] == c;
                lemma_key_round_trip(c, all[j]);
                assert(all.to_set().contains(all[j]));
            }
        }
        assert(order.to_set() =~= self.view().dom());
    }

    /// The number of chunks the plane holds.
    pub fn total_chunks(&self) -> (r: usize)
        ensures
            r == self.view().len(),
    {
        proof {
            let d = self.chunks@.dom();
            let f = |k: u64| coord_of(k);
            assert forall|a: u64, b: u64| d.contains(a) && d.contains(b) && #[trigger] f(a) == #[trigger] f(b) implies a == b by {
                lemma_key_round_trip(f(a), a);
                lemma_key_round_trip(f(b), b);
            }
            assert forall|c: ChunkCoord| #![auto] self.view().dom().contains(c) == d.map(f).contains(c) by {
                lemma_key_round_trip(c, 0);
                if d.map(f).contains(c) {
                    let k = choose|k: u64| d.contains(k) && f(k) == c;
                    lemma_key_round_trip(c, k);
                }
                if self.view().dom().contains(c) {
                    assert(d.contains(key_of(c)) && f(key_of(c)) == c);
                }
            }
            assert(self.view().dom() =~= d.map(f));
            vstd::set_lib::lemma_map_size(d, d.map(f), f);
        }
        self.chunks.len()
    }

    /// Stores a copy of `chunk` at every coordinate from `(start_x, start_y)`
    /// to `(end_x, end_y)`, both included.
    pub fn clone_area(&mut self, chunk: &Chunk, start_x: i32, start_y: i32, end_x: i32, end_y: i32)
        requires
            old(self).wf(),
            chunk.wf(),
            chunk.size == CHUNK_SIZE,
        ensures
            final(self).wf(),
            forall|c: ChunkCoord| #[trigger] final(self).view().contains_key(c) == (old(self).view().contains_key(c) || (
            start_x <= c.0 <= end_x && start_y <= c.1 <= end_y)),
            forall|c: ChunkCoord| #[trigger] final(self).view().contains_key(c) ==> final(self).view()[c] == if start_x <= c.0
                <= end_x && start_y <= c.1 <= end_y {
                chunk.samples()
            } else {
                old(self).view()[c]
            },
    {
        if start_x > end_x || start_y > end_y {
            assert(self.view() =~= old(self).view());
            return;
        }
        let mut x: i64 = start_x as i64;
        while x <= end_x as i64
            invariant
                self.wf(),
                chunk.wf(),
                chunk.size == CHUNK_SIZE,
                start_x <= x <= end_x + 1,
                start_y <= end_y,
                forall|c: ChunkCoord| #[trigger] self.view().contains_key(c) == (old(self).view().contains_key(c) || (start_x
                    <= c.0 < x && start_y <= c.1 <= end_y)),
                forall|c: ChunkCoord| #[trigger] self.view().contains_key(c) ==> self.view()[c] == if start_x <= c.0 < x
                    && start_y <= c.1 <= end_y {
                    chunk.samples()
                } else {
                    old(self).view()[c]
                },
            decreases end_x - x + 1,
        {
            let mut y: i64 = start_y as i64;
            while y <= end_y as i64
                invariant
                    self.wf(),
                    chunk.wf(),
                    chunk.size == CHUNK_SIZE,
                    start_x <= x <= end_x,
                    start_y <= y <= end_y + 1,
                    forall|c: ChunkCoord| #[trigger] self.view().contains_key(c) == (old(self).view().contains_key(c) || (
                    start_x <= c.0 < x && start_y <= c.1 <= end_y) || (c.0 == x && start_y <= c.1 < y)),
                    forall|c: ChunkCoord| #[trigger] self.view().contains_key(c) ==> self.view()[c] == if (start_x <= c.0 < x
                        && start_y <= c.1 <= end_y) || (c.0 == x && start_y <= c.1 < y) {
                        chunk.samples()
                    } else {
                        old(self).view()[c]
                    },
                decreases end_y - y + 1,
            {
                self.set_chunk((x as i32, y as i32), chunk.copy());
                y = y + 1;
            }
            x = x + 1;
        }
    }
}

/// The sum of `2^1` to `2^x`: where the demo layout puts the centre of its
/// `x`-th circle.
pub open spec fn pattern_width_spec(x: nat) -> int
    decreases x,
{
    if x == 0 {
        0
    } else {
        vstd::arithmetic::power2::pow2(x) + pattern_width_spec((x - 1) as nat)
    }
}

/// The demo layout's sum in closed form.
pub proof fn lemma_pattern_width_closed(x: nat)
    ensures
        pattern_width_spec(x) == vstd::arithmetic::power2::pow2(x + 1) - 2,
    decreases x,
{
    vstd::arithmetic::power2::lemma_pow2_unfold(x + 1);
    if x > 0 {
        lemma_pattern_width_closed((x - 1) as nat);
    } else {
        vstd::arithmetic::power2::lemma2_to64();
    }
}

/// `2^x`.
fn two_to(x: u32) -> (r: i32)
    requires
        x <= 30,
    ensures
        r == vstd::arithmetic::power2::pow2(x as nat),
{
    proof {
        vstd::arithmetic::power2::lemma2_to64();
        vstd::arithmetic::power2::lemma_pow2_strictly_increases(x as nat, 31);
    }
    let mut r: i32 = 1;
    let mut i: u32 = 0;
    while i < x
        invariant
            i <= x <= 30,
            r == vstd::arithmetic::power2::pow2(i as nat),
            vstd::arithmetic::power2::pow2(31) == 0x8000_0000,
        decreases x - i,
    {
        proof {
            vstd::arithmetic::power2::lemma_pow2_unfold(i as nat + 1);
            vstd::arithmetic::power2::lemma_pow2_strictly_increases(i as nat + 1, 31);
        }
        r = r * 2;
        i = i + 1;
    }
    r
}

/// The sum of `2^1` to `2^x`, that is `2^(x + 1) - 2`.
pub fn pattern_width(x: i32) -> (r: i32)
    requires
        0 <= x <= 29,
    ensures
        r == pattern_width_spec(x as nat),
        r == vstd::arithmetic::power2::pow2(x as nat + 1) - 2,
    decreases x,
{
    proof {
        lemma_pattern_width_closed(x as nat);
        vstd::arithmetic::power2::lemma2_to64();
        vstd::arithmetic::power2::lemma_pow2_strictly_increases(x as nat + 1, 31);
    }
    if x == 0 {
        return 0;
    }
    let rest = pattern_width(x - 1);
    proof {
        lemma_pattern_width_closed((x - 1) as nat);
    }
    two_to(x as u32) + rest
}
} // verus!
