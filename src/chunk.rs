use vstd::prelude::*;

verus! {

/// The sample value of a fully empty point of the field.
pub const SAMPLE_ONE: u32 = 1000;

/// Fixed-point units per sample spacing.
pub const UNIT: i64 = 1000;

/// Side length, in samples, of the chunks that a plane holds.
pub const CHUNK_SIZE: usize = 32;

/// Largest absolute paint coordinate or radius accepted, in fixed-point units.
pub const MAX_PAINT_COORD: i64 = 0x100_0000_0000;

/// Largest chunk side that can be painted.
pub const MAX_PAINT_SIZE: usize = 0x10_0000;

/// Whether `s` is the integer square root of `n`, rounded down.
pub open spec fn is_floor_sqrt(n: int, s: int) -> bool {
    0 <= s && s * s <= n && n < (s + 1) * (s + 1)
}

/// The integer square root of `n`, rounded down.
pub open spec fn floor_sqrt(n: int) -> int {
    choose|s: int| is_floor_sqrt(n, s)
}

/// A square root rounded down is unique.
pub proof fn lemma_floor_sqrt_unique(n: int, s: int)
    requires
        is_floor_sqrt(n, s),
    ensures
        floor_sqrt(n) == s,
{
    let t = floor_sqrt(n);
    assert(is_floor_sqrt(n, t));
    if t < s {
        assert((t + 1) * (t + 1) <= s * s) by (nonlinear_arith)
            requires 0 <= t, t + 1 <= s;
    } else if s < t {
        assert((s + 1) * (s + 1) <= t * t) by (nonlinear_arith)
            requires 0 <= s, s + 1 <= t;
    }
}

/// Integer square root, rounded down, by bisection.
pub fn isqrt(n: u128) -> (r: u128)
    requires
        n < 0x1_0000_0000_0000_0000_0000_0000,
    ensures
        is_floor_sqrt(n as int, r as int),
        r as int == floor_sqrt(n as int),
        r < 0x1_0000_0000_0000,
{
    let mut lo: u128 = 0;
    let mut hi: u128 = 0x1_0000_0000_0000;
    assert(n < hi * hi) by (nonlinear_arith)
        requires n < 0x1_0000_0000_0000_0000_0000_0000, hi == 0x1_0000_0000_0000;
    while hi - lo > 1
        invariant
            lo < hi <= 0x1_0000_0000_0000,
            lo * lo <= n,
            n < hi * hi,
        decreases hi - lo,
    {
        let mid: u128 = lo + (hi - lo) / 2;
        assert(mid * mid <= 0x1_0000_0000_0000 * 0x1_0000_0000_0000) by (nonlinear_arith)
            requires mid <= 0x1_0000_0000_0000;
        if mid * mid <= n {
            lo = mid;
        } else {
            hi = mid;
        }
    }
    proof {
        lemma_floor_sqrt_unique(n as int, lo as int);
    }
    lo
}

/// The value painted at squared distance `d2` from the centre of a circle of
/// radius `r`: one unit of antialiasing falloff at the rim, zero inside.
pub open spec fn paint_alpha(d2: int, r: int) -> int {
    let a = SAMPLE_ONE as int - vstd::math::abs(floor_sqrt(d2) - r);
    if a < 0 { 0 } else { a }
}

/// The sample that `old` becomes at point `(px, py)` when a circle of radius
/// `r` centred at `(cx, cy)` is painted over it.
pub open spec fn painted(old: u32, px: int, py: int, cx: int, cy: int, r: int) -> u32 {
    let d2 = (px - cx) * (px - cx) + (py - cy) * (py - cy);
    if d2 <= r * r {
        let a = paint_alpha(d2, r);
        if a < old as int { a as u32 } else { old }
    } else {
        old
    }
}

/// The strip of samples that a neighbour borrows from a chunk with samples
/// `s`: direction 0 is the western column (`s[0]`), direction 1 the northern
/// row (one sample per column), direction 2 the north-west corner sample.
pub open spec fn edge_of(s: Seq<Seq<u32>>, dir: i32) -> Seq<Seq<u32>> {
    if dir == 0 {
        seq![s[0]]
    } else if dir == 1 {
        Seq::new(s.len(), |x: int| seq![s[x][0]])
    } else if dir == 2 {
        seq![seq![s[0][0]]]
    } else {
        Seq::empty()
    }
}

/// Whether `block`, placed with its `[0][0]` at `(xo, yo)`, lies within a
/// grid of side `size`.
pub open spec fn block_fits(block: Seq<Seq<u32>>, xo: int, yo: int, size: int) -> bool {
    &&& xo + block.len() <= size
    &&& forall|x: int| 0 <= x < block.len() ==> yo + #[trigger] block[x].len() <= size
}

/// Whether `(x, y)` is covered by `block` placed with its `[0][0]` at `(xo, yo)`.
pub open spec fn in_block(block: Seq<Seq<u32>>, xo: int, yo: int, x: int, y: int) -> bool {
    xo <= x < xo + block.len() && yo <= y < yo + block[x - xo].len()
}

/// The samples `s` with `block` written over them at `(xo, yo)`.
pub open spec fn blit(s: Seq<Seq<u32>>, block: Seq<Seq<u32>>, xo: int, yo: int) -> Seq<Seq<u32>> {
    Seq::new(
        s.len(),
        |x: int|
            Seq::new(
                s[x].len(),
                |y: int|
                    if in_block(block, xo, yo, x, y) {
                        block[x - xo][y - yo]
                    } else {
                        s[x][y]
                    },
            ),
    )
}

/// Samples `s` after painting a circle of radius `r` centred at `(cx, cy)`.
pub open spec fn paint_grid(s: Seq<Seq<u32>>, cx: int, cy: int, r: int) -> Seq<Seq<u32>> {
    Seq::new(s.len(), |i: int| Seq::new(s[i].len(), |j: int| painted(s[i][j], i * UNIT, j * UNIT, cx, cy, r)))
}

/// Samples `s` after painting each circle `(cx, cy, r)` of `circles` in turn.
pub open spec fn paint_all(s: Seq<Seq<u32>>, circles: Seq<(int, int, int)>) -> Seq<Seq<u32>>
    decreases circles.len(),
{
    if circles.len() == 0 {
        s
    } else {
        let c = circles.last();
        paint_grid(paint_all(s, circles.drop_last()), c.0, c.1, c.2)
    }
}

/// Painting never raises a sample: after any sequence of circles, every
/// sample is at most what it was before.
pub proof fn lemma_painting_never_raises(s: Seq<Seq<u32>>, circles: Seq<(int, int, int)>)
    ensures
        paint_all(s, circles).len() == s.len(),
        forall|i: int| 0 <= i < s.len() ==> (#[trigger] paint_all(s, circles)[i]).len() == s[i].len(),
        forall|i: int, j: int|
            0 <= i < s.len() && 0 <= j < s[i].len() ==> #[trigger] paint_all(s, circles)[i][j] <= s[i][j],
    decreases circles.len(),
{
    if circles.len() > 0 {
        lemma_painting_never_raises(s, circles.drop_last());
        let prev = paint_all(s, circles.drop_last());
        assert forall|i: int, j: int| 0 <= i < s.len() && 0 <= j < s[i].len() implies #[trigger] paint_all(
            s,
            circles,
        )[i][j] <= s[i][j] by {
            assert(prev[i].len() == s[i].len());
            assert(prev[i][j] <= s[i][j]);
        }
    }
}

/// An `n` by `n` grid of fully empty samples.
pub open spec fn empty_grid(n: int) -> Seq<Seq<u32>> {
    Seq::new(n as nat, |x: int| Seq::new(n as nat, |y: int| SAMPLE_ONE))
}

/// A square grid of samples. `data[x][y]` is the sample at column `x`
/// (growing eastward) and row `y` (growing southward); `data[0]` is the
/// chunk's western edge.
#[derive(Clone, Debug)]
pub struct Chunk {
    pub data: Vec<Vec<u32>>,
    pub size: usize,
}

impl Chunk {
    /// The samples, as `samples()[x][y]`.
    pub open spec fn samples(&self) -> Seq<Seq<u32>> {
        self.data@.map_values(|row: Vec<u32>| row@)
    }

    /// Every column holds `size` samples and there are `size` columns.
    pub open spec fn wf(&self) -> bool {
        &&& self.data@.len() == self.size
        &&& forall|x: int| 0 <= x < self.size ==> #[trigger] self.data@[x]@.len() == self.size
    }

    /// A chunk of `size` by `size` samples, all fully empty.
    pub fn new(size: usize) -> (r: Self)
        ensures
            r.wf(),
            r.size == size,
            r.samples() == empty_grid(size as int),
    {
        let mut data: Vec<Vec<u32>> = Vec::new();
        let mut x: usize = 0;
        while x < size
            invariant
                x <= size,
                data@.len() == x,
                forall|i: int| 0 <= i < x ==> #[trigger] data@[i]@.len() == size,
                forall|i: int, j: int|
                    0 <= i < x && 0 <= j < size ==> #[trigger] data@[i]@[j] == SAMPLE_ONE,
            decreases size - x,
        {
            let mut row: Vec<u32> = Vec::new();
            let mut y: usize = 0;
            while y < size
                invariant
                    y <= size,
                    row@.len() == y,
                    forall|j: int| 0 <= j < y ==> #[trigger] row@[j] == SAMPLE_ONE,
                decreases size - y,
            {
                row.push(SAMPLE_ONE);
                y = y + 1;
            }
            data.push(row);
            x = x + 1;
        }
        let r = Chunk { data, size };
        assert forall|i: int| 0 <= i < size implies r.samples()[i] =~= empty_grid(size as int)[i] by {}
        assert(r.samples() =~= empty_grid(size as int));
        r
    }


    /// The strip of samples in direction `dir` (see `edge_of`).
    pub fn get_edge(&self, dir: i32) -> (r: Vec<Vec<u32>>)
        requires
            self.wf(),
            self.size > 0,
        ensures
            r@.map_values(|row: Vec<u32>| row@) == edge_of(self.samples(), dir),
    {
        let mut r: Vec<Vec<u32>> = Vec::new();
        if dir == 0 {
            r.push(self.data[0].clone());
            assert(r@[0]@ =~= self.data@[0]@);
            assert(r@.map_values(|row: Vec<u32>| row@) =~= edge_of(self.samples(), dir));
        } else if dir == 1 {
            let mut x: usize = 0;
            while x < self.size
                invariant
                    self.wf(),
                    self.size > 0,
                    x <= self.size,
                    r@.len() == x,
                    forall|i: int| 0 <= i < x ==> #[trigger] r@[i]@ == seq![self.data@[i]@[0]],
                decreases self.size - x,
            {
                let v: Vec<u32> = vec![self.data[x][0]];
                r.push(v);
                x = x + 1;
            }
            assert forall|i: int| 0 <= i < self.size implies r@.map_values(|row: Vec<u32>| row@)[i] =~= edge_of(self.samples(), dir)[i] by {
                assert(self.samples()[i] == self.data@[i]@);
            }
            assert(r@.map_values(|row: Vec<u32>| row@) =~= edge_of(self.samples(), dir));
        } else if dir == 2 {
            let v: Vec<u32> = vec![self.data[0][0]];
            r.push(v);
            assert(r@.map_values(|row: Vec<u32>| row@)[0] =~= edge_of(self.samples(), dir)[0]);
            assert(r@.map_values(|row: Vec<u32>| row@) =~= edge_of(self.samples(), dir));
        } else {
            assert(r@.map_values(|row: Vec<u32>| row@) =~= edge_of(self.samples(), dir));
        }
        r
    }

    /// Writes `block` over the samples, with `block[0][0]` landing at
    /// `(x_offset, y_offset)`. The block must lie within the chunk.
    pub fn add_data(&mut self, block: &Vec<Vec<u32>>, x_offset: usize, y_offset: usize)
        requires
            old(self).wf(),
            block_fits(block@.map_values(|row: Vec<u32>| row@), x_offset as int, y_offset as int, old(self).size as int),
        ensures
            final(self).wf(),
            final(self).size == old(self).size,
            final(self).samples() == blit(
                old(self).samples(),
                block@.map_values(|row: Vec<u32>| row@),
                x_offset as int,
                y_offset as int,
            ),
    {
        let ghost b = block@.map_values(|row: Vec<u32>| row@);
        let ghost s0 = self.samples();
        let ghost target = blit(s0, b, x_offset as int, y_offset as int);
        let mut x: usize = 0;
        while x < block.len()
            invariant
                self.wf(),
                self.size == old(self).size,
                s0 == old(self).samples(),
                b == block@.map_values(|row: Vec<u32>| row@),
                target == blit(s0, b, x_offset as int, y_offset as int),
                block_fits(b, x_offset as int, y_offset as int, self.size as int),
                s0.len() == self.size,
                forall|i: int| 0 <= i < self.size ==> (#[trigger] s0[i]).len() == self.size,
                x <= block@.len(),
                forall|i: int| 0 <= i < self.size ==> (#[trigger] self.samples()[i]) == if x_offset <= i < x_offset + x {
                    target[i]
                } else {
                    s0[i]
                },
            decreases block@.len() - x,
        {
            let cx: usize = x + x_offset;
            let mut row: Vec<u32> = self.data[cx].clone();
            assert(row@ =~= self.data@[cx as int]@);
            let ghost row0 = row@;
            assert(self.samples()[cx as int] == self.data@[cx as int]@);
            assert(b[x as int] == block@[x as int]@);
            let mut y: usize = 0;
            while y < block[x].len()
                invariant
                    row@.len() == self.size,
                    row0 == s0[cx as int],
                    row0.len() == self.size,
                    b == block@.map_values(|row: Vec<u32>| row@),
                    block_fits(b, x_offset as int, y_offset as int, self.size as int),
                    0 <= x < block@.len(),
                    cx == x + x_offset,
                    y <= block@[x as int]@.len(),
                    forall|j: int| 0 <= j < self.size ==> #[trigger] row@[j] == if y_offset <= j < y_offset + y {
                        b[x as int][j - y_offset]
                    } else {
                        row0[j]
                    },
                decreases block@[x as int]@.len() - y,
            {
                assert(b[x as int].len() == block@[x as int]@.len());
                row.set(y + y_offset, block[x][y]);
                y = y + 1;
            }
            assert(row@ =~= target[cx as int]);
            let ghost prev = self.samples();
            self.data.set(cx, row);
            x = x + 1;
            assert forall|i: int| 0 <= i < self.size implies (#[trigger] self.samples()[i]) == if x_offset <= i < x_offset + x {
                target[i]
            } else {
                s0[i]
            } by {
                assert(self.samples()[i] == self.data@[i]@);
                if i != cx {
                    assert(prev[i] == self.data@[i]@);
                }
            }
        }
        assert forall|i: int| 0 <= i < self.size && !(x_offset <= i < x_offset + block@.len()) implies target[i] == s0[i] by {
            assert(target[i] =~= s0[i]);
        }
        assert(self.samples() =~= target);
    }

    /// Paints an antialiased filled circle of radius `radius` centred at
    /// `(x, y)` (fixed-point units, sample `[i][j]` standing at
    /// `(i * UNIT, j * UNIT)`). Each sample within the circle becomes the
    /// smaller of itself and the falloff value `paint_alpha`, so painting
    /// never raises a sample.
    pub fn paint_antialiased_filled_circle(&mut self, x: i64, y: i64, radius: i64)
        requires
            old(self).wf(),
            old(self).size <= MAX_PAINT_SIZE,
            -MAX_PAINT_COORD <= x <= MAX_PAINT_COORD,
            -MAX_PAINT_COORD <= y <= MAX_PAINT_COORD,
            -MAX_PAINT_COORD <= radius <= MAX_PAINT_COORD,
        ensures
            final(self).wf(),
            final(self).size == old(self).size,
            final(self).samples() == paint_grid(old(self).samples(), x as int, y as int, radius as int),
            forall|i: int, j: int|
                0 <= i < old(self).size && 0 <= j < old(self).size ==> #[trigger] final(self).samples()[i][j]
                    <= old(self).samples()[i][j],
    {
        let ghost s0 = self.samples();
        let r: i128 = radius as i128;
        assert(0 <= r * r <= 0x1_0000_0000_0000_0000_0000) by (nonlinear_arith)
            requires -0x100_0000_0000 <= r <= 0x100_0000_0000;
        let r2: i128 = r * r;
        let mut i: usize = 0;
        while i < self.size
            invariant
                self.wf(),
                self.size == old(self).size,
                self.size <= MAX_PAINT_SIZE,
                s0 == old(self).samples(),
                s0.len() == self.size,
                forall|k: int| 0 <= k < self.size ==> (#[trigger] s0[k]).len() == self.size,
                r == radius,
                r2 == r * r,
                -MAX_PAINT_COORD <= x <= MAX_PAINT_COORD,
                -MAX_PAINT_COORD <= y <= MAX_PAINT_COORD,
                -MAX_PAINT_COORD <= radius <= MAX_PAINT_COORD,
                i <= self.size,
                forall|a: int, b: int|
                    0 <= a < self.size && 0 <= b < self.size ==> #[trigger] self.samples()[a][b] == if a < i {
                        painted(s0[a][b], a * UNIT, b * UNIT, x as int, y as int, radius as int)
                    } else {
                        s0[a][b]
                    },
            decreases self.size - i,
        {
            let mut row: Vec<u32> = self.data[i].clone();
            assert(row@ =~= self.data@[i as int]@);
            assert(self.samples()[i as int] == self.data@[i as int]@);
            let ghost row0 = row@;
            assert((i as int) * 1000 <= 0x10_0000 * 1000) by (nonlinear_arith)
                requires i <= 0x10_0000;
            let dx: i128 = (i as i128) * (UNIT as i128) - (x as i128);
            let mut j: usize = 0;
            while j < self.size
                invariant
                    row@.len() == self.size,
                    self.size <= MAX_PAINT_SIZE,
                    i < self.size,
                    s0.len() == self.size,
                    row0 == s0[i as int],
                    row0.len() == self.size,
                    dx == i * UNIT - x,
                    r == radius,
                    r2 == r * r,
                    -MAX_PAINT_COORD <= x <= MAX_PAINT_COORD,
                    -MAX_PAINT_COORD <= y <= MAX_PAINT_COORD,
                    -MAX_PAINT_COORD <= radius <= MAX_PAINT_COORD,
                    j <= self.size,
                    forall|b: int| 0 <= b < self.size ==> #[trigger] row@[b] == if b < j {
                        painted(row0[b], i * UNIT, b * UNIT, x as int, y as int, radius as int)
                    } else {
                        row0[b]
                    },
                decreases self.size - j,
            {
                assert((j as int) * 1000 <= 0x10_0000 * 1000) by (nonlinear_arith)
                    requires j <= 0x10_0000;
                let dy: i128 = (j as i128) * (UNIT as i128) - (y as i128);
                assert(dx * dx <= 0x4_0000_0000_0000_0000_0000) by (nonlinear_arith)
                    requires -0x200_0000_0000 <= dx <= 0x200_0000_0000;
                assert(dy * dy <= 0x4_0000_0000_0000_0000_0000) by (nonlinear_arith)
                    requires -0x200_0000_0000 <= dy <= 0x200_0000_0000;
                assert(0 <= dx * dx && 0 <= dy * dy) by (nonlinear_arith);
                let d2: i128 = dx * dx + dy * dy;
                let old_v: u32 = row[j];
                if d2 <= r2 {
                    let s: u128 = isqrt(d2 as u128);
                    let dist: i128 = s as i128;
                    let diff: i128 = if dist >= r { dist - r } else { r - dist };
                    let a: i128 = if diff >= SAMPLE_ONE as i128 { 0 } else { SAMPLE_ONE as i128 - diff };
                    if a < old_v as i128 {
                        row.set(j, a as u32);
                    }
                }
                j = j + 1;
            }
            assert forall|b: int| 0 <= b < self.size implies #[trigger] row@[b] == painted(
                s0[i as int][b],
                i * UNIT,
                b * UNIT,
                x as int,
                y as int,
                radius as int,
            ) by {}
            let ghost prev = self.samples();
            self.data.set(i, row);
            i = i + 1;
            assert forall|a: int, b: int|
                0 <= a < self.size && 0 <= b < self.size implies #[trigger] self.samples()[a][b] == if a < i {
                    painted(s0[a][b], a * UNIT, b * UNIT, x as int, y as int, radius as int)
                } else {
                    s0[a][b]
                } by {
                assert(self.samples()[a] == self.data@[a]@);
                if a != i - 1 {
                    assert(prev[a] == self.data@[a]@);
                }
            }
        }
        assert forall|a: int| 0 <= a < self.size implies self.samples()[a] =~= paint_grid(s0, x as int, y as int, radius as int)[a] by {
            assert(self.samples()[a] == self.data@[a]@);
        }
        assert(self.samples() =~= paint_grid(s0, x as int, y as int, radius as int));
    }

    /// A copy of this chunk with the same samples.
    pub fn copy(&self) -> (r: Self)
        requires
            self.wf(),
        ensures
            r.wf(),
            r.size == self.size,
            r.samples() == self.samples(),
    {
        let mut data: Vec<Vec<u32>> = Vec::new();
        let mut x: usize = 0;
        while x < self.size
            invariant
                self.wf(),
                x <= self.size,
                data@.len() == x,
                forall|i: int| 0 <= i < x ==> #[trigger] data@[i]@ == self.data@[i]@,
            decreases self.size - x,
        {
            let row: Vec<u32> = self.data[x].clone();
            assert(row@ =~= self.data@[x as int]@);
            data.push(row);
            x = x + 1;
        }
        let r = Chunk { data, size: self.size };
        assert(r.samples() =~= self.samples());
        r
    }
}

} // verus!
