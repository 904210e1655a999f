//! A sparse, effectively infinite 2D density field split into square chunks,
//! and its conversion into triangle meshes by marching squares.
//!
//! All quantities are fixed-point integers: a sample holds `SAMPLE_ONE` for
//! "fully empty" and lower values for "filled", and every length (paint
//! positions, radii, mesh coordinates) is measured in thousandths of the
//! spacing between two samples.
//!
//! One convention holds throughout. A chunk's samples are `data[x][y]`, with
//! `x` growing eastward and `y` southward, so `data[0]` is the western
//! column. A cell's corners are `a` (north-west), `b` (north-east), `c`
//! (south-east) and `d` (south-west). Mesh coordinates are `(x, y, z)` in the
//! same orientation, and chunk `(cx, cy)` covers plane positions from
//! `(cx, cy) * 32000` on.

pub mod chunk;
pub mod mesh;
pub mod square_march;
pub mod weld;
pub mod plane;
