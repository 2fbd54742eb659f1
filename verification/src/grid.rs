//! The pixel store, a two-dimensional array of the `ndarray` crate.
//!
//! Verus does not look inside the array. What the canvas relies on is written
//! down here, in the contracts of four small functions that make the calls,
//! over two names for what the array holds.

use crate::colors::Color;
use vstd::prelude::*;

verus! {

/// An owned two-dimensional `ndarray` array of colours. The first index runs
/// over columns, the second over rows.
#[verifier::external_body]
#[derive(Debug)]
pub struct Grid {
    cells: ndarray::Array2<Color>,
}

/// The lengths of the array's two axes: columns, then rows.
pub uninterp spec fn grid_shape(g: Grid) -> (nat, nat);

/// The colours that the array holds, keyed by column and row.
pub uninterp spec fn grid_cells(g: Grid) -> Map<(int, int), Color>;

/// The bytes that one colour takes in memory.
pub const CELL_BYTES: usize = 24;

/// An array of `w` columns and `h` rows can be asked for: the product of its
/// axis lengths, zeros left out, and the bytes of its cells are both within
/// `isize::MAX`.
pub open spec fn allocatable(w: usize, h: usize) -> bool {
    &&& (if w == 0 {
        1
    } else {
        w as int
    }) * (if h == 0 {
        1
    } else {
        h as int
    }) <= isize::MAX
    &&& w * h * CELL_BYTES <= isize::MAX
}

/// Every pair of a column below `w` and a row below `h`, each mapped to black.
pub open spec fn blank(w: nat, h: nat) -> Map<(int, int), Color> {
    Map::new(|p: (int, int)| 0 <= p.0 < w && 0 <= p.1 < h, |p: (int, int)| Color::black())
}

/// Calls `ndarray::ArrayBase::default` with the shape `(w, h)`. It builds an
/// array of that shape whose every cell is `Color::default()`, and panics when
/// the product of the non-zero axis lengths, or the byte size of the buffer,
/// passes `isize::MAX`; `allocatable` leaves those shapes out.
#[verifier::external_body]
pub(crate) fn grid_new(w: usize, h: usize) -> (g: Grid)
    requires
        allocatable(w, h),
    ensures
        grid_shape(g) == (w as nat, h as nat),
        grid_cells(g) == blank(w as nat, h as nat),
{
    Grid { cells: ndarray::Array2::<Color>::default((w, h)) }
}

impl Clone for Grid {
    /// Calls `Clone::clone` of `ndarray::ArrayBase`, which gives an array of
    /// the same shape that holds a copy of each cell.
    #[verifier::external_body]
    fn clone(&self) -> (g: Grid)
        ensures
            grid_shape(g) == grid_shape(*self),
            grid_cells(g) == grid_cells(*self),
    {
        Grid { cells: self.cells.clone() }
    }
}

/// Calls `ndarray::ArrayBase::dim`, which returns the two axis lengths.
#[verifier::external_body]
pub(crate) fn grid_dim(g: &Grid) -> (d: (usize, usize))
    ensures
        (d.0 as nat, d.1 as nat) == grid_shape(*g),
{
    g.cells.dim()
}

/// Indexes the array with `[x, y]` (`Index::index` of `ndarray::ArrayBase`),
/// which returns the cell at that place and panics outside the shape.
#[verifier::external_body]
pub(crate) fn grid_get(g: &Grid, x: usize, y: usize) -> (c: Color)
    requires
        x < grid_shape(*g).0,
        y < grid_shape(*g).1,
    ensures
        c == grid_cells(*g)[(x as int, y as int)],
{
    g.cells[[x, y]]
}

/// Assigns through `[x, y]` (`IndexMut::index_mut` of `ndarray::ArrayBase`),
/// which replaces the cell at that place, leaves shape and other cells as
/// they were, and panics outside the shape.
#[verifier::external_body]
pub(crate) fn grid_set(g: &mut Grid, x: usize, y: usize, c: Color)
    requires
        x < grid_shape(*old(g)).0,
        y < grid_shape(*old(g)).1,
    ensures
        grid_shape(*final(g)) == grid_shape(*old(g)),
        grid_cells(*final(g)) == grid_cells(*old(g)).insert((x as int, y as int), c),
{
    g.cells[[x, y]] = c;
}

} // verus!
