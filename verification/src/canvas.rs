//! The canvas: a grid of colours of fixed size.

use crate::binary64::to_sample;
use crate::colors::Color;
use crate::decimal::{append_decimal, decimal, decimal_width, lemma_decimal_len_small};
use crate::ppm::{
    breaks, channel, cost, count_after, fed, header_lines, lemma_feed, lemma_row_text,
    lemma_unlines_concat, measure, packing, pixel_lines, ppm_text, row_lines, row_samples, spaced,
    texts, unlines, BREAK_AT,
};
use crate::grid::{allocatable, blank, grid_cells, grid_dim, grid_get, grid_new, grid_set, grid_shape, Grid};
use vstd::prelude::*;
use vstd::string::StringExecFns;

verus! {

/// What a canvas is to its contracts: its size and the colour of each cell,
/// keyed by column and row.
pub struct Raster {
    pub width: nat,
    pub height: nat,
    pub cells: Map<(int, int), Color>,
}

impl Raster {
    /// The black picture of the size given.
    pub open spec fn blank(width: nat, height: nat) -> Raster {
        Raster { width, height, cells: blank(width, height) }
    }

    /// The colour in column `x` and row `y`.
    pub open spec fn at(self, x: int, y: int) -> Color {
        self.cells[(x, y)]
    }

    /// The picture with the cell in column `x` and row `y` replaced by `c`.
    pub open spec fn written(self, x: int, y: int, c: Color) -> Raster {
        Raster { cells: self.cells.insert((x, y), c), ..self }
    }
}

/// A cell that was written holds what was written. Every other cell holds
/// what it held, and the size is what it was.
pub proof fn lemma_written_cell(r: Raster, x: int, y: int, c: Color, other_x: int, other_y: int)
    ensures
        r.written(x, y, c).at(x, y) == c,
        (other_x, other_y) != (x, y) ==> r.written(x, y, c).at(other_x, other_y) == r.at(
            other_x,
            other_y,
        ),
        r.written(x, y, c).width == r.width,
        r.written(x, y, c).height == r.height,
{
}

/// Every cell of a black picture is black.
pub proof fn lemma_blank_cell(width: nat, height: nat, x: int, y: int)
    requires
        0 <= x < width,
        0 <= y < height,
    ensures
        Raster::blank(width, height).at(x, y) == Color::black(),
{
}

/// A grid of `width` columns and `height` rows of colours.
#[derive(Debug)]
pub struct Canvas {
    pub width: usize,
    pub height: usize,
    pub data: Grid,
}

impl View for Canvas {
    type V = Raster;

    open spec fn view(&self) -> Raster {
        Raster {
            width: self.width as nat,
            height: self.height as nat,
            cells: grid_cells(self.data),
        }
    }
}

impl Clone for Canvas {
    /// A canvas of the same size with the same colours.
    fn clone(&self) -> (c: Canvas)
        ensures
            c@ == self@,
            c.wf() == self.wf(),
    {
        Canvas { width: self.width, height: self.height, data: self.data.clone() }
    }
}

impl Canvas {
    /// The pixel store has the size that the canvas states.
    pub open spec fn wf(&self) -> bool {
        grid_shape(self.data) == (self.width as nat, self.height as nat)
    }

    /// A black canvas of `w` columns and `h` rows.
    pub fn canvas(w: usize, h: usize) -> (c: Canvas)
        requires
            allocatable(w, h),
        ensures
            c.wf(),
            c@ == Raster::blank(w as nat, h as nat),
    {
        Canvas { width: w, height: h, data: grid_new(w, h) }
    }

    /// Whether the pixel store has the size that the canvas states. Code that
    /// sets the public fields itself can ask before it relies on `wf`.
    pub fn is_consistent(&self) -> (r: bool)
        ensures
            r == self.wf(),
    {
        let d = grid_dim(&self.data);
        d.0 == self.width && d.1 == self.height
    }

    /// Overwrites the cell in column `x` and row `y`; no other cell changes.
    pub fn write_pixel(&mut self, x: usize, y: usize, c: Color)
        requires
            old(self).wf(),
            x < old(self).width,
            y < old(self).height,
        ensures
            final(self).wf(),
            final(self)@ == old(self)@.written(x as int, y as int, c),
    {
        grid_set(&mut self.data, x, y, c);
    }

    /// The colour of the cell in column `x` and row `y`.
    pub fn pixel_at(&self, x: usize, y: usize) -> (c: Color)
        requires
            self.wf(),
            x < self.width,
            y < self.height,
        ensures
            c == self@.at(x as int, y as int),
    {
        grid_get(&self.data, x, y)
    }

    /// The picture as text: the header, then the rows from the top, the
    /// samples of each packed onto lines.
    pub fn to_ppm(&self) -> (text: String)
        requires
            self.wf(),
        ensures
            text@ == ppm_text(self@),
    {
        let mut s = String::new();
        s.append("P3\n");
        append_decimal(&mut s, self.width as u64);
        s.append(" ");
        append_decimal(&mut s, self.height as u64);
        s.append("\n");
        s.append("255\n");
        proof {
            reveal_strlit("P3\n");
            reveal_strlit(" ");
            reveal_strlit("\n");
            reveal_strlit("255\n");
            reveal_with_fuel(unlines, 4);
            reveal_with_fuel(decimal, 3);
            let head = header_lines(self@.width, self@.height);
            assert(head.drop_last().drop_last().drop_last() =~= Seq::<Seq<char>>::empty());
            assert(s@ =~= unlines(head));
            assert(head + pixel_lines(self@, 0) =~= head);
        }
        let mut y: usize = 0;
        while y < self.height
            invariant
                self.wf(),
                y <= self.height,
                s@ == unlines(header_lines(self@.width, self@.height) + pixel_lines(self@, y as nat)),
            decreases self.height - y,
        {
            let ghost samples = row_samples(self@, y as int);
            let ghost base = s@;
            let mut line_len: u32 = 0;
            let mut x: usize = 0;
            proof {
                assert(samples.take(0) =~= Seq::<u8>::empty());
                assert(texts(Seq::<Seq<u8>>::empty()) =~= Seq::<Seq<char>>::empty());
                assert(s@ =~= base + unlines(texts(packing(samples.take(0)).closed)) + spaced(
                    packing(samples.take(0)).open,
                ));
                if self.width == 0 {
                    assert(samples =~= Seq::<u8>::empty());
                    assert(s@ =~= base + unlines(row_lines(samples)));
                }
            }
            while x < self.width
                invariant
                    self.wf(),
                    y < self.height,
                    x <= self.width,
                    samples == row_samples(self@, y as int),
                    x < self.width ==> s@ == base + unlines(
                        texts(packing(samples.take(3 * x)).closed),
                    ) + spaced(packing(samples.take(3 * x)).open),
                    x < self.width ==> line_len == measure(packing(samples.take(3 * x)).open),
                    x < self.width ==> line_len < BREAK_AT,
                    x == self.width ==> s@ == base + unlines(row_lines(samples)),
                decreases self.width - x,
            {
                let c = self.pixel_at(x, y);
                let red = to_sample(c.red);
                let green = to_sample(c.green);
                let blue = to_sample(c.blue);
                proof {
                    assert(samples[3 * x] == red);
                    assert(samples[3 * x + 1] == green);
                    assert(samples[3 * x + 2] == blue);
                    lemma_decimal_len_small(red as nat);
                    lemma_decimal_len_small(green as nat);
                    lemma_decimal_len_small(blue as nat);
                    lemma_feed(samples, 3 * x, base, s@, line_len as nat);
                }
                s = fix_line(s, red, &mut line_len);
                proof {
                    lemma_feed(samples, 3 * x + 1, base, s@, line_len as nat);
                }
                s = fix_line(s, green, &mut line_len);
                if x + 1 < self.width {
                    proof {
                        lemma_feed(samples, 3 * x + 2, base, s@, line_len as nat);
                    }
                    s = fix_line(s, blue, &mut line_len);
                } else {
                    append_decimal(&mut s, blue as u64);
                    s.append("\n");
                    proof {
                        reveal_strlit("\n");
                        lemma_row_text(samples);
                        assert(samples.drop_last() =~= samples.take(3 * x + 2));
                        assert(s@ =~= base + unlines(row_lines(samples)));
                    }
                }
                x = x + 1;
            }
            proof {
                let head = header_lines(self@.width, self@.height);
                let above = pixel_lines(self@, y as nat);
                lemma_unlines_concat(head + above, row_lines(samples));
                assert(head + pixel_lines(self@, (y + 1) as nat) =~= (head + above) + row_lines(
                    samples,
                ));
            }
            y = y + 1;
        }
        s
    }
}

/// Puts the numeral of `v` behind `l`, and then a line break if the numeral
/// fills the line, else a space. `line_len` counts what stands on the line,
/// each numeral with its separator, and starts anew after a line break.
pub fn fix_line(l: String, v: u8, line_len: &mut u32) -> (r: String)
    requires
        *old(line_len) + cost(v) <= u32::MAX,
    ensures
        r@ == fed(l@, *old(line_len) as nat, v),
        *final(line_len) == count_after(*old(line_len) as nat, v),
{
    let ghost before = l@;
    let mut l = l;
    append_decimal(&mut l, v as u64);
    *line_len = *line_len + 1 + decimal_width(v as u64);
    if *line_len >= BREAK_AT {
        l.append("\n");
        *line_len = 0;
        proof {
            reveal_strlit("\n");
        }
    } else {
        l.append(" ");
        proof {
            reveal_strlit(" ");
        }
    }
    assert(l@ =~= fed(before, *old(line_len) as nat, v));
    l
}

} // verus!
