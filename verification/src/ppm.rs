//! The plain-text raster format.
//!
//! A picture is written as three header lines (the format's name, the size,
//! the largest sample) and then, row by row from the top, the samples of each
//! pixel as decimal numerals. The numerals of a row are packed onto lines: a
//! line is closed as soon as the count of its numerals, with one separator for
//! each, reaches `BREAK_AT`, and the end of a row closes the line that is open.
//! This module says what that text is; `Canvas::to_ppm` produces it.

use crate::binary64::{
    at_least_one, at_most_zero, lemma_sample_at_least_one, lemma_sample_at_most_zero, sample,
};
use crate::canvas::Raster;
use crate::colors::Color;
use crate::decimal::{
    decimal, is_digit, lemma_decimal_is_digits, lemma_decimal_len_small, lemma_decimal_len_u64,
    lemma_digit_is_no_blank,
};
use vstd::prelude::*;

verus! {

/// A line is closed once its count reaches this.
pub const BREAK_AT: u32 = 68;

/// No line of the text is longer than this.
pub const MAX_LINE: usize = 70;

/// The largest sample, as the header states it.
pub const MAX_SAMPLE: u8 = 255;

/// What one numeral adds to the count of its line: its digits and one
/// separator.
pub open spec fn cost(v: u8) -> nat {
    decimal(v as nat).len() + 1
}

/// The count of a line: the cost of each numeral on it.
pub open spec fn measure(line: Seq<u8>) -> nat
    decreases line.len(),
{
    if line.len() == 0 {
        0
    } else {
        measure(line.drop_last()) + cost(line.last())
    }
}

/// The numerals of `line`, each followed by one space.
pub open spec fn spaced(line: Seq<u8>) -> Seq<char>
    decreases line.len(),
{
    if line.len() == 0 {
        Seq::empty()
    } else {
        spaced(line.drop_last()) + decimal(line.last() as nat).push(' ')
    }
}

/// The text of a line: its numerals with single spaces between them.
pub open spec fn joined(line: Seq<u8>) -> Seq<char>
    decreases line.len(),
{
    if line.len() == 0 {
        Seq::empty()
    } else if line.len() == 1 {
        decimal(line[0] as nat)
    } else {
        joined(line.drop_last()).push(' ') + decimal(line.last() as nat)
    }
}

/// The numeral of `v` fills a line whose count stands at `line_len`.
pub open spec fn breaks(line_len: nat, v: u8) -> bool {
    line_len + cost(v) >= BREAK_AT
}

/// The text `text` with the numeral of `v` and its separator behind it: a line
/// break if the numeral fills the line, else a space.
pub open spec fn fed(text: Seq<char>, line_len: nat, v: u8) -> Seq<char> {
    text + decimal(v as nat).push(
        if breaks(line_len, v) {
            '\n'
        } else {
            ' '
        },
    )
}

/// The count after the numeral of `v`: none on a fresh line, else what the
/// numeral has added.
pub open spec fn count_after(line_len: nat, v: u8) -> nat {
    if breaks(line_len, v) {
        0
    } else {
        line_len + cost(v)
    }
}

/// Samples on their way onto lines: the lines already closed, and the
/// samples of the line that is open.
pub struct Packing {
    pub closed: Seq<Seq<u8>>,
    pub open: Seq<u8>,
}

/// Puts one more sample on the open line, and closes the line if that fills it.
pub open spec fn pack_one(p: Packing, v: u8) -> Packing {
    let line = p.open.push(v);
    if measure(line) >= BREAK_AT {
        Packing { closed: p.closed.push(line), open: Seq::empty() }
    } else {
        Packing { closed: p.closed, open: line }
    }
}

/// The samples packed one after the other, from no lines at all.
pub open spec fn packing(samples: Seq<u8>) -> Packing
    decreases samples.len(),
{
    if samples.len() == 0 {
        Packing { closed: Seq::empty(), open: Seq::empty() }
    } else {
        pack_one(packing(samples.drop_last()), samples.last())
    }
}

/// The lines of one row: its samples packed, and the open line closed.
pub open spec fn packed(samples: Seq<u8>) -> Seq<Seq<u8>> {
    let p = packing(samples);
    if p.open.len() == 0 {
        p.closed
    } else {
        p.closed.push(p.open)
    }
}

/// The text of each line.
pub open spec fn texts(lines: Seq<Seq<u8>>) -> Seq<Seq<char>> {
    lines.map_values(|line: Seq<u8>| joined(line))
}

/// The text lines of one row.
pub open spec fn row_lines(samples: Seq<u8>) -> Seq<Seq<char>> {
    texts(packed(samples))
}

/// The lines one after the other, each ended by a line break.
pub open spec fn unlines(lines: Seq<Seq<char>>) -> Seq<char>
    decreases lines.len(),
{
    if lines.len() == 0 {
        Seq::empty()
    } else {
        unlines(lines.drop_last()) + lines.last().push('\n')
    }
}

/// One of the three channels of a colour: 0 is red, 1 green, 2 blue.
pub open spec fn channel(c: Color, k: int) -> u64 {
    if k == 0 {
        c.red
    } else if k == 1 {
        c.green
    } else {
        c.blue
    }
}

/// The samples of row `y`, from the left: red, green and blue of each pixel.
pub open spec fn row_samples(r: Raster, y: int) -> Seq<u8> {
    Seq::new(3 * r.width, |i: int| sample(channel(r.cells[(i / 3, y)], i % 3)) as u8)
}

/// The three lines that come first: the format's name, width and height, and
/// the largest sample.
pub open spec fn header_lines(width: nat, height: nat) -> Seq<Seq<char>> {
    seq![
        seq!['P', '3'],
        decimal(width).push(' ') + decimal(height),
        decimal(MAX_SAMPLE as nat),
    ]
}

/// The text lines of the first `rows` rows.
pub open spec fn pixel_lines(r: Raster, rows: nat) -> Seq<Seq<char>>
    decreases rows,
{
    if rows == 0 {
        Seq::empty()
    } else {
        pixel_lines(r, (rows - 1) as nat) + row_lines(row_samples(r, rows - 1))
    }
}

/// All lines of the picture's text.
pub open spec fn ppm_lines(r: Raster) -> Seq<Seq<char>> {
    header_lines(r.width, r.height) + pixel_lines(r, r.height)
}

/// The picture's text.
pub open spec fn ppm_text(r: Raster) -> Seq<char> {
    unlines(ppm_lines(r))
}

/// Lines written one after the other: the text of the first, then the text of
/// the second.
pub proof fn lemma_unlines_concat(a: Seq<Seq<char>>, b: Seq<Seq<char>>)
    ensures
        unlines(a + b) == unlines(a) + unlines(b),
    decreases b.len(),
{
    if b.len() == 0 {
        assert(a + b =~= a);
        assert(unlines(a) + unlines(b) =~= unlines(a));
    } else {
        lemma_unlines_concat(a, b.drop_last());
        assert((a + b).drop_last() =~= a + b.drop_last());
        assert((a + b).last() == b.last());
        assert(unlines(a + b) =~= unlines(a) + unlines(b));
    }
}

/// A line's text is the numerals before its last, each with its space, and
/// then the last numeral.
pub proof fn lemma_joined_is_spaced(line: Seq<u8>)
    requires
        line.len() > 0,
    ensures
        joined(line) == spaced(line.drop_last()) + decimal(line.last() as nat),
        spaced(line) == joined(line).push(' '),
    decreases line.len(),
{
    if line.len() == 1 {
        assert(line.drop_last().len() == 0);
        assert(joined(line) =~= spaced(line.drop_last()) + decimal(line.last() as nat));
    } else {
        lemma_joined_is_spaced(line.drop_last());
    }
    assert(spaced(line) =~= joined(line).push(' '));
}

/// Packing one sample more than a prefix packs the prefix, then the sample.
pub proof fn lemma_packing_step(samples: Seq<u8>, k: int)
    requires
        0 <= k < samples.len(),
    ensures
        packing(samples.take(k + 1)) == pack_one(packing(samples.take(k)), samples[k]),
{
    assert(samples.take(k + 1).drop_last() =~= samples.take(k));
}

/// The text of the lines of a row, from the packing of all its samples but
/// the last: the closed lines, then the open line with the last sample.
pub proof fn lemma_row_text(samples: Seq<u8>)
    requires
        samples.len() > 0,
    ensures
        unlines(row_lines(samples)) == unlines(texts(packing(samples.drop_last()).closed)) + spaced(
            packing(samples.drop_last()).open,
        ) + decimal(samples.last() as nat).push('\n'),
{
    let before = packing(samples.drop_last());
    let line = before.open.push(samples.last());
    assert(packed(samples) =~= before.closed.push(line)) by {
        lemma_measure_positive(line);
    }
    lemma_texts_push(before.closed, line);
    lemma_joined_is_spaced(line);
    assert(line.drop_last() =~= before.open);
    assert(joined(line).push('\n') =~= spaced(before.open) + decimal(samples.last() as nat).push(
        '\n',
    ));
}

/// One numeral fed to the text keeps the text in step with the packing of the
/// samples: behind `base` stand the closed lines and the open line, each numeral
/// of it with its space, and the count is that of the open line.
pub proof fn lemma_feed(samples: Seq<u8>, k: int, base: Seq<char>, text: Seq<char>, line_len: nat)
    requires
        0 <= k < samples.len(),
        text == base + unlines(texts(packing(samples.take(k)).closed)) + spaced(
            packing(samples.take(k)).open,
        ),
        line_len == measure(packing(samples.take(k)).open),
    ensures
        fed(text, line_len, samples[k]) == base + unlines(
            texts(packing(samples.take(k + 1)).closed),
        ) + spaced(packing(samples.take(k + 1)).open),
        count_after(line_len, samples[k]) == measure(packing(samples.take(k + 1)).open),
        count_after(line_len, samples[k]) < BREAK_AT,
{
    let p = packing(samples.take(k));
    let q = packing(samples.take(k + 1));
    let v = samples[k];
    let line = p.open.push(v);
    lemma_packing_step(samples, k);
    assert(line.drop_last() =~= p.open);
    assert(measure(line) == line_len + cost(v));
    if breaks(line_len, v) {
        lemma_texts_push(p.closed, line);
        lemma_joined_is_spaced(line);
        assert(fed(text, line_len, v) =~= base + unlines(texts(q.closed)) + spaced(q.open));
    } else {
        assert(fed(text, line_len, v) =~= base + unlines(texts(q.closed)) + spaced(q.open));
    }
}

/// The texts of lines and one more: the texts of the lines, and the text of
/// the one.
pub proof fn lemma_texts_push(lines: Seq<Seq<u8>>, line: Seq<u8>)
    ensures
        texts(lines.push(line)) == texts(lines).push(joined(line)),
        unlines(texts(lines.push(line))) == unlines(texts(lines)) + joined(line).push('\n'),
{
    assert(texts(lines.push(line)) =~= texts(lines).push(joined(line)));
    assert(texts(lines).push(joined(line)).drop_last() =~= texts(lines));
}

/// A line that holds a numeral has a count of two or more.
pub proof fn lemma_measure_positive(line: Seq<u8>)
    requires
        line.len() > 0,
    ensures
        measure(line) >= 2,
{
    crate::decimal::lemma_decimal_is_digits(line.last() as nat);
}

/// The line holds a numeral, and was not full before its last numeral came.
pub open spec fn fits(line: Seq<u8>) -> bool {
    line.len() > 0 && measure(line.drop_last()) < BREAK_AT
}

/// The line's count has reached the mark at which a line is closed.
pub open spec fn full(line: Seq<u8>) -> bool {
    measure(line) >= BREAK_AT
}

/// A line of text as it should be: not empty, within the limit, without a
/// space at its end and without a line break inside.
pub open spec fn tidy(line: Seq<char>) -> bool {
    &&& 0 < line.len() <= MAX_LINE
    &&& line.last() != ' '
    &&& forall|j: int| 0 <= j < line.len() ==> line[j] != '\n'
}

/// Packing loses no sample and keeps their order; every closed line was full
/// when it was closed and not before; the open line is not full.
pub proof fn lemma_packing(samples: Seq<u8>)
    ensures
        packing(samples).closed.flatten() + packing(samples).open == samples,
        measure(packing(samples).open) < BREAK_AT,
        forall|i: int|
            0 <= i < packing(samples).closed.len() ==> fits(#[trigger] packing(samples).closed[i])
                && full(packing(samples).closed[i]),
    decreases samples.len(),
{
    if samples.len() == 0 {
        assert(packing(samples).closed.flatten() + packing(samples).open =~= samples);
    } else {
        let rest = samples.drop_last();
        let v = samples.last();
        lemma_packing(rest);
        let p = packing(rest);
        let line = p.open.push(v);
        assert(line.drop_last() =~= p.open);
        assert(rest.push(v) =~= samples);
        if measure(line) >= BREAK_AT {
            p.closed.lemma_flatten_push(line);
            assert(p.closed.push(line).flatten() + Seq::<u8>::empty() =~= (p.closed.flatten()
                + p.open).push(v));
        } else {
            assert(p.closed.flatten() + line =~= (p.closed.flatten() + p.open).push(v));
        }
    }
}

/// The lines of a row hold its samples, all of them and in their order. A row
/// that has samples has a line. No line is empty, none was full before its last
/// numeral came, and every line but the last of the row is full: a line ends as
/// soon as it is full, and only then or at the end of its row.
pub proof fn lemma_packed(samples: Seq<u8>)
    ensures
        packed(samples).flatten() == samples,
        samples.len() > 0 ==> packed(samples).len() > 0,
        samples.len() == 0 ==> packed(samples).len() == 0,
        forall|i: int| 0 <= i < packed(samples).len() ==> fits(#[trigger] packed(samples)[i]),
        forall|i: int| 0 <= i < packed(samples).len() - 1 ==> full(#[trigger] packed(samples)[i]),
{
    lemma_packing(samples);
    let p = packing(samples);
    if p.open.len() == 0 {
        assert(p.closed.flatten() + p.open =~= p.closed.flatten());
        if samples.len() > 0 && p.closed.len() == 0 {
            assert(p.closed.flatten() =~= Seq::<u8>::empty());
        }
    } else {
        p.closed.lemma_flatten_push(p.open);
    }
    if samples.len() == 0 {
        assert(p.open.len() == 0);
        assert(p.closed.len() == 0);
    }
}

/// The text of a line is one character shorter than the line's count.
pub proof fn lemma_joined_len(line: Seq<u8>)
    requires
        line.len() > 0,
    ensures
        joined(line).len() + 1 == measure(line),
    decreases line.len(),
{
    if line.len() == 1 {
        assert(measure(line.drop_last()) == 0);
    } else {
        lemma_joined_len(line.drop_last());
    }
}

/// The text of a line holds no line break, and ends in a digit.
pub proof fn lemma_joined_chars(line: Seq<u8>)
    requires
        line.len() > 0,
    ensures
        forall|j: int| 0 <= j < joined(line).len() ==> #[trigger] joined(line)[j] != '\n',
        is_digit(joined(line).last()),
    decreases line.len(),
{
    let numeral = decimal(line.last() as nat);
    lemma_decimal_is_digits(line.last() as nat);
    assert forall|j: int| 0 <= j < numeral.len() implies #[trigger] numeral[j] != '\n' by {
        lemma_digit_is_no_blank(numeral[j]);
    }
    if line.len() > 1 {
        lemma_joined_chars(line.drop_last());
    }
}

/// The text of a line that was not full before its last numeral is tidy.
pub proof fn lemma_fitting_line_is_tidy(line: Seq<u8>)
    requires
        fits(line),
    ensures
        tidy(joined(line)),
{
    lemma_joined_len(line);
    lemma_joined_chars(line);
    lemma_decimal_len_small(line.last() as nat);
    lemma_digit_is_no_blank(joined(line).last());
}

/// Every text line of a row is tidy.
pub proof fn lemma_row_lines_are_tidy(samples: Seq<u8>)
    ensures
        forall|i: int| 0 <= i < row_lines(samples).len() ==> tidy(#[trigger] row_lines(samples)[i]),
{
    lemma_packed(samples);
    assert forall|i: int| 0 <= i < row_lines(samples).len() implies tidy(
        #[trigger] row_lines(samples)[i],
    ) by {
        lemma_fitting_line_is_tidy(packed(samples)[i]);
    }
}

/// Every text line of the first `rows` rows is tidy.
pub proof fn lemma_pixel_lines_are_tidy(r: Raster, rows: nat)
    ensures
        forall|i: int|
            0 <= i < pixel_lines(r, rows).len() ==> tidy(#[trigger] pixel_lines(r, rows)[i]),
    decreases rows,
{
    if rows > 0 {
        let above = pixel_lines(r, (rows - 1) as nat);
        let row = row_lines(row_samples(r, rows - 1));
        lemma_pixel_lines_are_tidy(r, (rows - 1) as nat);
        lemma_row_lines_are_tidy(row_samples(r, rows - 1));
        assert forall|i: int| 0 <= i < pixel_lines(r, rows).len() implies tidy(
            #[trigger] pixel_lines(r, rows)[i],
        ) by {
            if i < above.len() {
                assert(pixel_lines(r, rows)[i] == above[i]);
            } else {
                assert(pixel_lines(r, rows)[i] == row[i - above.len()]);
            }
        }
    }
}

/// The three header lines are tidy, for a width and a height of 64 bits.
pub proof fn lemma_header_lines_are_tidy(width: nat, height: nat)
    requires
        width <= u64::MAX,
        height <= u64::MAX,
    ensures
        header_lines(width, height).len() == 3,
        forall|i: int| 0 <= i < 3 ==> tidy(#[trigger] header_lines(width, height)[i]),
{
    let head = header_lines(width, height);
    let size = head[1];
    lemma_decimal_len_u64(width as u64);
    lemma_decimal_len_u64(height as u64);
    lemma_decimal_is_digits(width);
    lemma_decimal_is_digits(height);
    assert forall|j: int| 0 <= j < size.len() implies size[j] != '\n' by {
        if j < decimal(width).len() {
            lemma_digit_is_no_blank(decimal(width)[j]);
        } else if j > decimal(width).len() {
            lemma_digit_is_no_blank(decimal(height)[j - decimal(width).len() - 1]);
        }
    }
    lemma_digit_is_no_blank(decimal(height).last());
    assert(tidy(size));
    assert(head[2] =~= seq!['2', '5', '5']) by {
        reveal_with_fuel(decimal, 3);
    }
    assert(tidy(head[2]));
    assert(tidy(head[0]));
}

/// Every line of a picture's text is tidy: it holds at most `MAX_LINE`
/// characters, does not end in a space, and holds no line break.
pub proof fn lemma_ppm_lines_are_tidy(r: Raster)
    requires
        r.width <= u64::MAX,
        r.height <= u64::MAX,
    ensures
        forall|i: int| 0 <= i < ppm_lines(r).len() ==> tidy(#[trigger] ppm_lines(r)[i]),
{
    let head = header_lines(r.width, r.height);
    let rows = pixel_lines(r, r.height);
    lemma_header_lines_are_tidy(r.width, r.height);
    lemma_pixel_lines_are_tidy(r, r.height);
    assert forall|i: int| 0 <= i < ppm_lines(r).len() implies tidy(#[trigger] ppm_lines(r)[i]) by {
        if i < 3 {
            assert(ppm_lines(r)[i] == head[i]);
        } else {
            assert(ppm_lines(r)[i] == rows[i - 3]);
        }
    }
}

/// The characters of `text` from `i` up to `j` are one of its lines: a line
/// break stands at `j` and none before it from `i` on, and `i` is where the
/// text begins or where a line break has just been.
pub open spec fn is_line(text: Seq<char>, i: int, j: int) -> bool {
    &&& 0 <= i <= j < text.len()
    &&& text[j] == '\n'
    &&& (i == 0 || text[i - 1] == '\n')
    &&& forall|k: int| i <= k < j ==> text[k] != '\n'
}

/// The header as text.
pub open spec fn header_text(width: nat, height: nat) -> Seq<char> {
    seq!['P', '3', '\n'] + decimal(width) + seq![' '] + decimal(height) + seq![
        '\n',
        '2',
        '5',
        '5',
        '\n',
    ]
}

/// Lines written out end in a line break.
pub proof fn lemma_unlines_ends(lines: Seq<Seq<char>>)
    requires
        lines.len() > 0,
    ensures
        unlines(lines).len() > lines.last().len(),
        unlines(lines).last() == '\n',
{
}

/// Where no line holds a line break, the lines of the text written from
/// `lines` are those lines and no others.
pub proof fn lemma_lines_of_unlines(lines: Seq<Seq<char>>, i: int, j: int)
    requires
        forall|n: int, k: int|
            0 <= n < lines.len() && 0 <= k < lines[n].len() ==> #[trigger] lines[n][k] != '\n',
        is_line(unlines(lines), i, j),
    ensures
        exists|n: int| 0 <= n < lines.len() && #[trigger] lines[n] == unlines(lines).subrange(i, j),
    decreases lines.len(),
{
    let text = unlines(lines);
    if lines.len() > 0 {
        let rest = lines.drop_last();
        let last = lines.last();
        let above = unlines(rest);
        let n0 = above.len() as int;
        assert(text == above + last.push('\n'));
        if j < n0 {
            assert forall|k: int| i <= k < j implies above[k] != '\n' by {
                assert(above[k] == text[k]);
            }
            assert(above[j] == text[j]);
            if i > 0 {
                assert(above[i - 1] == text[i - 1]);
            }
            assert(is_line(above, i, j));
            assert forall|n: int, k: int| 0 <= n < rest.len() && 0 <= k < rest[n].len() implies
                #[trigger] rest[n][k] != '\n' by {
                assert(rest[n][k] == lines[n][k]);
            }
            lemma_lines_of_unlines(rest, i, j);
            let n = choose|n: int| 0 <= n < rest.len() && #[trigger] rest[n] == above.subrange(i, j);
            assert(lines[n] == rest[n]);
            assert(above.subrange(i, j) =~= text.subrange(i, j));
        } else {
            assert(text[j] == last.push('\n')[j - n0]);
            if j - n0 < last.len() {
                assert(lines[lines.len() - 1][j - n0] != '\n');
            }
            assert(j == n0 + last.len());
            if i < n0 {
                lemma_unlines_ends(rest);
                assert(text[n0 - 1] == above[n0 - 1]);
            }
            if i > n0 {
                assert(text[i - 1] == last[i - 1 - n0]);
                assert(lines[lines.len() - 1][i - 1 - n0] != '\n');
            }
            assert(text.subrange(i, j) =~= last);
        }
    }
}

/// The text begins with the header: the format's name, the width and the
/// height with one space between them, and the largest sample, each on a line
/// of its own. The lines of the rows follow.
pub proof fn lemma_text_begins_with_header(r: Raster)
    ensures
        ppm_text(r) == header_text(r.width, r.height) + unlines(pixel_lines(r, r.height)),
{
    let head = header_lines(r.width, r.height);
    lemma_unlines_concat(head, pixel_lines(r, r.height));
    reveal_with_fuel(unlines, 4);
    reveal_with_fuel(decimal, 3);
    assert(head.drop_last().drop_last().drop_last() =~= Seq::<Seq<char>>::empty());
    assert(unlines(head) =~= header_text(r.width, r.height));
}

/// A picture without columns has no pixel lines; with columns, each row has
/// one line or more.
pub proof fn lemma_pixel_lines_count(r: Raster, rows: nat)
    ensures
        r.width == 0 ==> pixel_lines(r, rows).len() == 0,
        r.width > 0 ==> pixel_lines(r, rows).len() >= rows,
    decreases rows,
{
    if rows > 0 {
        lemma_pixel_lines_count(r, (rows - 1) as nat);
        lemma_packed(row_samples(r, rows - 1));
    }
}

/// No line of a picture's text is longer than `MAX_LINE` characters, none is
/// empty, and none ends in a space.
pub proof fn lemma_text_lines_are_tidy(r: Raster, i: int, j: int)
    requires
        r.width <= u64::MAX,
        r.height <= u64::MAX,
        is_line(ppm_text(r), i, j),
    ensures
        0 < j - i <= MAX_LINE,
        ppm_text(r)[j - 1] != ' ',
{
    let lines = ppm_lines(r);
    lemma_ppm_lines_are_tidy(r);
    assert forall|n: int, k: int| 0 <= n < lines.len() && 0 <= k < lines[n].len() implies
        #[trigger] lines[n][k] != '\n' by {
        assert(tidy(lines[n]));
    }
    lemma_lines_of_unlines(lines, i, j);
    let n = choose|n: int| 0 <= n < lines.len() && #[trigger] lines[n] == ppm_text(r).subrange(i, j);
    assert(tidy(lines[n]));
    assert(ppm_text(r).subrange(i, j).last() == ppm_text(r)[j - 1]);
}

/// A picture's text ends with one line break, and with one only.
pub proof fn lemma_text_ends_with_one_line_break(r: Raster)
    requires
        r.width <= u64::MAX,
        r.height <= u64::MAX,
    ensures
        ppm_text(r).len() >= 2,
        ppm_text(r)[ppm_text(r).len() - 1] == '\n',
        ppm_text(r)[ppm_text(r).len() - 2] != '\n',
{
    let lines = ppm_lines(r);
    lemma_ppm_lines_are_tidy(r);
    assert(lines.len() >= 3);
    let last = lines.last();
    assert(tidy(last));
    let text = ppm_text(r);
    assert(text == unlines(lines.drop_last()) + last.push('\n'));
    assert(text[text.len() - 2] == last[last.len() - 1]);
}

/// The numeral of a channel's sample: "0" for zero and for every number below
/// it, "255" for one and for every number above it.
pub proof fn lemma_numeral_of_sample(bits: u64)
    ensures
        at_most_zero(bits) ==> decimal(sample(bits)) == seq!['0'],
        at_least_one(bits) ==> decimal(sample(bits)) == seq!['2', '5', '5'],
{
    reveal_with_fuel(decimal, 3);
    if at_most_zero(bits) {
        lemma_sample_at_most_zero(bits);
        assert(decimal(sample(bits)) =~= seq!['0']);
    }
    if at_least_one(bits) {
        lemma_sample_at_least_one(bits);
        assert(decimal(sample(bits)) =~= seq!['2', '5', '5']);
    }
}

/// In a black picture every sample is 0.
pub proof fn lemma_blank_row(width: nat, height: nat, y: int)
    requires
        0 <= y < height,
    ensures
        row_samples(Raster::blank(width, height), y) == Seq::new(3 * width, |i: int| 0u8),
{
    lemma_sample_at_most_zero(0);
    assert(row_samples(Raster::blank(width, height), y) =~= Seq::new(3 * width, |i: int| 0u8));
}

} // verus!
