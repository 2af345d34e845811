//! Box-drawing output of a laid-out table: wrapped cell lines, aligned cell
//! content and border lines.

use vstd::prelude::*;

use crate::ast::Alignment;
use crate::bytes::{append_bytes, repeat, spaces};
use crate::wrap::{visible_width, visible_width_spec};
use crate::writer::write_spaces;

verus! {

/// `│`, the vertical border.
pub open spec fn bar() -> Seq<u8> {
    seq![0xe2u8, 0x94u8, 0x82u8]
}

/// `─`, the horizontal border.
pub open spec fn dash() -> Seq<u8> {
    seq![0xe2u8, 0x94u8, 0x80u8]
}

/// Which border line of a table is drawn.
#[derive(Debug, Clone, Copy, PartialEq, Eq, Structural)]
pub enum BorderKind {
    /// The line above the table.
    Top,
    /// A line between the header and the body, or between body rows.
    Middle,
    /// The line below the table.
    Bottom,
}

/// The left corner, the junction and the right corner of a border line.
pub open spec fn border_glyphs(kind: BorderKind) -> (Seq<u8>, Seq<u8>, Seq<u8>) {
    match kind {
        BorderKind::Top => (
            seq![0xe2u8, 0x94u8, 0x8cu8],
            seq![0xe2u8, 0x94u8, 0xacu8],
            seq![0xe2u8, 0x94u8, 0x90u8],
        ),
        BorderKind::Middle => (
            seq![0xe2u8, 0x94u8, 0x9cu8],
            seq![0xe2u8, 0x94u8, 0xbcu8],
            seq![0xe2u8, 0x94u8, 0xa4u8],
        ),
        BorderKind::Bottom => (
            seq![0xe2u8, 0x94u8, 0x94u8],
            seq![0xe2u8, 0x94u8, 0xb4u8],
            seq![0xe2u8, 0x94u8, 0x98u8],
        ),
    }
}

/// A column's width plus its two padding spaces, saturating at the largest `usize`.
pub open spec fn padded_width(width: usize) -> nat {
    if width + 2 <= usize::MAX {
        (width + 2) as nat
    } else {
        usize::MAX as nat
    }
}

/// The horizontal segments of the first `n` columns, joined by `join`.
pub open spec fn border_segments(widths: Seq<usize>, join: Seq<u8>, n: nat) -> Seq<u8>
    decreases n,
{
    if n == 0 {
        Seq::empty()
    } else {
        border_segments(widths, join, (n - 1) as nat) + (if n > 1 {
            join
        } else {
            Seq::empty()
        }) + repeat(dash(), padded_width(widths[n - 1]))
    }
}

/// A whole border line: corner, one run of `─` per column (two wider than the
/// column, for the padding) separated by junctions, corner.
pub open spec fn border_line(widths: Seq<usize>, kind: BorderKind) -> Seq<u8> {
    let (left, join, right) = border_glyphs(kind);
    left + border_segments(widths, join, widths.len()) + right
}

/// Writes a border line.
pub fn write_border_line(out: &mut Vec<u8>, widths: &[usize], kind: BorderKind)
    ensures
        final(out)@ == old(out)@ + border_line(widths@, kind),
{
    let ghost start = out@;
    let (left, join, right) = match kind {
        BorderKind::Top => ([0xe2u8, 0x94u8, 0x8cu8], [0xe2u8, 0x94u8, 0xacu8], [0xe2u8, 0x94u8, 0x90u8]),
        BorderKind::Middle => ([0xe2u8, 0x94u8, 0x9cu8], [0xe2u8, 0x94u8, 0xbcu8], [0xe2u8, 0x94u8, 0xa4u8]),
        BorderKind::Bottom => ([0xe2u8, 0x94u8, 0x94u8], [0xe2u8, 0x94u8, 0xb4u8], [0xe2u8, 0x94u8, 0x98u8]),
    };
    let ghost glyphs = border_glyphs(kind);
    assert(left@ =~= glyphs.0);
    assert(join@ =~= glyphs.1);
    assert(right@ =~= glyphs.2);
    append_bytes(out, left.as_slice());
    let ghost after_left = out@;
    let mut index: usize = 0;
    while index < widths.len()
        invariant
            index <= widths@.len(),
            join@ == glyphs.1,
            out@ == after_left + border_segments(widths@, glyphs.1, index as nat),
        decreases widths@.len() - index,
    {
        let ghost before = out@;
        if index > 0 {
            append_bytes(out, join.as_slice());
        }
        let run = widths[index].saturating_add(2);
        let unit = [0xe2u8, 0x94u8, 0x80u8];
        assert(unit@ =~= dash());
        write_repeated_bytes(out, unit.as_slice(), run);
        assert(out@ =~= after_left + border_segments(widths@, glyphs.1, (index + 1) as nat));
        index += 1;
    }
    append_bytes(out, right.as_slice());
    assert(out@ =~= start + border_line(widths@, kind));
}

/// Writes `unit` repeated `count` times.
fn write_repeated_bytes(out: &mut Vec<u8>, unit: &[u8], count: usize)
    ensures
        final(out)@ == old(out)@ + repeat(unit@, count as nat),
{
    let ghost start = out@;
    let mut written: usize = 0;
    while written < count
        invariant
            written <= count,
            out@ == start + repeat(unit@, written as nat),
        decreases count - written,
    {
        append_bytes(out, unit);
        assert(out@ =~= start + repeat(unit@, (written + 1) as nat));
        written += 1;
    }
}

/// The lines of a cell's wrapped output, split at each newline.
pub open spec fn split_lines(bytes: Seq<u8>) -> Seq<Seq<u8>>
    decreases bytes.len(),
{
    if bytes.len() == 0 {
        seq![Seq::empty()]
    } else {
        let before = split_lines(bytes.drop_last());
        if bytes.last() == 10u8 {
            before.push(Seq::empty())
        } else {
            before.update(before.len() - 1, before.last().push(bytes.last()))
        }
    }
}

pub proof fn lemma_split_lines_nonempty(bytes: Seq<u8>)
    ensures
        split_lines(bytes).len() >= 1,
    decreases bytes.len(),
{
    if bytes.len() > 0 {
        lemma_split_lines_nonempty(bytes.drop_last());
    }
}

/// A cell's wrapped output, split into lines.
pub struct WrappedCell {
    lines: Vec<Vec<u8>>,
}

impl View for WrappedCell {
    type V = Seq<Seq<u8>>;

    closed spec fn view(&self) -> Seq<Seq<u8>> {
        self.lines@.map_values(|line: Vec<u8>| line@)
    }
}

/// Line `index` of a cell, or nothing when the cell is shorter.
pub open spec fn cell_line(lines: Seq<Seq<u8>>, index: int) -> Seq<u8> {
    if 0 <= index < lines.len() {
        lines[index]
    } else {
        Seq::empty()
    }
}

impl WrappedCell {
    /// Splits wrapped output into its lines; output without a newline is one line.
    pub fn new(bytes: &[u8]) -> (r: Self)
        ensures
            r@ == split_lines(bytes@),
    {
        let mut lines: Vec<Vec<u8>> = Vec::new();
        let mut current: Vec<u8> = Vec::new();
        let mut index: usize = 0;
        while index < bytes.len()
            invariant
                index <= bytes@.len(),
                lines@.map_values(|line: Vec<u8>| line@).push(current@) == split_lines(
                    bytes@.take(index as int),
                ),
            decreases bytes@.len() - index,
        {
            let byte = bytes[index];
            let ghost old_lines = lines@.map_values(|line: Vec<u8>| line@);
            let ghost old_current = current@;
            proof {
                assert(bytes@.take(index + 1).drop_last() =~= bytes@.take(index as int));
            }
            if byte == 10 {
                let finished = current;
                lines.push(finished);
                current = Vec::new();
                assert(lines@.map_values(|line: Vec<u8>| line@) =~= old_lines.push(old_current));
                assert(lines@.map_values(|line: Vec<u8>| line@).push(current@) =~= split_lines(
                    bytes@.take(index + 1),
                ));
            } else {
                current.push(byte);
                assert(lines@.map_values(|line: Vec<u8>| line@) =~= old_lines);
                assert(lines@.map_values(|line: Vec<u8>| line@).push(current@) =~= split_lines(
                    bytes@.take(index + 1),
                ));
            }
            index += 1;
        }
        assert(bytes@.take(bytes@.len() as int) =~= bytes@);
        let ghost before = lines@.map_values(|line: Vec<u8>| line@);
        lines.push(current);
        assert(lines@.map_values(|line: Vec<u8>| line@) =~= before.push(current@));
        WrappedCell { lines }
    }

    /// The number of lines.
    pub fn height(&self) -> (r: usize)
        ensures
            r == self@.len(),
    {
        self.lines.len()
    }

    /// Line `index`, or an empty line past the end.
    pub fn line(&self, index: usize) -> (r: &[u8])
        ensures
            r@ == cell_line(self@, index as int),
    {
        if index < self.lines.len() {
            self.lines[index].as_slice()
        } else {
            let empty: &[u8] = &[];
            assert(empty@ =~= Seq::<u8>::empty());
            empty
        }
    }
}

/// The padding a line needs to fill `width` columns, zero when it is already wider.
pub open spec fn padding(line: Seq<u8>, width: usize) -> nat {
    if visible_width_spec(line) <= width {
        (width - visible_width_spec(line)) as nat
    } else {
        0
    }
}

/// A line padded to `width` columns: right-aligned lines pad on the left, centered
/// lines split the padding (the extra column on the right), all others pad on the
/// right.
pub open spec fn aligned_line(line: Seq<u8>, width: usize, alignment: Alignment) -> Seq<u8> {
    let pad = padding(line, width);
    match alignment {
        Alignment::Right => spaces(pad) + line,
        Alignment::Center => spaces(pad / 2) + line + spaces((pad - pad / 2) as nat),
        _ => line + spaces(pad),
    }
}

/// Writes a line padded to `width` columns under `alignment`.
pub fn write_aligned_line(out: &mut Vec<u8>, line: &[u8], width: usize, alignment: Alignment)
    ensures
        final(out)@ == old(out)@ + aligned_line(line@, width, alignment),
{
    let ghost start = out@;
    let pad = width.saturating_sub(visible_width(line));
    match alignment {
        Alignment::Right => {
            write_spaces(out, pad);
            append_bytes(out, line);
        },
        Alignment::Center => {
            let left = pad / 2;
            let right = pad - left;
            write_spaces(out, left);
            append_bytes(out, line);
            write_spaces(out, right);
        },
        _ => {
            append_bytes(out, line);
            write_spaces(out, pad);
        },
    }
    assert(out@ =~= start + aligned_line(line@, width, alignment));
}

/// The alignment of column `c`, unspecified past the declared ones.
pub open spec fn column_alignment(alignments: Seq<Alignment>, c: int) -> Alignment {
    if 0 <= c < alignments.len() {
        alignments[c]
    } else {
        Alignment::Unspecified
    }
}

/// Line `line_index` of the cell in column `c`, empty for a missing cell.
pub open spec fn column_line(cells: Seq<Seq<Seq<u8>>>, c: int, line_index: int) -> Seq<u8> {
    if 0 <= c < cells.len() {
        cell_line(cells[c], line_index)
    } else {
        Seq::empty()
    }
}

/// The first `n` columns of one output line of a row: a separating `│` before
/// every column but the first, then the padded cell line between single spaces.
pub open spec fn row_line_columns(
    cells: Seq<Seq<Seq<u8>>>,
    line_index: int,
    widths: Seq<usize>,
    alignments: Seq<Alignment>,
    n: nat,
) -> Seq<u8>
    decreases n,
{
    if n == 0 {
        Seq::empty()
    } else {
        let c = n - 1;
        row_line_columns(cells, line_index, widths, alignments, (n - 1) as nat) + (if c > 0 {
            bar()
        } else {
            Seq::empty()
        }) + seq![32u8] + aligned_line(
            column_line(cells, c, line_index),
            widths[c],
            column_alignment(alignments, c),
        ) + seq![32u8]
    }
}

/// One bordered output line of a (possibly multi-line) table row.
pub open spec fn row_line(
    cells: Seq<Seq<Seq<u8>>>,
    line_index: int,
    widths: Seq<usize>,
    alignments: Seq<Alignment>,
) -> Seq<u8> {
    bar() + row_line_columns(cells, line_index, widths, alignments, widths.len()) + bar()
}

/// The lines of each cell of a row.
pub open spec fn cells_view(cells: Seq<WrappedCell>) -> Seq<Seq<Seq<u8>>> {
    cells.map_values(|cell: WrappedCell| cell@)
}

/// Writes one bordered output line of a row.
pub fn write_table_row_line(
    out: &mut Vec<u8>,
    cells: &Vec<WrappedCell>,
    line_index: usize,
    widths: &[usize],
    alignments: &[Alignment],
)
    ensures
        final(out)@ == old(out)@ + row_line(
            cells_view(cells@),
            line_index as int,
            widths@,
            alignments@,
        ),
{
    let ghost start = out@;
    let ghost cv = cells_view(cells@);
    let border = [0xe2u8, 0x94u8, 0x82u8];
    assert(border@ =~= bar());
    append_bytes(out, border.as_slice());
    let ghost after_bar = out@;
    let mut column: usize = 0;
    while column < widths.len()
        invariant
            column <= widths@.len(),
            border@ == bar(),
            cv == cells_view(cells@),
            out@ == after_bar + row_line_columns(
                cv,
                line_index as int,
                widths@,
                alignments@,
                column as nat,
            ),
        decreases widths@.len() - column,
    {
        let ghost before = out@;
        if column > 0 {
            append_bytes(out, border.as_slice());
        }
        out.push(32);
        let line: &[u8] = if column < cells.len() {
            cells[column].line(line_index)
        } else {
            let empty: &[u8] = &[];
            assert(empty@ =~= Seq::<u8>::empty());
            empty
        };
        assert(line@ == column_line(cv, column as int, line_index as int));
        let alignment = if column < alignments.len() {
            alignments[column]
        } else {
            Alignment::Unspecified
        };
        write_aligned_line(out, line, widths[column], alignment);
        out.push(32);
        assert(out@ =~= after_bar + row_line_columns(
            cv,
            line_index as int,
            widths@,
            alignments@,
            (column + 1) as nat,
        ));
        column += 1;
    }
    append_bytes(out, border.as_slice());
    assert(out@ =~= start + row_line(cv, line_index as int, widths@, alignments@));
}

} // verus!
