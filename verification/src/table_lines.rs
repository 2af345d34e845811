//! The lines a table is drawn with, and why they all take up the same columns.

use vstd::prelude::*;

use crate::ast::{Alignment, Inline, Table};
use crate::bytes::{repeat, spaces};
use crate::grid::{
    aligned_line, bar, border_glyphs, border_line, border_segments, column_alignment,
    column_line, dash, padded_width, padding, row_line, row_line_columns, split_lines, BorderKind,
};
use crate::layout::{
    body_rows_bytes, border_bytes, lemma_plain_mode_writes_no_styles, muted_style, body_style, row_bytes,
    measured_table, row_cell, row_cells, row_height, row_lines, table_bytes, table_widths, wrapped_cell,
};
use crate::options::{ColorMode, RenderOptions};
use crate::table::{column_count, floor_total, lemma_shrink_to_fit_laws, natural_widths, sum_widths, table_total_spec};
use crate::wrap::{lacks, visible_total, visible_width_spec};
use crate::wrap_lines::{is_box_glyph, lemma_push_piece, measured, pieces_bytes, pieces_width, Piece, PieceKind};

verus! {

/// Lines of pieces joined by newlines, with no newline after the last.
pub open spec fn joined_lines(lines: Seq<Seq<Piece>>) -> Seq<u8>
    decreases lines.len(),
{
    if lines.len() == 0 {
        Seq::empty()
    } else if lines.len() == 1 {
        pieces_bytes(lines[0])
    } else {
        joined_lines(lines.drop_last()) + seq![10u8] + pieces_bytes(lines.last())
    }
}

/// Every line is made of measured pieces that add up to `columns`.
pub open spec fn lines_span(lines: Seq<Seq<Piece>>, columns: int) -> bool {
    forall|i: int| 0 <= i < lines.len() ==> line_spans(#[trigger] lines[i], columns)
}

/// A line of measured pieces that add up to `columns`.
pub open spec fn line_spans(ps: Seq<Piece>, columns: int) -> bool {
    &&& forall|j: int| 0 <= j < ps.len() ==> measured(#[trigger] ps[j])
    &&& pieces_width(ps) == columns
}

/// Every line of each wrapped cell of `row` is at most as wide as its column.
pub open spec fn row_fits(options: RenderOptions, row: Seq<Vec<Inline>>, widths: Seq<usize>) -> bool {
    forall|c: int, i: int|
        0 <= c < widths.len() && 0 <= i < wrapped_cell(options, row_cell(row, c), widths[c]).len()
            ==> visible_width_spec(#[trigger] wrapped_cell(options, row_cell(row, c), widths[c])[i])
            <= widths[c]
}

/// Every wrapped cell line of the table, header included, fits its column.
pub open spec fn cells_fit(options: RenderOptions, table: &Table, widths: Seq<usize>) -> bool {
    &&& row_fits(options, table.header@, widths)
    &&& forall|r: int| 0 <= r < table.rows@.len() ==> row_fits(options, #[trigger] table.rows@[r]@, widths)
}

/// In plain mode every line of a table takes up the same columns: its border lines
/// and the lines of its rows are each made of pieces measured as the table counts
/// them (one column per border glyph and padding space, the visible width of each
/// cell line), and every line adds up to the table's total width, provided each
/// cell line fits its column and that total is representable. When a width limit
/// is given and the columns at their floors fit it, that total is within the limit.
pub proof fn lemma_table_lines_share_width(options: RenderOptions, table: &Table, width: Option<usize>)
    requires
        options.color == ColorMode::Plain,
        table_widths(options, table, width).len() > 0,
        table_total_spec(table_widths(options, table, width)) <= usize::MAX,
        cells_fit(options, table, table_widths(options, table, width)),
    ensures
        exists|lines: Seq<Seq<Piece>>|
            {
                &&& table_bytes(options, table, width) == joined_lines(lines)
                &&& lines_span(lines, table_total_spec(table_widths(options, table, width)))
            },
        width is Some && floor_total(natural_widths(column_count(table) as nat, measured_table(options, table)))
            <= width->0 ==> table_total_spec(table_widths(options, table, width)) <= width->0,
{
    let widths = table_widths(options, table, width);
    let total = table_total_spec(widths);
    let aligns = table.alignments@;
    lemma_widths_bounded(widths);
    lemma_plain_mode_writes_no_styles(options, muted_style(options), Seq::empty());
    lemma_plain_mode_writes_no_styles(options, body_style(options), Seq::empty());
    let top = border_pieces(widths, BorderKind::Top);
    let mid = border_pieces(widths, BorderKind::Middle);
    let bottom = border_pieces(widths, BorderKind::Bottom);
    assert(border_bytes(options, widths, BorderKind::Top) =~= pieces_bytes(top));
    assert(border_bytes(options, widths, BorderKind::Middle) =~= pieces_bytes(mid));
    assert(border_bytes(options, widths, BorderKind::Bottom) =~= pieces_bytes(bottom));
    let head_bytes = border_bytes(options, widths, BorderKind::Top) + (if table.header@.len() > 0 {
        seq![10u8] + row_bytes(options, table.header@, widths, aligns) + seq![10u8] + border_bytes(
            options,
            widths,
            BorderKind::Middle,
        )
    } else {
        Seq::empty()
    });
    assert(joined_lines(seq![top]) == pieces_bytes(top));
    assert(joined_lines(seq![mid]) == pieces_bytes(mid));
    let head: Seq<Seq<Piece>> = if table.header@.len() > 0 {
        let rows = row_lines_list(options, table.header@, widths, aligns);
        lemma_join_append(seq![top], rows);
        lemma_join_append(seq![top] + rows, seq![mid]);
        lemma_spans_append(seq![top], rows, total);
        lemma_spans_append(seq![top] + rows, seq![mid], total);
        seq![top] + rows + seq![mid]
    } else {
        seq![top]
    };
    assert(head_bytes =~= joined_lines(head));
    assert(lines_span(head, total));
    let n = table.rows@.len();
    let body = body_lines_list(options, table, widths, aligns, n);
    let lines = head + body + seq![bottom];
    if n > 0 {
        lemma_join_append(head, body);
        lemma_join_append(head + body, seq![bottom]);
        lemma_spans_append(head, body, total);
    } else {
        assert(head + body =~= head);
        assert(body_rows_bytes(options, table.rows@, widths, aligns, 0) =~= Seq::<u8>::empty());
        lemma_join_append(head, seq![bottom]);
    }
    assert(joined_lines(seq![bottom]) == pieces_bytes(bottom));
    lemma_spans_append(head + body, seq![bottom], total);
    assert(table_bytes(options, table, width) =~= joined_lines(lines));
    match width {
        Some(limit) => {
            let natural = natural_widths(column_count(table) as nat, measured_table(options, table));
            if floor_total(natural) <= limit && table_total_spec(natural) <= usize::MAX {
                lemma_shrink_to_fit_laws(natural, limit as int);
            }
        },
        None => {},
    }
}

/// Each width is at most the sum, and a table whose total is representable has
/// representable padded columns.
proof fn lemma_widths_bounded(widths: Seq<usize>)
    ensures
        sum_widths(widths) >= 0,
        forall|c: int| 0 <= c < widths.len() ==> #[trigger] widths[c] <= sum_widths(widths),
    decreases widths.len(),
{
    if widths.len() > 0 {
        lemma_widths_bounded(widths.drop_last());
        assert forall|c: int| 0 <= c < widths.len() implies #[trigger] widths[c] <= sum_widths(widths) by {
            if c < widths.len() - 1 {
                assert(widths[c] == widths.drop_last()[c]);
            }
        }
    }
}

proof fn lemma_pieces_append(ps: Seq<Piece>, qs: Seq<Piece>)
    ensures
        pieces_bytes(ps + qs) == pieces_bytes(ps) + pieces_bytes(qs),
        pieces_width(ps + qs) == pieces_width(ps) + pieces_width(qs),
    decreases qs.len(),
{
    if qs.len() == 0 {
        assert(ps + qs =~= ps);
        assert(pieces_bytes(ps) + pieces_bytes(qs) =~= pieces_bytes(ps));
    } else {
        lemma_pieces_append(ps, qs.drop_last());
        assert(ps + qs =~= (ps + qs.drop_last()).push(qs.last()));
        lemma_push_piece(ps + qs.drop_last(), qs.last());
        lemma_push_piece(qs.drop_last(), qs.last());
        assert(qs.drop_last().push(qs.last()) =~= qs);
        assert(pieces_bytes(ps) + pieces_bytes(qs.drop_last()) + qs.last().bytes =~= pieces_bytes(ps) + (
        pieces_bytes(qs.drop_last()) + qs.last().bytes));
    }
}

proof fn lemma_measured_append(ps: Seq<Piece>, qs: Seq<Piece>)
    requires
        forall|j: int| 0 <= j < ps.len() ==> measured(#[trigger] ps[j]),
        forall|j: int| 0 <= j < qs.len() ==> measured(#[trigger] qs[j]),
    ensures
        forall|j: int| 0 <= j < (ps + qs).len() ==> measured(#[trigger] (ps + qs)[j]),
{
    assert forall|j: int| 0 <= j < (ps + qs).len() implies measured(#[trigger] (ps + qs)[j]) by {
        if j < ps.len() {
            assert((ps + qs)[j] == ps[j]);
        } else {
            assert((ps + qs)[j] == qs[j - ps.len()]);
        }
    }
}

proof fn lemma_join_append(a: Seq<Seq<Piece>>, b: Seq<Seq<Piece>>)
    requires
        a.len() > 0,
        b.len() > 0,
    ensures
        joined_lines(a + b) == joined_lines(a) + seq![10u8] + joined_lines(b),
    decreases b.len(),
{
    if b.len() == 1 {
        assert((a + b).drop_last() =~= a);
        assert((a + b).last() == b[0]);
    } else {
        lemma_join_append(a, b.drop_last());
        assert((a + b).drop_last() =~= a + b.drop_last());
        assert((a + b).last() == b.last());
        assert(joined_lines(a) + seq![10u8] + joined_lines(b.drop_last()) + seq![10u8] + pieces_bytes(b.last())
            =~= joined_lines(a) + seq![10u8] + (joined_lines(b.drop_last()) + seq![10u8] + pieces_bytes(b.last())));
    }
}

proof fn lemma_spans_append(a: Seq<Seq<Piece>>, b: Seq<Seq<Piece>>, columns: int)
    requires
        lines_span(a, columns),
        lines_span(b, columns),
    ensures
        lines_span(a + b, columns),
{
    assert forall|i: int| 0 <= i < (a + b).len() implies line_spans(#[trigger] (a + b)[i], columns) by {
        if i < a.len() {
            assert((a + b)[i] == a[i]);
        } else {
            assert((a + b)[i] == b[i - a.len()]);
        }
    }
}

spec fn glyph(bytes: Seq<u8>) -> Piece {
    Piece { bytes, width: 1, kind: PieceKind::Glyph }
}

spec fn gap(n: nat) -> Piece {
    Piece { bytes: spaces(n), width: n as int, kind: PieceKind::Gap }
}

proof fn lemma_gap_measured(n: nat)
    ensures
        measured(gap(n)),
{
    assert(lacks(spaces(n), 10u8));
}

/// `k` copies of a border glyph, one column each.
proof fn repeat_pieces(unit: Seq<u8>, k: nat) -> (ps: Seq<Piece>)
    requires
        is_box_glyph(unit),
    ensures
        pieces_bytes(ps) == repeat(unit, k),
        pieces_width(ps) == k,
        forall|j: int| 0 <= j < ps.len() ==> measured(#[trigger] ps[j]),
    decreases k,
{
    if k == 0 {
        Seq::empty()
    } else {
        let before = repeat_pieces(unit, (k - 1) as nat);
        let ps = before.push(glyph(unit));
        lemma_push_piece(before, glyph(unit));
        assert(lacks(unit, 10u8));
        assert forall|j: int| 0 <= j < ps.len() implies measured(#[trigger] ps[j]) by {
            if j < before.len() {
                assert(ps[j] == before[j]);
            }
        }
        ps
    }
}

proof fn lemma_glyph_measured(unit: Seq<u8>)
    requires
        is_box_glyph(unit),
    ensures
        measured(glyph(unit)),
{
    assert(lacks(unit, 10u8));
}

/// The pieces of the border segments of the first `n` columns.
proof fn segment_pieces(widths: Seq<usize>, join: Seq<u8>, n: nat) -> (ps: Seq<Piece>)
    requires
        n <= widths.len(),
        is_box_glyph(join),
        forall|c: int| 0 <= c < widths.len() ==> #[trigger] widths[c] + 2 <= usize::MAX,
    ensures
        pieces_bytes(ps) == border_segments(widths, join, n),
        pieces_width(ps) == sum_widths(widths.take(n as int)) + 3 * n - (if n > 0 {
            1int
        } else {
            0int
        }),
        forall|j: int| 0 <= j < ps.len() ==> measured(#[trigger] ps[j]),
    decreases n,
{
    if n == 0 {
        assert(widths.take(0) =~= Seq::<usize>::empty());
        Seq::empty()
    } else {
        let before = segment_pieces(widths, join, (n - 1) as nat);
        let sep: Seq<Piece> = if n > 1 {
            seq![glyph(join)]
        } else {
            Seq::empty()
        };
        lemma_glyph_measured(join);
        let run = repeat_pieces(dash(), padded_width(widths[n - 1]));
        let ps = before + sep + run;
        lemma_pieces_append(before, sep);
        lemma_pieces_append(before + sep, run);
        lemma_measured_append(before, sep);
        lemma_measured_append(before + sep, run);
        if n > 1 {
            assert(pieces_bytes(sep) =~= join) by {
                lemma_push_piece(Seq::empty(), glyph(join));
                assert(Seq::<Piece>::empty().push(glyph(join)) =~= sep);
            }
            assert(pieces_width(sep) == 1) by {
                lemma_push_piece(Seq::empty(), glyph(join));
                assert(Seq::<Piece>::empty().push(glyph(join)) =~= sep);
            }
        }
        assert(widths.take(n as int).drop_last() =~= widths.take(n - 1));
        ps
    }
}

/// The pieces of a whole border line.
proof fn border_pieces(widths: Seq<usize>, kind: BorderKind) -> (ps: Seq<Piece>)
    requires
        widths.len() > 0,
        table_total_spec(widths) <= usize::MAX,
        forall|c: int| 0 <= c < widths.len() ==> #[trigger] widths[c] <= sum_widths(widths),
    ensures
        pieces_bytes(ps) == border_line(widths, kind),
        line_spans(ps, table_total_spec(widths)),
{
    let (left, join, right) = border_glyphs(kind);
    assert forall|c: int| 0 <= c < widths.len() implies #[trigger] widths[c] + 2 <= usize::MAX by {
        assert(widths[c] <= sum_widths(widths));
    }
    lemma_glyph_measured(left);
    lemma_glyph_measured(right);
    let segs = segment_pieces(widths, join, widths.len());
    let ps = seq![glyph(left)] + segs + seq![glyph(right)];
    lemma_single(glyph(left));
    lemma_single(glyph(right));
    lemma_pieces_append(seq![glyph(left)], segs);
    lemma_pieces_append(seq![glyph(left)] + segs, seq![glyph(right)]);
    lemma_measured_append(seq![glyph(left)], segs);
    lemma_measured_append(seq![glyph(left)] + segs, seq![glyph(right)]);
    assert(widths.take(widths.len() as int) =~= widths);
    ps
}

proof fn lemma_single(p: Piece)
    ensures
        pieces_bytes(seq![p]) == p.bytes,
        pieces_width(seq![p]) == p.width,
{
    lemma_push_piece(Seq::empty(), p);
    assert(Seq::<Piece>::empty().push(p) =~= seq![p]);
    assert(Seq::<u8>::empty() + p.bytes =~= p.bytes);
}

/// The pieces of a cell line padded to its column.
proof fn aligned_pieces(line: Seq<u8>, width: usize, alignment: Alignment) -> (ps: Seq<Piece>)
    requires
        lacks(line, 10u8),
        visible_width_spec(line) <= width,
    ensures
        pieces_bytes(ps) == aligned_line(line, width, alignment),
        pieces_width(ps) == width,
        forall|j: int| 0 <= j < ps.len() ==> measured(#[trigger] ps[j]),
{
    let pad = padding(line, width);
    let word = Piece { bytes: line, width: visible_width_spec(line) as int, kind: PieceKind::Word };
    assert(measured(word));
    lemma_single(word);
    match alignment {
        Alignment::Right => {
            let ps = seq![gap(pad), word];
            lemma_gap_measured(pad);
            lemma_single(gap(pad));
            assert(ps =~= seq![gap(pad)] + seq![word]);
            lemma_pieces_append(seq![gap(pad)], seq![word]);
            lemma_measured_append(seq![gap(pad)], seq![word]);
            ps
        },
        Alignment::Center => {
            let left = pad / 2;
            let right = (pad - pad / 2) as nat;
            lemma_gap_measured(left);
            lemma_gap_measured(right);
            lemma_single(gap(left));
            lemma_single(gap(right));
            let ps = seq![gap(left)] + seq![word] + seq![gap(right)];
            lemma_pieces_append(seq![gap(left)], seq![word]);
            lemma_pieces_append(seq![gap(left)] + seq![word], seq![gap(right)]);
            lemma_measured_append(seq![gap(left)], seq![word]);
            lemma_measured_append(seq![gap(left)] + seq![word], seq![gap(right)]);
            ps
        },
        _ => {
            lemma_gap_measured(pad);
            lemma_single(gap(pad));
            let ps = seq![word] + seq![gap(pad)];
            lemma_pieces_append(seq![word], seq![gap(pad)]);
            lemma_measured_append(seq![word], seq![gap(pad)]);
            ps
        },
    }
}

/// Each line of a row's wrapped cells at line `i`, or the empty line past a cell's
/// end, fits its column and holds no newline.
spec fn lines_fit_at(cells: Seq<Seq<Seq<u8>>>, i: int, widths: Seq<usize>) -> bool {
    forall|c: int| 0 <= c < widths.len() ==> {
        &&& lacks(#[trigger] column_line(cells, c, i), 10u8)
        &&& visible_width_spec(column_line(cells, c, i)) <= widths[c]
    }
}

/// The pieces of the first `n` columns of line `i` of a row.
proof fn column_pieces(
    cells: Seq<Seq<Seq<u8>>>,
    i: int,
    widths: Seq<usize>,
    alignments: Seq<Alignment>,
    n: nat,
) -> (ps: Seq<Piece>)
    requires
        n <= widths.len(),
        lines_fit_at(cells, i, widths),
    ensures
        pieces_bytes(ps) == row_line_columns(cells, i, widths, alignments, n),
        pieces_width(ps) == sum_widths(widths.take(n as int)) + 3 * n - (if n > 0 {
            1int
        } else {
            0int
        }),
        forall|j: int| 0 <= j < ps.len() ==> measured(#[trigger] ps[j]),
    decreases n,
{
    if n == 0 {
        assert(widths.take(0) =~= Seq::<usize>::empty());
        Seq::empty()
    } else {
        let c = n - 1;
        let before = column_pieces(cells, i, widths, alignments, (n - 1) as nat);
        let sep: Seq<Piece> = if c > 0 {
            seq![glyph(bar())]
        } else {
            Seq::empty()
        };
        lemma_glyph_measured(bar());
        lemma_single(glyph(bar()));
        lemma_gap_measured(1);
        lemma_single(gap(1));
        assert(spaces(1) =~= seq![32u8]);
        let cell = aligned_pieces(column_line(cells, c, i), widths[c], column_alignment(alignments, c));
        let ps = before + sep + seq![gap(1)] + cell + seq![gap(1)];
        lemma_pieces_append(before, sep);
        lemma_pieces_append(before + sep, seq![gap(1)]);
        lemma_pieces_append(before + sep + seq![gap(1)], cell);
        lemma_pieces_append(before + sep + seq![gap(1)] + cell, seq![gap(1)]);
        lemma_measured_append(before, sep);
        lemma_measured_append(before + sep, seq![gap(1)]);
        lemma_measured_append(before + sep + seq![gap(1)], cell);
        lemma_measured_append(before + sep + seq![gap(1)] + cell, seq![gap(1)]);
        if c > 0 {
            assert(sep =~= seq![glyph(bar())]);
        } else {
            assert(pieces_bytes(sep) =~= Seq::<u8>::empty());
        }
        assert(widths.take(n as int).drop_last() =~= widths.take(n - 1));
        ps
    }
}

/// The pieces of line `i` of a row.
proof fn row_line_pieces(cells: Seq<Seq<Seq<u8>>>, i: int, widths: Seq<usize>, alignments: Seq<Alignment>) -> (ps: Seq<Piece>)
    requires
        widths.len() > 0,
        lines_fit_at(cells, i, widths),
    ensures
        pieces_bytes(ps) == row_line(cells, i, widths, alignments),
        line_spans(ps, table_total_spec(widths)),
{
    lemma_glyph_measured(bar());
    lemma_single(glyph(bar()));
    let cols = column_pieces(cells, i, widths, alignments, widths.len());
    let ps = seq![glyph(bar())] + cols + seq![glyph(bar())];
    lemma_pieces_append(seq![glyph(bar())], cols);
    lemma_pieces_append(seq![glyph(bar())] + cols, seq![glyph(bar())]);
    lemma_measured_append(seq![glyph(bar())], cols);
    lemma_measured_append(seq![glyph(bar())] + cols, seq![glyph(bar())]);
    assert(widths.take(widths.len() as int) =~= widths);
    ps
}

/// Every part of wrapped output split at its newlines holds no newline.
proof fn lemma_split_lines_lack_newline(bytes: Seq<u8>)
    ensures
        forall|i: int| 0 <= i < split_lines(bytes).len() ==> lacks(#[trigger] split_lines(bytes)[i], 10u8),
    decreases bytes.len(),
{
    if bytes.len() > 0 {
        lemma_split_lines_lack_newline(bytes.drop_last());
        crate::grid::lemma_split_lines_nonempty(bytes.drop_last());
        let before = split_lines(bytes.drop_last());
        if bytes.last() != 10u8 {
            let last = before.last().push(bytes.last());
            assert(lacks(before.last(), 10u8));
            assert forall|j: int| 0 <= j < last.len() implies last[j] != 10u8 by {
                if j < before.last().len() {
                    assert(last[j] == before.last()[j]);
                }
            }
            assert forall|i: int| 0 <= i < split_lines(bytes).len() implies lacks(#[trigger] split_lines(bytes)[i], 10u8) by {
                if i < before.len() - 1 {
                    assert(split_lines(bytes)[i] == before[i]);
                }
            }
        } else {
            assert forall|i: int| 0 <= i < split_lines(bytes).len() implies lacks(#[trigger] split_lines(bytes)[i], 10u8) by {
                if i < before.len() {
                    assert(split_lines(bytes)[i] == before[i]);
                }
            }
        }
    }
}

/// The lines of a row, from the first `h` of its output lines.
proof fn row_lines_prefix(
    options: RenderOptions,
    cells: Seq<Seq<Seq<u8>>>,
    widths: Seq<usize>,
    alignments: Seq<Alignment>,
    h: nat,
) -> (lines: Seq<Seq<Piece>>)
    requires
        options.color == ColorMode::Plain,
        widths.len() > 0,
        h > 0,
        forall|i: int| 0 <= i < h ==> #[trigger] lines_fit_at(cells, i, widths),
    ensures
        lines.len() == h,
        joined_lines(lines) == row_lines(options, cells, widths, alignments, h),
        lines_span(lines, table_total_spec(widths)),
    decreases h,
{
    lemma_plain_mode_writes_no_styles(options, body_style(options), Seq::empty());
    let ps = row_line_pieces(cells, h - 1, widths, alignments);
    let line = row_line(cells, h - 1, widths, alignments);
    if h == 1 {
        assert(row_lines(options, cells, widths, alignments, 0) =~= Seq::<u8>::empty());
        assert(row_lines(options, cells, widths, alignments, 1) =~= line);
        seq![ps]
    } else {
        let before = row_lines_prefix(options, cells, widths, alignments, (h - 1) as nat);
        let lines = before.push(ps);
        assert(lines.drop_last() =~= before);
        assert(row_lines(options, cells, widths, alignments, h) =~= joined_lines(before) + seq![10u8] + line);
        assert forall|i: int| 0 <= i < lines.len() implies line_spans(#[trigger] lines[i], table_total_spec(widths)) by {
            if i < before.len() {
                assert(lines[i] == before[i]);
            }
        }
        lines
    }
}

/// The lines of a row of the table.
proof fn row_lines_list(options: RenderOptions, row: Seq<Vec<Inline>>, widths: Seq<usize>, alignments: Seq<Alignment>) -> (lines: Seq<Seq<Piece>>)
    requires
        options.color == ColorMode::Plain,
        widths.len() > 0,
        row_fits(options, row, widths),
    ensures
        lines.len() > 0,
        joined_lines(lines) == row_bytes(options, row, widths, alignments),
        lines_span(lines, table_total_spec(widths)),
{
    let cells = row_cells(options, row, widths);
    assert forall|i: int| 0 <= i < row_height(cells) implies #[trigger] lines_fit_at(cells, i, widths) by {
        assert forall|c: int| 0 <= c < widths.len() implies {
            &&& lacks(#[trigger] column_line(cells, c, i), 10u8)
            &&& visible_width_spec(column_line(cells, c, i)) <= widths[c]
        } by {
            let wrapped = wrapped_cell(options, row_cell(row, c), widths[c]);
            assert(cells[c] == wrapped);
            lemma_split_lines_lack_newline(
                crate::wrap::word_wrap_spec(
                    crate::inlines::inlines_bytes(options, row_cell(row, c), body_style(options), crate::options::LineBreak::Space),
                    widths[c] as int,
                ),
            );
            if 0 <= i < wrapped.len() {
                assert(column_line(cells, c, i) == wrapped[i]);
            } else {
                assert(column_line(cells, c, i) =~= Seq::<u8>::empty());
                assert(visible_total(Seq::<u8>::empty()) == 0);
            }
        }
    }
    row_lines_prefix(options, cells, widths, alignments, row_height(cells))
}

/// The lines of the first `n` body rows, each row after a middle border but the first.
proof fn body_lines_list(
    options: RenderOptions,
    table: &Table,
    widths: Seq<usize>,
    alignments: Seq<Alignment>,
    n: nat,
) -> (lines: Seq<Seq<Piece>>)
    requires
        options.color == ColorMode::Plain,
        widths.len() > 0,
        table_total_spec(widths) <= usize::MAX,
        forall|c: int| 0 <= c < widths.len() ==> #[trigger] widths[c] <= sum_widths(widths),
        n <= table.rows@.len(),
        forall|r: int| 0 <= r < table.rows@.len() ==> row_fits(options, #[trigger] table.rows@[r]@, widths),
    ensures
        n == 0 ==> lines.len() == 0,
        n > 0 ==> lines.len() > 0 && body_rows_bytes(options, table.rows@, widths, alignments, n) == seq![10u8]
            + joined_lines(lines),
        lines_span(lines, table_total_spec(widths)),
    decreases n,
{
    if n == 0 {
        Seq::empty()
    } else {
        let before = body_lines_list(options, table, widths, alignments, (n - 1) as nat);
        let row = row_lines_list(options, table.rows@[n - 1]@, widths, alignments);
        let total = table_total_spec(widths);
        if n == 1 {
            assert(body_rows_bytes(options, table.rows@, widths, alignments, 0) =~= Seq::<u8>::empty());
            assert(before =~= Seq::<Seq<Piece>>::empty());
            assert(before + row =~= row);
            row
        } else {
            lemma_plain_mode_writes_no_styles(options, muted_style(options), Seq::empty());
            let mid = border_pieces(widths, BorderKind::Middle);
            assert(border_bytes(options, widths, BorderKind::Middle) =~= pieces_bytes(mid));
            let lines = before + seq![mid] + row;
            lemma_join_append(before, seq![mid]);
            lemma_join_append(before + seq![mid], row);
            assert(joined_lines(seq![mid]) == pieces_bytes(mid));
            lemma_spans_append(before, seq![mid], total);
            lemma_spans_append(before + seq![mid], row, total);
            assert(body_rows_bytes(options, table.rows@, widths, alignments, n) =~= seq![10u8] + joined_lines(lines));
            lines
        }
    }
}

} // verus!
