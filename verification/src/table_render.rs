//! Table output: cells measured in plain mode, laid out, wrapped to their columns
//! and drawn between box-drawing borders.

use vstd::prelude::*;

use crate::ast::{Alignment, Inline, Table};
use crate::grid::{cells_view, write_border_line, write_table_row_line, BorderKind, WrappedCell};
use crate::inlines::render_inlines_inner;
use crate::layout::{body_rows_bytes, body_style, border_bytes, cell_width, max_lines, measured_table, plain_options, row_bytes, row_cell, row_cells, row_height, row_lines, table_bytes, table_widths, wrapped_cell};
use crate::options::{ColorMode, LineBreak, RenderOptions};
use crate::sgr::{style_end, style_start, write_style_end, write_style_start};
use crate::style::TextStyle;
use crate::table::{column_count, layout_spec, measured_by, measured_cell, measured_row_len, table_layout};
use crate::wrap::word_wrap;
use crate::writer::WidthMeasuringWriter;

verus! {

/// Measures a table cell's display width: its content is rendered in plain mode,
/// so only visible text is counted, and measured as written.
pub fn measure_cell(options: RenderOptions, cell: &Vec<Inline>) -> (r: usize)
    ensures
        r == cell_width(options, cell@),
{
    let plain = RenderOptions { color: ColorMode::Plain, ..options };
    assert(plain == plain_options(options));
    let body = TextStyle::default().fg(options.palette.body);
    let mut buffer: Vec<u8> = Vec::new();
    render_inlines_inner(&mut buffer, plain, cell, body, LineBreak::Space);
    assert(buffer@ =~= crate::inlines::inlines_bytes(plain, cell@, body, LineBreak::Space));
    let mut counter = WidthMeasuringWriter::default();
    counter.write(buffer.as_slice());
    counter.width()
}

/// Renders a cell's content with breaks as spaces and wraps it to `width`.
fn wrap_cell(options: RenderOptions, cell: &Vec<Inline>, width: usize) -> (r: WrappedCell)
    ensures
        r@ == wrapped_cell(options, cell@, width),
{
    let body = TextStyle::default().fg(options.palette.body);
    let mut buffer: Vec<u8> = Vec::new();
    render_inlines_inner(&mut buffer, options, cell, body, LineBreak::Space);
    assert(buffer@ =~= crate::inlines::inlines_bytes(options, cell@, body, LineBreak::Space));
    let wrapped = word_wrap(buffer.as_slice(), width);
    WrappedCell::new(wrapped.as_slice())
}

/// Writes a table row: its cells wrapped to their columns, over as many output
/// lines as the tallest cell needs, each line in body style.
fn write_table_row(
    out: &mut Vec<u8>,
    options: RenderOptions,
    row: &Vec<Vec<Inline>>,
    widths: &Vec<usize>,
    alignments: &Vec<Alignment>,
)
    ensures
        final(out)@ == old(out)@ + row_bytes(options, row@, widths@, alignments@),
{
    let ghost expected = row_cells(options, row@, widths@);
    let empty: Vec<Inline> = Vec::new();
    let mut cells: Vec<WrappedCell> = Vec::new();
    let mut column: usize = 0;
    while column < widths.len()
        invariant
            column <= widths@.len(),
            empty@.len() == 0,
            cells@.len() == column,
            forall|c: int| 0 <= c < column ==> #[trigger] cells@[c]@ == expected[c],
            expected == row_cells(options, row@, widths@),
        decreases widths@.len() - column,
    {
        let cell = if column < row.len() {
            &row[column]
        } else {
            &empty
        };
        assert(cell@ =~= row_cell(row@, column as int));
        let wrapped = wrap_cell(options, cell, widths[column]);
        cells.push(wrapped);
        column += 1;
    }
    assert(cells_view(cells@) =~= expected);
    let mut height: usize = 0;
    let mut index: usize = 0;
    while index < cells.len()
        invariant
            index <= cells@.len(),
            height == max_lines(cells_view(cells@), index as nat),
        decreases cells@.len() - index,
    {
        let lines = cells[index].height();
        if lines > height {
            height = lines;
        }
        index += 1;
    }
    if height < 1 {
        height = 1;
    }
    assert(height == row_height(cells_view(cells@)));
    let body = TextStyle::default().fg(options.palette.body);
    let ghost start = out@;
    let mut line: usize = 0;
    while line < height
        invariant
            line <= height,
            body == body_style(options),
            cells_view(cells@) == expected,
            out@ == start + row_lines(options, expected, widths@, alignments@, line as nat),
        decreases height - line,
    {
        let ghost before = out@;
        if line > 0 {
            out.push(10);
        }
        let ghost after_newline = out@;
        assert(after_newline == before + (if line > 0 {
            seq![10u8]
        } else {
            Seq::<u8>::empty()
        }));
        write_style_start(out, options, body);
        write_table_row_line(out, &cells, line, widths.as_slice(), alignments.as_slice());
        write_style_end(out, options);
        assert(out@ =~= before + (if line > 0 {
            seq![10u8]
        } else {
            Seq::<u8>::empty()
        }) + style_start(options, body_style(options)) + crate::grid::row_line(
            expected,
            line as int,
            widths@,
            alignments@,
        ) + style_end(options));
        assert(row_lines(options, expected, widths@, alignments@, (line + 1) as nat) == row_lines(
            options,
            expected,
            widths@,
            alignments@,
            line as nat,
        ) + (if line + 1 > 1 {
            seq![10u8]
        } else {
            Seq::<u8>::empty()
        }) + style_start(options, body_style(options)) + crate::grid::row_line(
            expected,
            line as int,
            widths@,
            alignments@,
        ) + style_end(options));
        assert(out@ =~= start + row_lines(options, expected, widths@, alignments@, (line + 1) as nat));
        line += 1;
    }
}

/// Writes a border line in the muted style.
fn write_table_border(out: &mut Vec<u8>, options: RenderOptions, widths: &Vec<usize>, kind: BorderKind)
    ensures
        final(out)@ == old(out)@ + border_bytes(options, widths@, kind),
{
    let ghost start = out@;
    write_style_start(out, options, TextStyle::default().fg(options.palette.muted));
    write_border_line(out, widths.as_slice(), kind);
    write_style_end(out, options);
    assert(out@ =~= start + border_bytes(options, widths@, kind));
}

/// Lays a table out: every cell measured in plain mode, the columns sized and
/// shrunk to fit the width limit.
fn layout_table(options: RenderOptions, table: &Table, width: Option<usize>) -> (r: Vec<usize>)
    ensures
        r@ == table_widths(options, table, width),
{
    let measure = |cell: &Vec<Inline>| -> (w: usize)
        ensures
            w == cell_width(options, cell@),
        { measure_cell(options, cell) };
    let widths = table_layout(table, measure, width);
    proof {
        let m = choose|m: Seq<Seq<usize>>|
            measured_by(measure, table, m) && widths@ == layout_spec(
                column_count(table) as nat,
                m,
                width,
            );
        let expected = measured_table(options, table);
        assert forall|r: int| 0 <= r < m.len() implies #[trigger] m[r] =~= expected[r] by {
            assert(m[r].len() == measured_row_len(table, column_count(table), r));
            assert forall|c: int| 0 <= c < m[r].len() implies m[r][c] == expected[r][c] by {
                assert(call_ensures(measure, (measured_cell(table, r, c),), m[r][c]));
            }
        }
        assert(m =~= expected);
    }
    widths
}

/// Writes the header row and the border under it, when the table has a header.
fn write_table_header(out: &mut Vec<u8>, options: RenderOptions, table: &Table, widths: &Vec<usize>)
    ensures
        final(out)@ == old(out)@ + (if table.header@.len() > 0 {
            seq![10u8] + row_bytes(options, table.header@, widths@, table.alignments@) + seq![10u8]
                + border_bytes(options, widths@, BorderKind::Middle)
        } else {
            Seq::empty()
        }),
{
    let ghost start = out@;
    if table.header.len() > 0 {
        out.push(10);
        write_table_row(out, options, &table.header, widths, &table.alignments);
        out.push(10);
        write_table_border(out, options, widths, BorderKind::Middle);
        assert(out@ =~= start + seq![10u8] + row_bytes(options, table.header@, widths@, table.alignments@)
            + seq![10u8] + border_bytes(options, widths@, BorderKind::Middle));
    } else {
        assert(out@ =~= start + Seq::<u8>::empty());
    }
}

/// Writes the body rows, each on a new line, separated by middle borders.
fn write_body_rows(out: &mut Vec<u8>, options: RenderOptions, table: &Table, widths: &Vec<usize>)
    ensures
        final(out)@ == old(out)@ + body_rows_bytes(
            options,
            table.rows@,
            widths@,
            table.alignments@,
            table.rows@.len(),
        ),
{
    let ghost head = out@;
    let mut index: usize = 0;
    while index < table.rows.len()
        invariant
            index <= table.rows@.len(),
            out@ == head + body_rows_bytes(
                options,
                table.rows@,
                widths@,
                table.alignments@,
                index as nat,
            ),
        decreases table.rows@.len() - index,
    {
        let ghost before = out@;
        out.push(10);
        if index > 0 {
            write_table_border(out, options, widths, BorderKind::Middle);
            out.push(10);
        }
        let ghost mid = out@;
        assert(mid == before + seq![10u8] + (if index + 1 > 1 {
            border_bytes(options, widths@, BorderKind::Middle) + seq![10u8]
        } else {
            Seq::<u8>::empty()
        }));
        write_table_row(out, options, &table.rows[index], widths, &table.alignments);
        assert(out@ =~= head + body_rows_bytes(
            options,
            table.rows@,
            widths@,
            table.alignments@,
            (index + 1) as nat,
        ));
        index += 1;
    }
}

/// Writes a table between box-drawing borders; a table without columns writes
/// nothing.
pub fn render_table(out: &mut Vec<u8>, options: RenderOptions, table: &Table, width: Option<usize>)
    ensures
        final(out)@ == old(out)@ + table_bytes(options, table, width),
{
    let ghost start = out@;
    let widths = layout_table(options, table, width);
    if widths.len() == 0 {
        assert(out@ =~= start + table_bytes(options, table, width));
        return;
    }
    write_table_border(out, options, &widths, BorderKind::Top);
    let ghost after_top = out@;
    write_table_header(out, options, table, &widths);
    let ghost head = out@;
    write_body_rows(out, options, table, &widths);
    let ghost body = out@;
    out.push(10);
    write_table_border(out, options, &widths, BorderKind::Bottom);
    assert(out@ =~= start + table_bytes(options, table, width));
}

} // verus!
