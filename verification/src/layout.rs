//! What the renderer writes for each kind of block, as byte sequences.

use vstd::prelude::*;
use vstd::utf8::encode_utf8;

use crate::ast::{Block, BlockQuote, BlockQuoteKind, CodeBlock, Heading, Inline, LinkKind, ListItem, ListKind, Table, TaskState};
use crate::bytes::{decimal, repeat, spaces};
use crate::grid::{border_line, dash, row_line, split_lines, BorderKind};
use crate::inlines::{inlines_bytes, styled_inlines};
use crate::list::{spec_ordinal, spec_task_marker, spec_unordered_marker};
use crate::options::{ColorMode, LineBreak, RenderOptions, RenderState};
use crate::sgr::{style_end, style_start, styled};
use crate::style::{plain_style, spec_heading_style, TextStyle, BOLD, DIM, ITALIC};
use crate::syntax::spec_highlighted_ranges;
use crate::table::{column_count, layout_spec, measured_cell, measured_row_len};
use crate::wrap::{spec_display_width, word_wrap_spec};
use crate::writer::{measure_write, prefix_bytes, prefix_init, MeasureState};

verus! {

/// `x` capped at the largest `usize`.
pub open spec fn saturate(x: int) -> usize {
    if x <= usize::MAX {
        x as usize
    } else {
        usize::MAX
    }
}

/// A width limit reduced by `n` columns, not below zero.
pub open spec fn sub_width(width: Option<usize>, n: usize) -> Option<usize> {
    match width {
        Some(w) => Some(
            if w >= n {
                (w - n) as usize
            } else {
                0usize
            },
        ),
        None => None,
    }
}

/// The nesting depth of a child list, saturating.
pub open spec fn next_depth(depth: usize) -> usize {
    saturate(depth + 1)
}

/// Style of body text.
pub open spec fn body_style(options: RenderOptions) -> TextStyle {
    plain_style().with_fg(options.palette.body)
}

/// Style of decorations: quote bars and borders are drawn muted.
pub open spec fn muted_style(options: RenderOptions) -> TextStyle {
    plain_style().with_fg(options.palette.muted)
}

/// Style of quote bars.
pub open spec fn quote_style(options: RenderOptions) -> TextStyle {
    plain_style().with_fg(options.palette.muted).with(DIM)
}

/// Style of list markers and alert labels.
pub open spec fn marker_style(options: RenderOptions) -> TextStyle {
    plain_style().with_fg(options.palette.list_marker).with(BOLD)
}

/// Style of a task checkbox.
pub open spec fn task_style(options: RenderOptions, task: TaskState) -> TextStyle {
    match task {
        TaskState::Checked => plain_style().with_fg(options.palette.list_marker),
        TaskState::Unchecked => plain_style().with_fg(options.palette.muted).with(DIM),
    }
}

/// Style of code fences.
pub open spec fn fence_style(options: RenderOptions) -> TextStyle {
    plain_style().with_fg(options.palette.code_fence).with(DIM)
}

/// Style of an unhighlighted code body.
pub open spec fn code_style(options: RenderOptions) -> TextStyle {
    plain_style().with_fg(options.palette.inline_code)
}

/// Three backticks.
pub open spec fn fence() -> Seq<u8> {
    seq![96u8, 96u8, 96u8]
}

/// `│`, the quote bar.
pub open spec fn quote_bar() -> Seq<u8> {
    seq![0xe2u8, 0x94u8, 0x82u8]
}

/// The width to wrap at once `indent` columns are taken: at least one column.
pub open spec fn wrap_width(width: usize, indent: usize) -> usize {
    if width > indent {
        (width - indent) as usize
    } else {
        1usize
    }
}

/// Inline content reflowed to `width`: soft breaks become spaces, words wrap, and
/// continuation lines are indented by `break_prefix` columns, which the wrap width
/// leaves room for.
pub open spec fn reflowed_bytes(
    options: RenderOptions,
    inlines: Seq<Inline>,
    style: TextStyle,
    break_prefix: Option<usize>,
    width: usize,
) -> Seq<u8> {
    let indent = match break_prefix {
        Some(p) => p,
        None => 0usize,
    };
    prefix_bytes(
        prefix_init(true),
        spaces(indent as nat),
        Seq::empty(),
        word_wrap_spec(
            styled_inlines(options, inlines, style, LineBreak::Reflow),
            wrap_width(width, indent) as int,
        ),
    ).out
}

/// A paragraph in body style: source line breaks kept (continuation lines indented
/// by `break_prefix`) without a width limit, reflowed with one.
pub open spec fn paragraph_bytes(
    options: RenderOptions,
    inlines: Seq<Inline>,
    break_prefix: Option<usize>,
    width: Option<usize>,
) -> Seq<u8> {
    match width {
        None => styled_inlines(
            options,
            inlines,
            body_style(options),
            LineBreak::Newline(break_prefix),
        ),
        Some(w) => reflowed_bytes(options, inlines, body_style(options), break_prefix, w),
    }
}

/// A heading in its level's style.
pub open spec fn heading_bytes(options: RenderOptions, heading: Heading, width: Option<usize>) -> Seq<u8> {
    let style = spec_heading_style(heading.level, options.palette);
    match width {
        None => styled_inlines(options, heading.children@, style, LineBreak::Newline(None)),
        Some(w) => reflowed_bytes(options, heading.children@, style, None, w),
    }
}

/// The visible label of an alert kind.
pub open spec fn alert_label(kind: BlockQuoteKind) -> Seq<u8> {
    match kind {
        BlockQuoteKind::Note => seq![78u8, 79u8, 84u8, 69u8],
        BlockQuoteKind::Tip => seq![84u8, 73u8, 80u8],
        BlockQuoteKind::Important => seq![73u8, 77u8, 80u8, 79u8, 82u8, 84u8, 65u8, 78u8, 84u8],
        BlockQuoteKind::Warning => seq![87u8, 65u8, 82u8, 78u8, 73u8, 78u8, 71u8],
        BlockQuoteKind::Caution => seq![67u8, 65u8, 85u8, 84u8, 73u8, 79u8, 78u8],
    }
}

/// The label at the top of an alert is its kind's name in capitals (`NOTE`, `TIP`,
/// `IMPORTANT`, `WARNING`, `CAUTION`): upper-case ASCII letters only, and no two
/// kinds share a label.
pub proof fn lemma_alert_labels_name_their_kind()
    ensures
        alert_label(BlockQuoteKind::Note) == seq![0x4eu8, 0x4fu8, 0x54u8, 0x45u8],
        alert_label(BlockQuoteKind::Tip) == seq![0x54u8, 0x49u8, 0x50u8],
        alert_label(BlockQuoteKind::Important) == seq![0x49u8, 0x4du8, 0x50u8, 0x4fu8, 0x52u8, 0x54u8, 0x41u8, 0x4eu8, 0x54u8],
        alert_label(BlockQuoteKind::Warning) == seq![0x57u8, 0x41u8, 0x52u8, 0x4eu8, 0x49u8, 0x4eu8, 0x47u8],
        alert_label(BlockQuoteKind::Caution) == seq![0x43u8, 0x41u8, 0x55u8, 0x54u8, 0x49u8, 0x4fu8, 0x4eu8],
        forall|kind: BlockQuoteKind, i: int|
            0 <= i < alert_label(kind).len() ==> 0x41u8 <= #[trigger] alert_label(kind)[i] <= 0x5au8,
        forall|a: BlockQuoteKind, b: BlockQuoteKind| a != b ==> #[trigger] alert_label(a) != #[trigger] alert_label(b),
{
    assert forall|a: BlockQuoteKind, b: BlockQuoteKind| a != b implies #[trigger] alert_label(a) != #[trigger] alert_label(b) by {
        if alert_label(a).len() == alert_label(b).len() {
            assert(alert_label(a)[0] != alert_label(b)[0]);
        }
    }
}

/// The newline that separates a block from what was rendered before it.
pub open spec fn separator(state: RenderState) -> Seq<u8> {
    if state.has_rendered {
        seq![10u8]
    } else {
        Seq::empty()
    }
}

/// The state after `piece` was written: rendered once anything is written, and
/// ending with a newline as the last byte written says.
pub open spec fn next_state(state: RenderState, piece: Seq<u8>) -> RenderState {
    if piece.len() > 0 {
        RenderState { has_rendered: true, ended_with_newline: piece.last() == 10u8 }
    } else {
        state
    }
}

/// Bytes without their trailing run of newlines.
pub open spec fn trim_newlines(bytes: Seq<u8>) -> Seq<u8>
    decreases bytes.len(),
{
    if bytes.len() > 0 && bytes.last() == 10u8 {
        trim_newlines(bytes.drop_last())
    } else {
        bytes
    }
}

/// What `finish` leaves: once anything was rendered, the output without its
/// trailing newlines and then exactly one newline; otherwise the output unchanged.
pub open spec fn finish_output(out: Seq<u8>, state: RenderState) -> Seq<u8> {
    if state.has_rendered {
        trim_newlines(out).push(10u8)
    } else {
        out
    }
}

/// Trimming keeps a prefix of the bytes, and what it keeps does not end with a
/// newline.
pub proof fn lemma_trim_newlines(bytes: Seq<u8>)
    ensures
        trim_newlines(bytes).len() <= bytes.len(),
        trim_newlines(bytes) == bytes.subrange(0, trim_newlines(bytes).len() as int),
        trim_newlines(bytes).len() > 0 ==> trim_newlines(bytes).last() != 10u8,
        forall|i: int| trim_newlines(bytes).len() <= i < bytes.len() ==> bytes[i] == 10u8,
    decreases bytes.len(),
{
    if bytes.len() > 0 && bytes.last() == 10u8 {
        lemma_trim_newlines(bytes.drop_last());
        let t = trim_newlines(bytes.drop_last());
        assert(bytes.drop_last().subrange(0, t.len() as int) =~= bytes.subrange(0, t.len() as int));
        assert forall|i: int| t.len() <= i < bytes.len() implies bytes[i] == 10u8 by {
            if i < bytes.len() - 1 {
                assert(bytes[i] == bytes.drop_last()[i]);
            }
        }
    } else {
        assert(bytes.subrange(0, bytes.len() as int) =~= bytes);
    }
}

/// The bytes of a marker for the item at `index` of a list of `kind` nested
/// `depth` levels deep.
pub open spec fn kind_marker_bytes(kind: ListKind, index: int, depth: int) -> Seq<u8> {
    match kind {
        ListKind::Ordered { start } => decimal(spec_ordinal(start, index) as nat).push(46u8),
        ListKind::Unordered => encode_utf8(spec_unordered_marker(depth)),
    }
}

/// The display width of such a marker.
pub open spec fn kind_marker_width(kind: ListKind, index: int, depth: int) -> int {
    match kind {
        ListKind::Ordered { start } => decimal(spec_ordinal(start, index) as nat).len() + 1int,
        ListKind::Unordered => spec_display_width(spec_unordered_marker(depth)) as int,
    }
}

/// The width of a task checkbox and its space, if any.
pub open spec fn task_width(task: Option<TaskState>) -> int {
    match task {
        Some(state) => spec_display_width(spec_task_marker(state)) + 1,
        None => 0,
    }
}

/// The column where an item's content starts: the indent, the marker, a space, and
/// the checkbox with its space.
pub open spec fn content_column(
    indent: usize,
    kind: ListKind,
    index: int,
    depth: int,
    task: Option<TaskState>,
) -> usize {
    saturate(indent + kind_marker_width(kind, index, depth) + 1 + task_width(task))
}

/// A task checkbox after the marker: a space and the styled glyph.
pub open spec fn task_bytes(options: RenderOptions, task: Option<TaskState>) -> Seq<u8> {
    match task {
        Some(state) => seq![32u8] + styled(
            options,
            task_style(options, state),
            encode_utf8(spec_task_marker(state)),
        ),
        None => Seq::empty(),
    }
}

/// The bytes of a code block's info string, if any.
pub open spec fn info_bytes(code_block: CodeBlock) -> Seq<u8> {
    match code_block.info {
        Some(info) => info.spec_bytes(),
        None => Seq::empty(),
    }
}

/// The info string's characters, if any.
pub open spec fn info_chars(code_block: CodeBlock) -> Option<Seq<char>> {
    match code_block.info {
        Some(info) => Some(info@),
        None => None,
    }
}

/// Highlighted ranges, each in its style.
pub open spec fn ranges_bytes(options: RenderOptions, ranges: Seq<(TextStyle, Seq<char>)>) -> Seq<u8>
    decreases ranges.len(),
{
    if ranges.len() == 0 {
        Seq::empty()
    } else {
        ranges_bytes(options, ranges.drop_last()) + styled(
            options,
            ranges.last().0,
            encode_utf8(ranges.last().1),
        )
    }
}

/// A code block's body given its highlighted ranges: the ranges, each in its
/// style, or without ranges the text in the code style.
pub open spec fn highlighted_body(
    options: RenderOptions,
    code_block: CodeBlock,
    ranges: Option<Seq<(TextStyle, Seq<char>)>>,
) -> Seq<u8> {
    match ranges {
        Some(ranges) => ranges_bytes(options, ranges),
        None => styled(options, code_style(options), code_block.text.spec_bytes()),
    }
}

/// The ranges a code block is highlighted with: only in ANSI mode, and only when
/// the highlighter succeeds.
pub open spec fn code_ranges(options: RenderOptions, code_block: CodeBlock) -> Option<Seq<(TextStyle, Seq<char>)>> {
    if options.color == ColorMode::Ansi {
        spec_highlighted_ranges(info_chars(code_block), code_block.text@, options.code_theme)
    } else {
        None
    }
}

/// A code block's body: highlighted ranges in ANSI mode when the block is
/// highlighted, else the text in the code style.
pub open spec fn code_body_bytes(options: RenderOptions, code_block: CodeBlock) -> Seq<u8> {
    highlighted_body(options, code_block, code_ranges(options, code_block))
}

/// Whether a text ends with a newline.
pub open spec fn ends_with_newline(text: Seq<char>) -> bool {
    text.len() > 0 && text.last() == '\n'
}

/// A code block with the given body bytes: the opening fence with the info
/// string, the body on its own lines, and a closing fence on a line of its own.
pub open spec fn code_block_frame(options: RenderOptions, code_block: CodeBlock, body: Seq<u8>) -> Seq<u8> {
    style_start(options, fence_style(options)) + fence() + info_bytes(code_block) + style_end(
        options,
    ) + (if code_block.text@.len() > 0 {
        seq![10u8] + body
    } else {
        Seq::empty()
    }) + (if ends_with_newline(code_block.text@) {
        Seq::empty()
    } else {
        seq![10u8]
    }) + styled(options, fence_style(options), fence())
}

/// A code block: the opening fence with the info string, the body on its own
/// lines, and a closing fence on a line of its own.
pub open spec fn code_block_bytes(options: RenderOptions, code_block: CodeBlock) -> Seq<u8> {
    code_block_frame(options, code_block, code_body_bytes(options, code_block))
}

/// A thematic break: a muted rule of 32 columns.
pub open spec fn rule_bytes(options: RenderOptions) -> Seq<u8> {
    style_start(options, muted_style(options)) + repeat(dash(), 32) + style_end(options)
}

/// Options with the same palette and theme that write no escapes.
pub open spec fn plain_options(options: RenderOptions) -> RenderOptions {
    RenderOptions { color: ColorMode::Plain, ..options }
}

/// The measured display width of a table cell: its content rendered in plain mode
/// with breaks as spaces, measured as written.
pub open spec fn cell_width(options: RenderOptions, cell: Seq<Inline>) -> usize {
    measure_write(
        MeasureState { width: 0, carry: Seq::empty() },
        inlines_bytes(plain_options(options), cell, body_style(options), LineBreak::Space),
    ).width
}

/// The measured widths of a table's cells, header row first.
pub open spec fn measured_table(options: RenderOptions, table: &Table) -> Seq<Seq<usize>> {
    Seq::new(
        (table.rows@.len() + 1) as nat,
        |r: int|
            Seq::new(
                measured_row_len(table, column_count(table), r) as nat,
                |c: int| cell_width(options, measured_cell(table, r, c)@),
            ),
    )
}

/// The column widths a table is drawn with.
pub open spec fn table_widths(options: RenderOptions, table: &Table, width: Option<usize>) -> Seq<usize> {
    layout_spec(column_count(table) as nat, measured_table(options, table), width)
}

/// The content of column `c` of a row, empty for a missing cell.
pub open spec fn row_cell(row: Seq<Vec<Inline>>, c: int) -> Seq<Inline> {
    if 0 <= c < row.len() {
        row[c]@
    } else {
        Seq::empty()
    }
}

/// A cell's content rendered with breaks as spaces, wrapped to its column, as lines.
pub open spec fn wrapped_cell(options: RenderOptions, cell: Seq<Inline>, width: usize) -> Seq<Seq<u8>> {
    split_lines(
        word_wrap_spec(
            inlines_bytes(options, cell, body_style(options), LineBreak::Space),
            width as int,
        ),
    )
}

/// The wrapped lines of each column of a row.
pub open spec fn row_cells(options: RenderOptions, row: Seq<Vec<Inline>>, widths: Seq<usize>) -> Seq<
    Seq<Seq<u8>>,
> {
    Seq::new(widths.len(), |c: int| wrapped_cell(options, row_cell(row, c), widths[c]))
}

/// The most lines any of the first `n` cells has.
pub open spec fn max_lines(cells: Seq<Seq<Seq<u8>>>, n: nat) -> nat
    decreases n,
{
    if n == 0 {
        0
    } else {
        let before = max_lines(cells, (n - 1) as nat);
        if cells[n - 1].len() > before {
            cells[n - 1].len()
        } else {
            before
        }
    }
}

/// The number of output lines of a row: its tallest cell, at least one.
pub open spec fn row_height(cells: Seq<Seq<Seq<u8>>>) -> nat {
    if max_lines(cells, cells.len()) > 1 {
        max_lines(cells, cells.len())
    } else {
        1
    }
}

/// The first `n` output lines of a row, each in body style.
pub open spec fn row_lines(
    options: RenderOptions,
    cells: Seq<Seq<Seq<u8>>>,
    widths: Seq<usize>,
    alignments: Seq<crate::ast::Alignment>,
    n: nat,
) -> Seq<u8>
    decreases n,
{
    if n == 0 {
        Seq::empty()
    } else {
        row_lines(options, cells, widths, alignments, (n - 1) as nat) + (if n > 1 {
            seq![10u8]
        } else {
            Seq::empty()
        }) + style_start(options, body_style(options)) + row_line(
            cells,
            n - 1,
            widths,
            alignments,
        ) + style_end(options)
    }
}

/// A table row: as many output lines as its tallest wrapped cell.
pub open spec fn row_bytes(
    options: RenderOptions,
    row: Seq<Vec<Inline>>,
    widths: Seq<usize>,
    alignments: Seq<crate::ast::Alignment>,
) -> Seq<u8> {
    let cells = row_cells(options, row, widths);
    row_lines(options, cells, widths, alignments, row_height(cells))
}

/// A border line in the muted style.
pub open spec fn border_bytes(options: RenderOptions, widths: Seq<usize>, kind: BorderKind) -> Seq<u8> {
    style_start(options, muted_style(options)) + border_line(widths, kind) + style_end(options)
}

/// The first `n` body rows, each on a new line, separated by middle borders.
pub open spec fn body_rows_bytes(
    options: RenderOptions,
    rows: Seq<Vec<Vec<Inline>>>,
    widths: Seq<usize>,
    alignments: Seq<crate::ast::Alignment>,
    n: nat,
) -> Seq<u8>
    decreases n,
{
    if n == 0 {
        Seq::empty()
    } else {
        body_rows_bytes(options, rows, widths, alignments, (n - 1) as nat) + seq![10u8] + (if n
            > 1 {
            border_bytes(options, widths, BorderKind::Middle) + seq![10u8]
        } else {
            Seq::empty()
        }) + row_bytes(options, rows[n - 1]@, widths, alignments)
    }
}

/// A table: top border, the header and a middle border when there is a header,
/// the body rows, bottom border; nothing for a table without columns.
pub open spec fn table_bytes(options: RenderOptions, table: &Table, width: Option<usize>) -> Seq<u8> {
    let widths = table_widths(options, table, width);
    if widths.len() == 0 {
        Seq::empty()
    } else {
        border_bytes(options, widths, BorderKind::Top) + (if table.header@.len() > 0 {
            seq![10u8] + row_bytes(options, table.header@, widths, table.alignments@) + seq![10u8]
                + border_bytes(options, widths, BorderKind::Middle)
        } else {
            Seq::empty()
        }) + body_rows_bytes(
            options,
            table.rows@,
            widths,
            table.alignments@,
            table.rows@.len(),
        ) + seq![10u8] + border_bytes(options, widths, BorderKind::Bottom)
    }
}

/// A block rendered at nesting `depth` within an optional width limit.
pub open spec fn block_bytes(options: RenderOptions, block: Block, depth: usize, width: Option<usize>) -> Seq<u8>
    decreases block,
{
    match block {
        Block::Paragraph(inlines) => paragraph_bytes(options, inlines@, None, width),
        Block::Heading(heading) => heading_bytes(options, heading, width),
        Block::BlockQuote(quote) => quote_bytes(options, quote, depth, width),
        Block::List(list) => list_items_bytes(
            options,
            list.kind,
            list.loose,
            list.items@,
            depth,
            0,
            width,
        ),
        Block::CodeBlock(code_block) => code_block_bytes(options, code_block),
        Block::HtmlBlock(text) => trim_newlines(text.spec_bytes()),
        Block::Table(table) => table_bytes(options, &table, width),
        Block::ThematicBreak => rule_bytes(options),
        Block::BlankLine => Seq::empty(),
    }
}

/// Blocks rendered one after another from `state`, each after a separating
/// newline once something was rendered: the bytes and the state after them.
pub open spec fn session(
    options: RenderOptions,
    state: RenderState,
    blocks: Seq<Block>,
    depth: usize,
    width: Option<usize>,
) -> (Seq<u8>, RenderState)
    decreases blocks,
{
    if blocks.len() == 0 {
        (Seq::empty(), state)
    } else {
        let (before, mid) = session(options, state, blocks.drop_last(), depth, width);
        let piece = separator(mid) + block_bytes(options, blocks.last(), depth, width);
        (before + piece, next_state(mid, piece))
    }
}

/// A block quote: every line of its content behind a bar (a bare bar on blank
/// lines); an empty quote is a single bar.
pub open spec fn quote_bytes(options: RenderOptions, quote: BlockQuote, depth: usize, width: Option<usize>) -> Seq<u8>
    decreases quote,
{
    let label = match quote.kind {
        Some(kind) => styled(options, marker_style(options), alert_label(kind)),
        None => Seq::empty(),
    };
    let start = RenderState { has_rendered: quote.kind is Some, ended_with_newline: false };
    let inner = label + session(options, start, quote.blocks@, depth, sub_width(width, 2)).0;
    if inner.len() > 0 {
        prefix_bytes(
            prefix_init(false),
            styled(options, quote_style(options), quote_bar().push(32u8)),
            styled(options, quote_style(options), quote_bar()),
            inner,
        ).out
    } else {
        styled(options, quote_style(options), quote_bar())
    }
}

/// The items of a list, separated by a newline (a blank line in a loose list).
pub open spec fn list_items_bytes(
    options: RenderOptions,
    kind: ListKind,
    loose: bool,
    items: Seq<ListItem>,
    depth: usize,
    indent: usize,
    width: Option<usize>,
) -> Seq<u8>
    decreases items,
{
    if items.len() == 0 {
        Seq::empty()
    } else {
        let index = items.len() - 1;
        list_items_bytes(options, kind, loose, items.drop_last(), depth, indent, width) + (if index
            > 0 {
            if loose {
                seq![10u8, 10u8]
            } else {
                seq![10u8]
            }
        } else {
            Seq::empty()
        }) + item_bytes(options, kind, index, items.last(), depth, indent, width)
    }
}

/// A list item: indent, styled marker, checkbox, then its blocks from the content
/// column (the first on the marker's line).
pub open spec fn item_bytes(
    options: RenderOptions,
    kind: ListKind,
    index: int,
    item: ListItem,
    depth: usize,
    indent: usize,
    width: Option<usize>,
) -> Seq<u8>
    decreases item,
{
    spaces(indent as nat) + style_start(options, marker_style(options)) + kind_marker_bytes(
        kind,
        index,
        depth as int,
    ) + style_end(options) + task_bytes(options, item.task) + if item.blocks@.len() == 0 {
        Seq::empty()
    } else {
        seq![32u8] + item_blocks_bytes(
            options,
            item.blocks@,
            content_column(indent, kind, index, depth as int, item.task),
            depth,
            width,
        )
    }
}

/// The blocks of a list item, one per line: paragraphs continue at the content
/// column, blank lines add nothing, and other blocks are indented to the content
/// column (the first one hanging after the marker).
pub open spec fn item_blocks_bytes(
    options: RenderOptions,
    blocks: Seq<Block>,
    content: usize,
    depth: usize,
    width: Option<usize>,
) -> Seq<u8>
    decreases blocks,
{
    if blocks.len() == 0 {
        Seq::empty()
    } else {
        let index = blocks.len() - 1;
        item_blocks_bytes(options, blocks.drop_last(), content, depth, width) + (if index > 0 {
            seq![10u8]
        } else {
            Seq::empty()
        }) + match blocks.last() {
            Block::Paragraph(inlines) => (if index > 0 {
                spaces(content as nat)
            } else {
                Seq::empty()
            }) + paragraph_bytes(options, inlines@, Some(content), width),
            Block::BlankLine => Seq::empty(),
            child => prefix_bytes(
                prefix_init(index == 0),
                spaces(content as nat),
                Seq::empty(),
                block_bytes(options, child, next_depth(depth), sub_width(width, content)),
            ).out,
        }
    }
}

} // verus!

verus! {

/// The state agrees with the output written so far: something was rendered
/// exactly when the output is non-empty, and then the state knows whether its
/// last byte is a newline.
pub open spec fn state_matches(out: Seq<u8>, state: RenderState) -> bool {
    &&& state.has_rendered == (out.len() > 0)
    &&& out.len() > 0 ==> state.ended_with_newline == (out.last() == 10u8)
}

/// Writing a piece keeps the state in agreement with the output.
pub proof fn lemma_next_state_matches(out: Seq<u8>, state: RenderState, piece: Seq<u8>)
    requires
        state_matches(out, state),
    ensures
        state_matches(out + piece, next_state(state, piece)),
{
    if piece.len() > 0 {
        assert((out + piece).last() == piece.last());
    } else {
        assert(out + piece =~= out);
    }
}

/// Rendering blocks one after another keeps the state in agreement with the output.
pub proof fn lemma_session_matches(
    options: RenderOptions,
    out: Seq<u8>,
    state: RenderState,
    blocks: Seq<Block>,
    depth: usize,
    width: Option<usize>,
)
    requires
        state_matches(out, state),
    ensures
        state_matches(
            out + session(options, state, blocks, depth, width).0,
            session(options, state, blocks, depth, width).1,
        ),
    decreases blocks.len(),
{
    if blocks.len() > 0 {
        let (before, mid) = session(options, state, blocks.drop_last(), depth, width);
        lemma_session_matches(options, out, state, blocks.drop_last(), depth, width);
        let piece = separator(mid) + block_bytes(options, blocks.last(), depth, width);
        lemma_next_state_matches(out + before, mid, piece);
        assert(out + before + piece =~= out + (before + piece));
    } else {
        assert(out + Seq::<u8>::empty() =~= out);
    }
}

/// `finish` completes agreeing output: empty output stays empty; otherwise the
/// result ends with exactly one newline, keeps everything before the output's
/// trailing newlines, and output that did not end with a newline just gains one.
pub proof fn lemma_finish_terminates_output(out: Seq<u8>, state: RenderState)
    requires
        state_matches(out, state),
    ensures
        out.len() == 0 ==> finish_output(out, state) == out,
        out.len() > 0 ==> finish_output(out, state).len() > 0 && finish_output(out, state).last() == 10u8,
        finish_output(out, state).len() >= 2 ==> finish_output(out, state)[finish_output(out, state).len() - 2]
            != 10u8,
        trim_newlines(finish_output(out, state)) == trim_newlines(out),
        out.len() > 0 && out.last() != 10u8 ==> finish_output(out, state) == out.push(10u8),
{
    lemma_trim_newlines(out);
    if out.len() > 0 {
        let t = trim_newlines(out);
        let f = t.push(10u8);
        assert(f.drop_last() =~= t);
        lemma_trim_newlines(t);
        if t.len() > 0 {
            assert(trim_newlines(t) == t);
        }
        if out.last() != 10u8 {
            assert(t == out);
        }
        if f.len() >= 2 {
            assert(f[f.len() - 2] == t.last());
        }
    }
}

/// A whole document rendered block by block from the initial state and finished.
pub open spec fn rendered_document(options: RenderOptions, blocks: Seq<Block>) -> Seq<u8> {
    let (out, state) = session(
        options,
        RenderState { has_rendered: false, ended_with_newline: false },
        blocks,
        0,
        options.width,
    );
    finish_output(out, state)
}

/// Rendered output that wrote anything ends with exactly one newline, after all
/// that the blocks wrote but their trailing newlines; a document that renders to
/// nothing (such as one of blank lines only) stays empty after `finish`.
pub proof fn lemma_rendered_document_ends_with_newline(options: RenderOptions, blocks: Seq<Block>)
    ensures
        ({
            let doc = rendered_document(options, blocks);
            let out = session(
                options,
                RenderState { has_rendered: false, ended_with_newline: false },
                blocks,
                0,
                options.width,
            ).0;
            &&& out.len() == 0 ==> doc.len() == 0
            &&& out.len() > 0 ==> doc == trim_newlines(out).push(10u8)
            &&& doc.len() > 0 ==> doc.last() == 10u8
            &&& doc.len() >= 2 ==> doc[doc.len() - 2] != 10u8
        }),
{
    let start = RenderState { has_rendered: false, ended_with_newline: false };
    lemma_session_matches(options, Seq::empty(), start, blocks, 0, options.width);
    let (out, state) = session(options, start, blocks, 0, options.width);
    assert(Seq::<u8>::empty() + out =~= out);
    lemma_finish_terminates_output(out, state);
}

} // verus!

verus! {

/// Code blocks are never wrapped: what a code block renders to does not depend
/// on the width limit or the nesting depth.
pub proof fn lemma_code_blocks_ignore_width(
    options: RenderOptions,
    code_block: CodeBlock,
    depth: usize,
    other_depth: usize,
    width: Option<usize>,
    other_width: Option<usize>,
)
    ensures
        block_bytes(options, Block::CodeBlock(code_block), depth, width) == block_bytes(
            options,
            Block::CodeBlock(code_block),
            other_depth,
            other_width,
        ),
{
}

/// Plain mode writes no escape sequences of its own: every style start, style end
/// and style restore is empty, and styled text is the text itself.
pub proof fn lemma_plain_mode_writes_no_styles(options: RenderOptions, style: TextStyle, text: Seq<u8>)
    requires
        options.color == ColorMode::Plain,
    ensures
        style_start(options, style).len() == 0,
        style_end(options).len() == 0,
        crate::sgr::restore(options, style).len() == 0,
        styled(options, style, text) == text,
{
    assert(crate::sgr::restore(options, style) =~= Seq::<u8>::empty());
    assert(styled(options, style, text) =~= text);
}

/// Whether `bytes` holds no escape byte (0x1b).
pub open spec fn no_escape(bytes: Seq<u8>) -> bool {
    forall|i: int| 0 <= i < bytes.len() ==> bytes[i] != 27u8
}

/// Whether an optional text holds no escape byte.
pub open spec fn title_clean(title: Option<crate::text::Text>) -> bool {
    match title {
        Some(t) => no_escape(t.spec_bytes()),
        None => true,
    }
}

/// Whether no text of an inline node (text, code, destination, title) holds an
/// escape byte.
pub open spec fn inline_clean(inline: Inline) -> bool
    decreases inline,
{
    match inline {
        Inline::Text(text) => no_escape(text.spec_bytes()),
        Inline::Code(text) => no_escape(text.spec_bytes()),
        Inline::Emphasis(children) => forall|i: int|
            0 <= i < children@.len() ==> inline_clean(#[trigger] children@[i]),
        Inline::Strong(children) => forall|i: int|
            0 <= i < children@.len() ==> inline_clean(#[trigger] children@[i]),
        Inline::Strikethrough(children) => forall|i: int|
            0 <= i < children@.len() ==> inline_clean(#[trigger] children@[i]),
        Inline::Link { destination, title, children, .. } => no_escape(destination.spec_bytes()) && title_clean(title)
            && forall|i: int| 0 <= i < children@.len() ==> inline_clean(#[trigger] children@[i]),
        Inline::Image { destination, title, alt } => no_escape(destination.spec_bytes()) && title_clean(title)
            && forall|i: int| 0 <= i < alt@.len() ==> inline_clean(#[trigger] alt@[i]),
        Inline::HardBreak | Inline::SoftBreak => true,
    }
}

/// Whether no inline node of a sequence has an escape byte in its texts.
pub open spec fn inlines_clean(inlines: Seq<Inline>) -> bool {
    forall|i: int| 0 <= i < inlines.len() ==> inline_clean(#[trigger] inlines[i])
}

proof fn lemma_no_escape_concat(a: Seq<u8>, b: Seq<u8>)
    requires
        no_escape(a),
        no_escape(b),
    ensures
        no_escape(a + b),
{
    assert forall|i: int| 0 <= i < (a + b).len() implies (a + b)[i] != 27u8 by {
        if i < a.len() {
            assert((a + b)[i] == a[i]);
        } else {
            assert((a + b)[i] == b[i - a.len()]);
        }
    }
}

proof fn lemma_plain_inline_no_escape(options: RenderOptions, inline: Inline, current: TextStyle, line_break: LineBreak)
    requires
        options.color == ColorMode::Plain,
        inline_clean(inline),
    ensures
        no_escape(crate::inlines::inline_bytes(options, inline, current, line_break)),
    decreases inline, 0int,
{
    let e = Seq::<u8>::empty();
    assert(no_escape(e));
    assert(no_escape(seq![10u8]));
    assert(no_escape(seq![32u8]));
    assert(no_escape(seq![96u8]));
    assert(no_escape(seq![40u8]));
    assert(no_escape(seq![41u8]));
    assert(no_escape(seq![93u8]));
    assert(no_escape(seq![32u8, 0xe2u8, 0x80u8, 0x94u8, 32u8]));
    assert(no_escape(seq![91u8, 105u8, 109u8, 103u8, 58u8, 32u8]));
    lemma_plain_mode_writes_no_styles(options, current, e);
    match inline {
        Inline::Text(_) => {},
        Inline::Code(text) => {
            lemma_plain_mode_writes_no_styles(options, crate::inlines::code_span_style(options), e);
            lemma_no_escape_concat(seq![96u8], text.spec_bytes());
            lemma_no_escape_concat(seq![96u8] + text.spec_bytes(), seq![96u8]);
            assert(crate::inlines::inline_bytes(options, inline, current, line_break) =~= seq![96u8]
                + text.spec_bytes() + seq![96u8]);
        },
        Inline::Emphasis(children) => {
            lemma_plain_inlines_no_escape(options, children@, current.with(ITALIC), line_break);
            lemma_plain_mode_writes_no_styles(options, current.with(ITALIC), e);
            assert(crate::inlines::inline_bytes(options, inline, current, line_break) =~= inlines_bytes(
                options,
                children@,
                current.with(ITALIC),
                line_break,
            ));
        },
        Inline::Strong(children) => {
            lemma_plain_inlines_no_escape(options, children@, current.with(BOLD), line_break);
            lemma_plain_mode_writes_no_styles(options, current.with(BOLD), e);
            assert(crate::inlines::inline_bytes(options, inline, current, line_break) =~= inlines_bytes(
                options,
                children@,
                current.with(BOLD),
                line_break,
            ));
        },
        Inline::Strikethrough(children) => {
            lemma_plain_inlines_no_escape(options, children@, current.with(crate::style::STRIKETHROUGH), line_break);
            lemma_plain_mode_writes_no_styles(options, current.with(crate::style::STRIKETHROUGH), e);
            assert(crate::inlines::inline_bytes(options, inline, current, line_break) =~= inlines_bytes(
                options,
                children@,
                current.with(crate::style::STRIKETHROUGH),
                line_break,
            ));
        },
        Inline::Link { destination, title, kind, children } => {
            let style = crate::inlines::link_style(options, current);
            lemma_plain_inlines_no_escape(options, children@, style, line_break);
            lemma_plain_mode_writes_no_styles(options, style, e);
            lemma_plain_url_no_escape(options, destination.spec_bytes(), crate::inlines::title_bytes(title), current);
            let inner = inlines_bytes(options, children@, style, line_break);
            let url = crate::inlines::url_display(options, destination.spec_bytes(), crate::inlines::title_bytes(title), current);
            lemma_no_escape_concat(inner, url);
            if kind == LinkKind::Regular {
                assert(crate::inlines::inline_bytes(options, inline, current, line_break) =~= inner + url);
            } else {
                assert(crate::inlines::inline_bytes(options, inline, current, line_break) =~= inner);
            }
        },
        Inline::Image { destination, title, alt } => {
            let style = crate::inlines::image_style(options);
            lemma_plain_inlines_no_escape(options, alt@, style, line_break);
            lemma_plain_mode_writes_no_styles(options, style, e);
            lemma_plain_url_no_escape(options, destination.spec_bytes(), crate::inlines::title_bytes(title), current);
            let inner = inlines_bytes(options, alt@, style, line_break);
            let url = crate::inlines::url_display(options, destination.spec_bytes(), crate::inlines::title_bytes(title), current);
            let open = seq![91u8, 105u8, 109u8, 103u8, 58u8, 32u8];
            lemma_no_escape_concat(open, inner);
            lemma_no_escape_concat(open + inner, seq![93u8]);
            lemma_no_escape_concat(open + inner + seq![93u8], url);
            assert(crate::inlines::inline_bytes(options, inline, current, line_break) =~= open + inner + seq![93u8]
                + url);
        },
        Inline::HardBreak | Inline::SoftBreak => {
            match line_break {
                LineBreak::Newline(Some(indent)) => {
                    let pad = spaces(indent as nat);
                    assert(no_escape(pad));
                    lemma_no_escape_concat(seq![10u8], pad);
                },
                _ => {
                    assert(seq![10u8] + Seq::<u8>::empty() =~= seq![10u8]);
                },
            }
        },
    }
}

proof fn lemma_plain_url_no_escape(
    options: RenderOptions,
    destination: Seq<u8>,
    title: Option<Seq<u8>>,
    current: TextStyle,
)
    requires
        options.color == ColorMode::Plain,
        no_escape(destination),
        title matches Some(t) ==> no_escape(t),
    ensures
        no_escape(crate::inlines::url_display(options, destination, title, current)),
{
    let e = Seq::<u8>::empty();
    lemma_plain_mode_writes_no_styles(options, current, e);
    lemma_plain_mode_writes_no_styles(options, crate::inlines::url_style(options), e);
    lemma_plain_mode_writes_no_styles(options, crate::inlines::title_style(options), e);
    let sep = seq![32u8, 0xe2u8, 0x80u8, 0x94u8, 32u8];
    assert(no_escape(sep));
    assert(no_escape(seq![40u8]));
    assert(no_escape(seq![41u8]));
    lemma_no_escape_concat(seq![40u8], destination);
    lemma_no_escape_concat(seq![40u8] + destination, seq![41u8]);
    let head = seq![40u8] + destination + seq![41u8];
    match title {
        Some(t) => {
            lemma_no_escape_concat(sep, t);
            lemma_no_escape_concat(head, sep + t);
            assert(crate::inlines::url_display(options, destination, title, current) =~= head + (sep + t));
        },
        None => {
            assert(crate::inlines::url_display(options, destination, title, current) =~= head);
        },
    }
}

proof fn lemma_plain_inlines_no_escape(options: RenderOptions, inlines: Seq<Inline>, current: TextStyle, line_break: LineBreak)
    requires
        options.color == ColorMode::Plain,
        inlines_clean(inlines),
    ensures
        no_escape(inlines_bytes(options, inlines, current, line_break)),
    decreases inlines, 1int,
{
    if inlines.len() == 0 {
    } else {
        assert(inlines_clean(inlines.drop_last())) by {
            assert forall|i: int| 0 <= i < inlines.drop_last().len() implies inline_clean(#[trigger] inlines.drop_last()[i]) by {
                assert(inlines.drop_last()[i] == inlines[i]);
            }
        }
        assert(inline_clean(inlines.last()));
        lemma_plain_inlines_no_escape(options, inlines.drop_last(), current, line_break);
        lemma_plain_inline_no_escape(options, inlines.last(), current, line_break);
        lemma_no_escape_concat(
            inlines_bytes(options, inlines.drop_last(), current, line_break),
            crate::inlines::inline_bytes(options, inlines.last(), current, line_break),
        );
    }
}

/// In plain mode, inline content whose texts (text, code, destinations, titles)
/// hold no escape byte renders without one: no style sequence is written and code
/// spans are backtick-wrapped text.
pub proof fn lemma_plain_inlines_write_no_escape(
    options: RenderOptions,
    inlines: Seq<Inline>,
    style: TextStyle,
    line_break: LineBreak,
)
    requires
        options.color == ColorMode::Plain,
        inlines_clean(inlines),
    ensures
        no_escape(styled_inlines(options, inlines, style, line_break)),
{
    lemma_plain_inlines_no_escape(options, inlines, style, line_break);
    lemma_plain_mode_writes_no_styles(options, style, Seq::empty());
    assert(styled_inlines(options, inlines, style, line_break) =~= inlines_bytes(options, inlines, style, line_break));
}

proof fn lemma_no_escape_sub(a: Seq<u8>, lo: int, hi: int)
    requires
        no_escape(a),
        0 <= lo <= hi <= a.len(),
    ensures
        no_escape(a.subrange(lo, hi)),
{
    assert forall|i: int| 0 <= i < a.subrange(lo, hi).len() implies a.subrange(lo, hi)[i] != 27u8 by {
        assert(a.subrange(lo, hi)[i] == a[lo + i]);
    }
}

proof fn lemma_chunk_no_escape(out: Seq<u8>, line_width: int, rest: Seq<u8>, width: int)
    requires
        no_escape(out),
        no_escape(rest),
    ensures
        no_escape(crate::wrap::chunk_word(out, line_width, rest, width).0),
    decreases rest.len(),
{
    if rest.len() > 0 {
        let (consumed, segment_width) = crate::wrap::segment_spec(rest);
        if 1 <= consumed <= rest.len() {
            let broken = segment_width > 0 && line_width > 0 && line_width + segment_width > width;
            let out1 = if broken {
                out.push(10u8)
            } else {
                out
            };
            assert(no_escape(out1)) by {
                if broken {
                    assert(out.push(10u8) =~= out + seq![10u8]);
                    lemma_no_escape_concat(out, seq![10u8]);
                }
            }
            lemma_no_escape_sub(rest, 0, consumed);
            assert(rest.take(consumed) =~= rest.subrange(0, consumed));
            lemma_no_escape_concat(out1, rest.take(consumed));
            lemma_no_escape_sub(rest, consumed, rest.len() as int);
            assert(rest.skip(consumed) =~= rest.subrange(consumed, rest.len() as int));
            let line1 = if broken {
                0
            } else {
                line_width
            };
            lemma_chunk_no_escape(out1 + rest.take(consumed), line1 + segment_width, rest.skip(consumed), width);
        }
    }
}

proof fn lemma_place_no_escape(s: crate::wrap::WrapState, width: int)
    requires
        no_escape(s.out),
        no_escape(s.word),
    ensures
        no_escape(crate::wrap::place_word(s, width).out),
        no_escape(crate::wrap::place_word(s, width).word),
{
    if s.word.len() > 0 {
        let word_width = crate::wrap::visible_width_spec(s.word) as int;
        let pad = spaces(s.gap as nat);
        assert(no_escape(pad));
        assert(s.out.push(10u8) =~= s.out + seq![10u8]);
        lemma_no_escape_concat(s.out, seq![10u8]);
        lemma_no_escape_concat(s.out, pad);
        let (out1, line1) = if s.line_width == 0 {
            (s.out, 0)
        } else if s.line_width + s.gap + word_width > width {
            (s.out.push(10u8), 0)
        } else {
            (s.out + pad, s.line_width + s.gap)
        };
        lemma_chunk_no_escape(out1, line1, s.word, width);
        lemma_no_escape_concat(out1, s.word);
        assert(no_escape(Seq::<u8>::empty()));
    }
}

proof fn lemma_wrap_bytes_no_escape(s: crate::wrap::WrapState, input: Seq<u8>, width: int)
    requires
        no_escape(s.out),
        no_escape(s.word),
        no_escape(input),
    ensures
        no_escape(crate::wrap::wrap_bytes(s, input, width).out),
        no_escape(crate::wrap::wrap_bytes(s, input, width).word),
    decreases input.len(),
{
    if input.len() > 0 {
        let byte = input[0];
        lemma_place_no_escape(s, width);
        let placed = crate::wrap::place_word(s, width);
        assert(placed.out.push(10u8) =~= placed.out + seq![10u8]);
        lemma_no_escape_concat(placed.out, seq![10u8]);
        assert(s.word.push(byte) =~= s.word + seq![byte]);
        assert(byte != 27u8);
        lemma_no_escape_concat(s.word, seq![byte]);
        assert(no_escape(Seq::<u8>::empty()));
        lemma_no_escape_sub(input, 1, input.len() as int);
        assert(input.drop_first() =~= input.subrange(1, input.len() as int));
        lemma_wrap_bytes_no_escape(crate::wrap::wrap_byte(s, byte, width), input.drop_first(), width);
    }
}

/// Word wrapping adds only spaces and newlines: input without an escape byte is
/// wrapped without one.
pub proof fn lemma_word_wrap_no_escape(input: Seq<u8>, width: int)
    requires
        no_escape(input),
    ensures
        no_escape(word_wrap_spec(input, width)),
{
    assert(no_escape(Seq::<u8>::empty()));
    lemma_wrap_bytes_no_escape(crate::wrap::wrap_init(), input, width);
    lemma_place_no_escape(crate::wrap::wrap_bytes(crate::wrap::wrap_init(), input, width), width);
}

proof fn lemma_prefix_no_escape(s: crate::writer::PrefixState, normal: Seq<u8>, blank: Seq<u8>, input: Seq<u8>)
    requires
        no_escape(s.out),
        no_escape(normal),
        no_escape(blank),
        no_escape(input),
    ensures
        no_escape(prefix_bytes(s, normal, blank, input).out),
    decreases input.len(),
{
    if input.len() > 0 {
        let byte = input[0];
        assert(byte != 27u8);
        assert(no_escape(seq![byte]));
        assert(no_escape(Seq::<u8>::empty()));
        lemma_no_escape_concat(s.out, normal);
        lemma_no_escape_concat(s.out, blank);
        lemma_no_escape_concat(s.out + normal, seq![byte]);
        lemma_no_escape_concat(s.out + blank, seq![byte]);
        lemma_no_escape_concat(s.out + Seq::<u8>::empty(), seq![byte]);
        assert(s.out + Seq::<u8>::empty() =~= s.out);
        lemma_no_escape_sub(input, 1, input.len() as int);
        assert(input.drop_first() =~= input.subrange(1, input.len() as int));
        lemma_prefix_no_escape(crate::writer::prefix_byte(s, normal, blank, byte), normal, blank, input.drop_first());
    }
}

/// Line prefixes without an escape byte add none: input without one is prefixed
/// without one.
pub proof fn lemma_prefixed_no_escape(normal: Seq<u8>, blank: Seq<u8>, input: Seq<u8>, hanging: bool)
    requires
        no_escape(normal),
        no_escape(blank),
        no_escape(input),
    ensures
        no_escape(prefix_bytes(prefix_init(hanging), normal, blank, input).out),
{
    assert(no_escape(Seq::<u8>::empty()));
    lemma_prefix_no_escape(prefix_init(hanging), normal, blank, input);
}

proof fn lemma_repeat_no_escape(unit: Seq<u8>, n: nat)
    requires
        no_escape(unit),
    ensures
        no_escape(repeat(unit, n)),
    decreases n,
{
    if n > 0 {
        lemma_repeat_no_escape(unit, (n - 1) as nat);
        lemma_no_escape_concat(repeat(unit, (n - 1) as nat), unit);
        lemma_no_escape_concat(unit, repeat(unit, (n - 1) as nat));
    }
}

/// In plain mode a paragraph, heading, code block, raw HTML block, thematic break
/// or blank line whose texts hold no escape byte renders without one, at any
/// width: no style sequence is written and code is not highlighted.
proof fn lemma_plain_leaf_block_writes_no_escape(
    options: RenderOptions,
    block: Block,
    depth: usize,
    width: Option<usize>,
)
    requires
        options.color == ColorMode::Plain,
        match block {
            Block::Paragraph(inlines) => inlines_clean(inlines@),
            Block::Heading(heading) => inlines_clean(heading.children@),
            Block::CodeBlock(code_block) => no_escape(code_block.text.spec_bytes()) && title_clean(code_block.info),
            Block::HtmlBlock(text) => no_escape(text.spec_bytes()),
            Block::ThematicBreak | Block::BlankLine => true,
            _ => false,
        },
    ensures
        no_escape(block_bytes(options, block, depth, width)),
{
    let e = Seq::<u8>::empty();
    assert(no_escape(e));
    match block {
        Block::Paragraph(inlines) => {
            lemma_plain_inlines_write_no_escape(options, inlines@, body_style(options), LineBreak::Newline(None));
            if let Some(w) = width {
                lemma_plain_inlines_write_no_escape(options, inlines@, body_style(options), LineBreak::Reflow);
                let wrapped = word_wrap_spec(
                    styled_inlines(options, inlines@, body_style(options), LineBreak::Reflow),
                    wrap_width(w, 0) as int,
                );
                lemma_word_wrap_no_escape(
                    styled_inlines(options, inlines@, body_style(options), LineBreak::Reflow),
                    wrap_width(w, 0) as int,
                );
                assert(no_escape(spaces(0)));
                lemma_prefixed_no_escape(spaces(0), e, wrapped, true);
            }
        },
        Block::Heading(heading) => {
            let style = spec_heading_style(heading.level, options.palette);
            lemma_plain_inlines_write_no_escape(options, heading.children@, style, LineBreak::Newline(None));
            if let Some(w) = width {
                lemma_plain_inlines_write_no_escape(options, heading.children@, style, LineBreak::Reflow);
                let wrapped = word_wrap_spec(
                    styled_inlines(options, heading.children@, style, LineBreak::Reflow),
                    wrap_width(w, 0) as int,
                );
                lemma_word_wrap_no_escape(
                    styled_inlines(options, heading.children@, style, LineBreak::Reflow),
                    wrap_width(w, 0) as int,
                );
                assert(no_escape(spaces(0)));
                lemma_prefixed_no_escape(spaces(0), e, wrapped, true);
            }
        },
        Block::CodeBlock(code_block) => {
            lemma_plain_mode_writes_no_styles(options, fence_style(options), fence());
            lemma_plain_mode_writes_no_styles(options, code_style(options), code_block.text.spec_bytes());
            let info = info_bytes(code_block);
            let body = code_body_bytes(options, code_block);
            assert(body == code_block.text.spec_bytes());
            assert(no_escape(fence()));
            assert(no_escape(seq![10u8]));
            lemma_no_escape_concat(fence(), info);
            lemma_no_escape_concat(seq![10u8], body);
            let middle = if code_block.text@.len() > 0 {
                seq![10u8] + body
            } else {
                e
            };
            let newline = if ends_with_newline(code_block.text@) {
                e
            } else {
                seq![10u8]
            };
            lemma_no_escape_concat(fence() + info, middle);
            lemma_no_escape_concat(fence() + info + middle, newline);
            lemma_no_escape_concat(fence() + info + middle + newline, fence());
            assert(code_block_bytes(options, code_block) =~= fence() + info + middle + newline + fence());
        },
        Block::HtmlBlock(text) => {
            lemma_trim_newlines(text.spec_bytes());
            lemma_no_escape_sub(text.spec_bytes(), 0, trim_newlines(text.spec_bytes()).len() as int);
        },
        Block::ThematicBreak => {
            assert(no_escape(dash()));
            lemma_repeat_no_escape(dash(), 32);
            lemma_plain_mode_writes_no_styles(options, muted_style(options), e);
            assert(rule_bytes(options) =~= repeat(dash(), 32));
        },
        _ => {},
    }
}

proof fn lemma_scalar_no_escape(v: u32)
    requires
        v != 27,
    ensures
        no_escape(vstd::utf8::encode_scalar(v)),
{
    assert((v <= 0x7F && v != 27) ==> (v & 0x7F) as u8 != 27u8) by (bit_vector);
    assert((0xC0u8 | ((v >> 6) & 0x1F) as u8) != 27u8) by (bit_vector);
    assert((0xE0u8 | ((v >> 12) & 0x0F) as u8) != 27u8) by (bit_vector);
    assert((0xF0u8 | ((v >> 18) & 0x7) as u8) != 27u8) by (bit_vector);
    assert((0x80u8 | (v & 0x3F) as u8) != 27u8) by (bit_vector);
    assert((0x80u8 | ((v >> 6) & 0x3F) as u8) != 27u8) by (bit_vector);
    assert((0x80u8 | ((v >> 12) & 0x3F) as u8) != 27u8) by (bit_vector);
}

/// Characters other than the escape character encode without the escape byte.
pub proof fn lemma_encode_no_escape(chars: Seq<char>)
    requires
        forall|i: int| 0 <= i < chars.len() ==> chars[i] as u32 != 27,
    ensures
        no_escape(encode_utf8(chars)),
    decreases chars.len(),
{
    if chars.len() > 0 {
        lemma_scalar_no_escape(chars[0] as u32);
        let rest = chars.drop_first();
        assert forall|i: int| 0 <= i < rest.len() implies rest[i] as u32 != 27 by {
            assert(rest[i] == chars[i + 1]);
        }
        lemma_encode_no_escape(rest);
        lemma_no_escape_concat(vstd::utf8::encode_scalar(chars[0] as u32), encode_utf8(rest));
    }
}

proof fn lemma_split_lines_no_escape(bytes: Seq<u8>)
    requires
        no_escape(bytes),
    ensures
        forall|k: int| 0 <= k < split_lines(bytes).len() ==> no_escape(#[trigger] split_lines(bytes)[k]),
    decreases bytes.len(),
{
    if bytes.len() > 0 {
        lemma_no_escape_sub(bytes, 0, bytes.len() - 1);
        assert(bytes.drop_last() =~= bytes.subrange(0, bytes.len() - 1));
        lemma_split_lines_no_escape(bytes.drop_last());
        let before = split_lines(bytes.drop_last());
        crate::grid::lemma_split_lines_nonempty(bytes.drop_last());
        if bytes.last() != 10u8 {
            assert(before.last().push(bytes.last()) =~= before.last() + seq![bytes.last()]);
            assert(no_escape(seq![bytes.last()]));
            lemma_no_escape_concat(before.last(), seq![bytes.last()]);
        } else {
            assert(no_escape(Seq::<u8>::empty()));
        }
    } else {
        assert(no_escape(Seq::<u8>::empty()));
    }
}

proof fn lemma_row_columns_no_escape(
    cells: Seq<Seq<Seq<u8>>>,
    line_index: int,
    widths: Seq<usize>,
    alignments: Seq<crate::ast::Alignment>,
    n: nat,
)
    requires
        forall|c: int, k: int| 0 <= c < cells.len() && 0 <= k < cells[c].len() ==> no_escape(#[trigger] cells[c][k]),
        n <= widths.len(),
    ensures
        no_escape(crate::grid::row_line_columns(cells, line_index, widths, alignments, n)),
    decreases n,
{
    assert(no_escape(Seq::<u8>::empty()));
    if n > 0 {
        let c = n - 1;
        lemma_row_columns_no_escape(cells, line_index, widths, alignments, (n - 1) as nat);
        let line = crate::grid::column_line(cells, c, line_index);
        assert(no_escape(line));
        let pad = crate::grid::padding(line, widths[c]);
        assert(no_escape(spaces(pad)));
        assert(no_escape(spaces(pad / 2)));
        assert(no_escape(spaces((pad - pad / 2) as nat)));
        lemma_no_escape_concat(spaces(pad), line);
        lemma_no_escape_concat(line, spaces(pad));
        lemma_no_escape_concat(spaces(pad / 2), line);
        lemma_no_escape_concat(spaces(pad / 2) + line, spaces((pad - pad / 2) as nat));
        let aligned = crate::grid::aligned_line(line, widths[c], crate::grid::column_alignment(alignments, c));
        assert(no_escape(aligned));
        let before = crate::grid::row_line_columns(cells, line_index, widths, alignments, (n - 1) as nat);
        let sep = if c > 0 {
            crate::grid::bar()
        } else {
            Seq::<u8>::empty()
        };
        assert(no_escape(sep));
        assert(no_escape(seq![32u8]));
        lemma_no_escape_concat(before, sep);
        lemma_no_escape_concat(before + sep, seq![32u8]);
        lemma_no_escape_concat(before + sep + seq![32u8], aligned);
        lemma_no_escape_concat(before + sep + seq![32u8] + aligned, seq![32u8]);
    }
}

proof fn lemma_border_no_escape(options: RenderOptions, widths: Seq<usize>, kind: BorderKind)
    requires
        options.color == ColorMode::Plain,
    ensures
        no_escape(border_bytes(options, widths, kind)),
{
    let (left, join, right) = crate::grid::border_glyphs(kind);
    assert(no_escape(left) && no_escape(join) && no_escape(right));
    assert(no_escape(dash()));
    lemma_border_segments_no_escape(widths, join, widths.len());
    lemma_no_escape_concat(left, crate::grid::border_segments(widths, join, widths.len()));
    lemma_no_escape_concat(left + crate::grid::border_segments(widths, join, widths.len()), right);
    lemma_plain_mode_writes_no_styles(options, muted_style(options), Seq::empty());
    assert(border_bytes(options, widths, kind) =~= border_line(widths, kind));
}

proof fn lemma_border_segments_no_escape(widths: Seq<usize>, join: Seq<u8>, n: nat)
    requires
        no_escape(join),
        n <= widths.len(),
    ensures
        no_escape(crate::grid::border_segments(widths, join, n)),
    decreases n,
{
    assert(no_escape(Seq::<u8>::empty()));
    if n > 0 {
        lemma_border_segments_no_escape(widths, join, (n - 1) as nat);
        assert(no_escape(dash()));
        lemma_repeat_no_escape(dash(), crate::grid::padded_width(widths[n - 1]));
        let before = crate::grid::border_segments(widths, join, (n - 1) as nat);
        let j = if n > 1 {
            join
        } else {
            Seq::<u8>::empty()
        };
        lemma_no_escape_concat(before, j);
        lemma_no_escape_concat(before + j, repeat(dash(), crate::grid::padded_width(widths[n - 1])));
    }
}

/// Whether no cell of a table row has an escape byte in its texts.
pub open spec fn row_clean(row: Seq<Vec<Inline>>) -> bool {
    forall|c: int| 0 <= c < row.len() ==> inlines_clean(#[trigger] row[c]@)
}

/// Whether no cell of a table has an escape byte in its texts.
pub open spec fn table_clean(table: &Table) -> bool {
    &&& row_clean(table.header@)
    &&& forall|r: int| 0 <= r < table.rows@.len() ==> row_clean(#[trigger] table.rows@[r]@)
}

proof fn lemma_row_no_escape(
    options: RenderOptions,
    row: Seq<Vec<Inline>>,
    widths: Seq<usize>,
    alignments: Seq<crate::ast::Alignment>,
)
    requires
        options.color == ColorMode::Plain,
        row_clean(row),
    ensures
        no_escape(row_bytes(options, row, widths, alignments)),
{
    let cells = row_cells(options, row, widths);
    assert forall|c: int, k: int| 0 <= c < cells.len() && 0 <= k < cells[c].len() implies no_escape(
        #[trigger] cells[c][k],
    ) by {
        let cell = row_cell(row, c);
        assert(inlines_clean(cell)) by {
            if 0 <= c < row.len() {
                assert(inlines_clean(row[c]@));
            }
        }
        lemma_plain_inlines_no_escape(options, cell, body_style(options), LineBreak::Space);
        let rendered = inlines_bytes(options, cell, body_style(options), LineBreak::Space);
        lemma_word_wrap_no_escape(rendered, widths[c] as int);
        lemma_split_lines_no_escape(word_wrap_spec(rendered, widths[c] as int));
    }
    lemma_row_lines_no_escape(options, cells, widths, alignments, row_height(cells));
}

proof fn lemma_row_lines_no_escape(
    options: RenderOptions,
    cells: Seq<Seq<Seq<u8>>>,
    widths: Seq<usize>,
    alignments: Seq<crate::ast::Alignment>,
    n: nat,
)
    requires
        options.color == ColorMode::Plain,
        forall|c: int, k: int| 0 <= c < cells.len() && 0 <= k < cells[c].len() ==> no_escape(#[trigger] cells[c][k]),
    ensures
        no_escape(row_lines(options, cells, widths, alignments, n)),
    decreases n,
{
    assert(no_escape(Seq::<u8>::empty()));
    if n > 0 {
        lemma_row_lines_no_escape(options, cells, widths, alignments, (n - 1) as nat);
        lemma_row_columns_no_escape(cells, n - 1, widths, alignments, widths.len());
        let columns = crate::grid::row_line_columns(cells, n - 1, widths, alignments, widths.len());
        assert(no_escape(crate::grid::bar()));
        lemma_no_escape_concat(crate::grid::bar(), columns);
        lemma_no_escape_concat(crate::grid::bar() + columns, crate::grid::bar());
        lemma_plain_mode_writes_no_styles(options, body_style(options), Seq::empty());
        let line = crate::grid::row_line(cells, n - 1, widths, alignments);
        let before = row_lines(options, cells, widths, alignments, (n - 1) as nat);
        let nl = if n > 1 {
            seq![10u8]
        } else {
            Seq::<u8>::empty()
        };
        assert(no_escape(nl));
        lemma_no_escape_concat(before, nl);
        lemma_no_escape_concat(before + nl, line);
        assert(row_lines(options, cells, widths, alignments, n) =~= before + nl + line);
    }
}

proof fn lemma_body_rows_no_escape(
    options: RenderOptions,
    rows: Seq<Vec<Vec<Inline>>>,
    widths: Seq<usize>,
    alignments: Seq<crate::ast::Alignment>,
    n: nat,
)
    requires
        options.color == ColorMode::Plain,
        n <= rows.len(),
        forall|r: int| 0 <= r < rows.len() ==> row_clean(#[trigger] rows[r]@),
    ensures
        no_escape(body_rows_bytes(options, rows, widths, alignments, n)),
    decreases n,
{
    assert(no_escape(Seq::<u8>::empty()));
    if n > 0 {
        lemma_body_rows_no_escape(options, rows, widths, alignments, (n - 1) as nat);
        lemma_border_no_escape(options, widths, BorderKind::Middle);
        lemma_row_no_escape(options, rows[n - 1]@, widths, alignments);
        let before = body_rows_bytes(options, rows, widths, alignments, (n - 1) as nat);
        let border = border_bytes(options, widths, BorderKind::Middle);
        assert(no_escape(seq![10u8]));
        lemma_no_escape_concat(border, seq![10u8]);
        let mid = if n > 1 {
            border + seq![10u8]
        } else {
            Seq::<u8>::empty()
        };
        lemma_no_escape_concat(before, seq![10u8]);
        lemma_no_escape_concat(before + seq![10u8], mid);
        lemma_no_escape_concat(before + seq![10u8] + mid, row_bytes(options, rows[n - 1]@, widths, alignments));
    }
}

/// In plain mode a table whose cells hold no escape byte in their texts renders
/// without one, at any width.
pub proof fn lemma_plain_table_writes_no_escape(options: RenderOptions, table: &Table, width: Option<usize>)
    requires
        options.color == ColorMode::Plain,
        table_clean(table),
    ensures
        no_escape(table_bytes(options, table, width)),
{
    let widths = table_widths(options, table, width);
    assert(no_escape(Seq::<u8>::empty()));
    if widths.len() > 0 {
        lemma_border_no_escape(options, widths, BorderKind::Top);
        lemma_border_no_escape(options, widths, BorderKind::Middle);
        lemma_border_no_escape(options, widths, BorderKind::Bottom);
        lemma_row_no_escape(options, table.header@, widths, table.alignments@);
        lemma_body_rows_no_escape(options, table.rows@, widths, table.alignments@, table.rows@.len());
        let top = border_bytes(options, widths, BorderKind::Top);
        let head = seq![10u8] + row_bytes(options, table.header@, widths, table.alignments@) + seq![10u8]
            + border_bytes(options, widths, BorderKind::Middle);
        assert(no_escape(seq![10u8]));
        lemma_no_escape_concat(seq![10u8], row_bytes(options, table.header@, widths, table.alignments@));
        lemma_no_escape_concat(
            seq![10u8] + row_bytes(options, table.header@, widths, table.alignments@),
            seq![10u8],
        );
        lemma_no_escape_concat(
            seq![10u8] + row_bytes(options, table.header@, widths, table.alignments@) + seq![10u8],
            border_bytes(options, widths, BorderKind::Middle),
        );
        let head_part = if table.header@.len() > 0 {
            head
        } else {
            Seq::<u8>::empty()
        };
        let body = body_rows_bytes(options, table.rows@, widths, table.alignments@, table.rows@.len());
        lemma_no_escape_concat(top, head_part);
        lemma_no_escape_concat(top + head_part, body);
        lemma_no_escape_concat(top + head_part + body, seq![10u8]);
        lemma_no_escape_concat(top + head_part + body + seq![10u8], border_bytes(options, widths, BorderKind::Bottom));
    }
}

proof fn lemma_decimal_no_escape(v: nat)
    ensures
        no_escape(decimal(v)),
    decreases v,
{
    if v >= 10 {
        lemma_decimal_no_escape(v / 10);
        assert(no_escape(seq![(48 + v % 10) as u8]));
        lemma_no_escape_concat(decimal(v / 10), seq![(48 + v % 10) as u8]);
    } else {
        assert(no_escape(seq![(48 + v) as u8]));
    }
}

proof fn lemma_marker_no_escape(options: RenderOptions, kind: ListKind, index: int, depth: int, task: Option<TaskState>)
    requires
        options.color == ColorMode::Plain,
    ensures
        no_escape(kind_marker_bytes(kind, index, depth)),
        no_escape(task_bytes(options, task)),
{
    reveal_strlit("•");
    reveal_strlit("◦");
    reveal_strlit("▪");
    reveal_strlit("☑");
    reveal_strlit("☐");
    match kind {
        ListKind::Ordered { start } => {
            let digits = decimal(spec_ordinal(start, index) as nat);
            lemma_decimal_no_escape(spec_ordinal(start, index) as nat);
            assert(digits.push(46u8) =~= digits + seq![46u8]);
            assert(no_escape(seq![46u8]));
            lemma_no_escape_concat(digits, seq![46u8]);
        },
        ListKind::Unordered => {
            lemma_encode_no_escape(spec_unordered_marker(depth));
        },
    }
    match task {
        Some(state) => {
            lemma_encode_no_escape(spec_task_marker(state));
            lemma_plain_mode_writes_no_styles(options, task_style(options, state), encode_utf8(spec_task_marker(state)));
            assert(no_escape(seq![32u8]));
            lemma_no_escape_concat(seq![32u8], encode_utf8(spec_task_marker(state)));
        },
        None => {
            assert(no_escape(Seq::<u8>::empty()));
        },
    }
}

/// Whether no text in a block (inline texts and code, destinations, titles, code
/// blocks and their info strings, raw HTML, table cells) holds an escape byte,
/// nested blocks included.
pub open spec fn block_clean(block: Block) -> bool
    decreases block,
{
    match block {
        Block::Paragraph(inlines) => inlines_clean(inlines@),
        Block::Heading(heading) => inlines_clean(heading.children@),
        Block::BlockQuote(quote) => forall|i: int|
            0 <= i < quote.blocks@.len() ==> block_clean(#[trigger] quote.blocks@[i]),
        Block::List(list) => forall|i: int, j: int|
            0 <= i < list.items@.len() && 0 <= j < list.items@[i].blocks@.len() ==> block_clean(
                #[trigger] list.items@[i].blocks@[j],
            ),
        Block::CodeBlock(code_block) => no_escape(code_block.text.spec_bytes()) && title_clean(code_block.info),
        Block::HtmlBlock(text) => no_escape(text.spec_bytes()),
        Block::Table(table) => table_clean(&table),
        Block::ThematicBreak | Block::BlankLine => true,
    }
}

proof fn lemma_block_no_escape(options: RenderOptions, block: Block, depth: usize, width: Option<usize>)
    requires
        options.color == ColorMode::Plain,
        block_clean(block),
    ensures
        no_escape(block_bytes(options, block, depth, width)),
    decreases block, 0int,
{
    match block {
        Block::BlockQuote(quote) => {
            lemma_quote_no_escape(options, quote, depth, width);
        },
        Block::List(list) => {
            assert forall|i: int| 0 <= i < list.items@.len() implies items_clean_at(list.items@, i) by {
                assert forall|j: int| 0 <= j < list.items@[i].blocks@.len() implies block_clean(
                    #[trigger] list.items@[i].blocks@[j],
                ) by {
                }
            }
            lemma_items_no_escape(options, list.kind, list.loose, list.items@, depth, 0, width);
        },
        Block::Table(table) => {
            lemma_plain_table_writes_no_escape(options, &table, width);
        },
        _ => {
            lemma_plain_leaf_block_writes_no_escape(options, block, depth, width);
        },
    }
}

/// Whether no block of the item at `i` has an escape byte in its texts.
pub open spec fn items_clean_at(items: Seq<ListItem>, i: int) -> bool {
    forall|j: int| 0 <= j < items[i].blocks@.len() ==> block_clean(#[trigger] items[i].blocks@[j])
}

proof fn lemma_session_no_escape(
    options: RenderOptions,
    state: RenderState,
    blocks: Seq<Block>,
    depth: usize,
    width: Option<usize>,
)
    requires
        options.color == ColorMode::Plain,
        forall|i: int| 0 <= i < blocks.len() ==> block_clean(#[trigger] blocks[i]),
    ensures
        no_escape(session(options, state, blocks, depth, width).0),
    decreases blocks, 0int,
{
    if blocks.len() == 0 {
        assert(no_escape(Seq::<u8>::empty()));
    } else {
        let before = blocks.drop_last();
        assert forall|i: int| 0 <= i < before.len() implies block_clean(#[trigger] before[i]) by {
            assert(before[i] == blocks[i]);
        }
        lemma_session_no_escape(options, state, before, depth, width);
        let last = blocks[blocks.len() - 1];
        assert(block_clean(last));
        lemma_block_no_escape(options, last, depth, width);
        let (out, mid) = session(options, state, before, depth, width);
        let sep = separator(mid);
        assert(no_escape(sep));
        lemma_no_escape_concat(sep, block_bytes(options, last, depth, width));
        lemma_no_escape_concat(out, sep + block_bytes(options, last, depth, width));
    }
}

proof fn lemma_quote_no_escape(options: RenderOptions, quote: BlockQuote, depth: usize, width: Option<usize>)
    requires
        options.color == ColorMode::Plain,
        forall|i: int| 0 <= i < quote.blocks@.len() ==> block_clean(#[trigger] quote.blocks@[i]),
    ensures
        no_escape(quote_bytes(options, quote, depth, width)),
    decreases quote, 1int,
{
    let e = Seq::<u8>::empty();
    assert(no_escape(e));
    let start = RenderState { has_rendered: quote.kind is Some, ended_with_newline: false };
    lemma_session_no_escape(options, start, quote.blocks@, depth, sub_width(width, 2));
    let label = match quote.kind {
        Some(kind) => styled(options, marker_style(options), alert_label(kind)),
        None => e,
    };
    match quote.kind {
        Some(kind) => {
            lemma_plain_mode_writes_no_styles(options, marker_style(options), alert_label(kind));
            assert(no_escape(alert_label(kind)));
        },
        None => {},
    }
    let inner = label + session(options, start, quote.blocks@, depth, sub_width(width, 2)).0;
    lemma_no_escape_concat(label, session(options, start, quote.blocks@, depth, sub_width(width, 2)).0);
    let bar_space = quote_bar().push(32u8);
    assert(no_escape(bar_space));
    assert(no_escape(quote_bar()));
    lemma_plain_mode_writes_no_styles(options, quote_style(options), bar_space);
    lemma_plain_mode_writes_no_styles(options, quote_style(options), quote_bar());
    lemma_prefixed_no_escape(bar_space, quote_bar(), inner, false);
}

proof fn lemma_items_no_escape(
    options: RenderOptions,
    kind: ListKind,
    loose: bool,
    items: Seq<ListItem>,
    depth: usize,
    indent: usize,
    width: Option<usize>,
)
    requires
        options.color == ColorMode::Plain,
        forall|i: int| 0 <= i < items.len() ==> #[trigger] items_clean_at(items, i),
    ensures
        no_escape(list_items_bytes(options, kind, loose, items, depth, indent, width)),
    decreases items, 0int,
{
    if items.len() == 0 {
        assert(no_escape(Seq::<u8>::empty()));
    } else {
        let index = items.len() - 1;
        let before = items.drop_last();
        assert forall|i: int| 0 <= i < before.len() implies #[trigger] items_clean_at(before, i) by {
            assert(before[i] == items[i]);
            assert(items_clean_at(items, i));
        }
        lemma_items_no_escape(options, kind, loose, before, depth, indent, width);
        let item = items[index];
        assert(items_clean_at(items, index));
        lemma_item_no_escape(options, kind, index, item, depth, indent, width);
        let sep = if index > 0 {
            if loose {
                seq![10u8, 10u8]
            } else {
                seq![10u8]
            }
        } else {
            Seq::<u8>::empty()
        };
        assert(no_escape(sep));
        let out = list_items_bytes(options, kind, loose, before, depth, indent, width);
        lemma_no_escape_concat(out, sep);
        lemma_no_escape_concat(out + sep, item_bytes(options, kind, index, item, depth, indent, width));
    }
}

proof fn lemma_item_no_escape(
    options: RenderOptions,
    kind: ListKind,
    index: int,
    item: ListItem,
    depth: usize,
    indent: usize,
    width: Option<usize>,
)
    requires
        options.color == ColorMode::Plain,
        forall|j: int| 0 <= j < item.blocks@.len() ==> block_clean(#[trigger] item.blocks@[j]),
    ensures
        no_escape(item_bytes(options, kind, index, item, depth, indent, width)),
    decreases item, 0int,
{
    let e = Seq::<u8>::empty();
    assert(no_escape(e));
    lemma_marker_no_escape(options, kind, index, depth as int, item.task);
    lemma_plain_mode_writes_no_styles(options, marker_style(options), e);
    let pad = spaces(indent as nat);
    assert(no_escape(pad));
    let marker = kind_marker_bytes(kind, index, depth as int);
    let task = task_bytes(options, item.task);
    lemma_no_escape_concat(pad, marker);
    lemma_no_escape_concat(pad + marker, task);
    let content = content_column(indent, kind, index, depth as int, item.task);
    lemma_item_blocks_no_escape(options, item.blocks@, content, depth, width);
    let rest = if item.blocks@.len() == 0 {
        e
    } else {
        seq![32u8] + item_blocks_bytes(options, item.blocks@, content, depth, width)
    };
    assert(no_escape(seq![32u8]));
    lemma_no_escape_concat(seq![32u8], item_blocks_bytes(options, item.blocks@, content, depth, width));
    lemma_no_escape_concat(pad + marker + task, rest);
    assert(item_bytes(options, kind, index, item, depth, indent, width) =~= pad + marker + task + rest);
}

proof fn lemma_item_blocks_no_escape(
    options: RenderOptions,
    blocks: Seq<Block>,
    content: usize,
    depth: usize,
    width: Option<usize>,
)
    requires
        options.color == ColorMode::Plain,
        forall|j: int| 0 <= j < blocks.len() ==> block_clean(#[trigger] blocks[j]),
    ensures
        no_escape(item_blocks_bytes(options, blocks, content, depth, width)),
    decreases blocks, 0int,
{
    let e = Seq::<u8>::empty();
    assert(no_escape(e));
    if blocks.len() > 0 {
        let index = blocks.len() - 1;
        let before = blocks.drop_last();
        assert forall|j: int| 0 <= j < before.len() implies block_clean(#[trigger] before[j]) by {
            assert(before[j] == blocks[j]);
        }
        lemma_item_blocks_no_escape(options, before, content, depth, width);
        let last = blocks[index];
        assert(block_clean(last));
        let pad = spaces(content as nat);
        assert(no_escape(pad));
        let piece = match last {
            Block::Paragraph(inlines) => (if index > 0 {
                pad
            } else {
                e
            }) + paragraph_bytes(options, inlines@, Some(content), width),
            Block::BlankLine => e,
            child => prefix_bytes(
                prefix_init(index == 0),
                pad,
                e,
                block_bytes(options, child, next_depth(depth), sub_width(width, content)),
            ).out,
        };
        match last {
            Block::Paragraph(inlines) => {
                lemma_paragraph_no_escape(options, inlines@, Some(content), width);
                lemma_no_escape_concat(if index > 0 {
                    pad
                } else {
                    e
                }, paragraph_bytes(options, inlines@, Some(content), width));
            },
            Block::BlankLine => {},
            child => {
                lemma_block_no_escape(options, child, next_depth(depth), sub_width(width, content));
                lemma_prefixed_no_escape(
                    pad,
                    e,
                    block_bytes(options, child, next_depth(depth), sub_width(width, content)),
                    index == 0,
                );
            },
        }
        let sep = if index > 0 {
            seq![10u8]
        } else {
            e
        };
        assert(no_escape(sep));
        let out = item_blocks_bytes(options, before, content, depth, width);
        lemma_no_escape_concat(out, sep);
        lemma_no_escape_concat(out + sep, piece);
        assert(item_blocks_bytes(options, blocks, content, depth, width) =~= out + sep + piece);
    }
}

proof fn lemma_paragraph_no_escape(
    options: RenderOptions,
    inlines: Seq<Inline>,
    break_prefix: Option<usize>,
    width: Option<usize>,
)
    requires
        options.color == ColorMode::Plain,
        inlines_clean(inlines),
    ensures
        no_escape(paragraph_bytes(options, inlines, break_prefix, width)),
{
    lemma_plain_inlines_write_no_escape(options, inlines, body_style(options), LineBreak::Newline(break_prefix));
    if let Some(w) = width {
        let indent = match break_prefix {
            Some(p) => p,
            None => 0usize,
        };
        lemma_plain_inlines_write_no_escape(options, inlines, body_style(options), LineBreak::Reflow);
        let styled_text = styled_inlines(options, inlines, body_style(options), LineBreak::Reflow);
        lemma_word_wrap_no_escape(styled_text, wrap_width(w, indent) as int);
        assert(no_escape(spaces(indent as nat)));
        assert(no_escape(Seq::<u8>::empty()));
        lemma_prefixed_no_escape(
            spaces(indent as nat),
            Seq::empty(),
            word_wrap_spec(styled_text, wrap_width(w, indent) as int),
            true,
        );
    }
}

/// In plain mode a block whose texts hold no escape byte renders without one, at
/// any width and nesting: no style sequence is written, code is not highlighted,
/// and inline code is shown as backtick-wrapped text.
pub proof fn lemma_plain_block_writes_no_escape(options: RenderOptions, block: Block, depth: usize, width: Option<usize>)
    requires
        options.color == ColorMode::Plain,
        block_clean(block),
    ensures
        no_escape(block_bytes(options, block, depth, width)),
{
    lemma_block_no_escape(options, block, depth, width);
}

} // verus!
