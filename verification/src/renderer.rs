//! Block rendering: the renderer that turns blocks into terminal output, one
//! block at a time.

use vstd::prelude::*;
use vstd::string::StrSliceExecFns;
use vstd::string::StringSliceAdditionalSpecFns;

use crate::ast::{Block, BlockQuote, BlockQuoteKind, CodeBlock, Heading, Inline, List, ListItem, ListKind, Table, TaskState};
use crate::bytes::{append_bytes, spaces};

use crate::inlines::render_inlines;
use crate::layout::{alert_label, block_bytes, code_block_bytes, code_block_frame, code_body_bytes, code_ranges, highlighted_body, content_column, ends_with_newline, fence, finish_output, heading_bytes, item_blocks_bytes, item_bytes, kind_marker_bytes, list_items_bytes, muted_style, next_state, paragraph_bytes, quote_bar, quote_bytes, ranges_bytes, reflowed_bytes, rule_bytes, separator, session, sub_width, trim_newlines, task_bytes};
use crate::list::{list_marker, marker_text_width, marker_bytes, marker_matches, task_marker, write_list_marker, ListMarkerDisplay};
use crate::options::{ColorMode, LineBreak, RenderOptions, RenderState};
use crate::sgr::{style_end, style_start, styled, write_style_end, write_style_start, write_styled_text};
use crate::style::{heading_style, TextStyle};
use crate::syntax::{highlighted_ranges, ranges_view};

use crate::wrap::{display_width, word_wrap};
use crate::writer::{write_prefixed, write_spaces, LinePrefix};

verus! {

/// Writes a small constant.
fn write_const(out: &mut Vec<u8>, bytes: &[u8], Ghost(expected): Ghost<Seq<u8>>)
    requires
        bytes@ == expected,
    ensures
        final(out)@ == old(out)@ + expected,
{
    append_bytes(out, bytes);
}

/// Writes inline content reflowed to `width`.
fn render_reflowed_inlines(
    out: &mut Vec<u8>,
    options: RenderOptions,
    inlines: &Vec<Inline>,
    style: TextStyle,
    break_prefix: Option<usize>,
    width: usize,
)
    ensures
        final(out)@ == old(out)@ + reflowed_bytes(options, inlines@, style, break_prefix, width),
{
    let indent = match break_prefix {
        Some(prefix) => prefix,
        None => 0,
    };
    let wrap_at = if width > indent {
        width - indent
    } else {
        1
    };
    let mut content: Vec<u8> = Vec::new();
    render_inlines(&mut content, options, inlines, style, LineBreak::Reflow);
    assert(content@ =~= crate::inlines::styled_inlines(options, inlines@, style, LineBreak::Reflow));
    let wrapped = word_wrap(content.as_slice(), wrap_at);
    let mut normal: Vec<u8> = Vec::new();
    write_spaces(&mut normal, indent);
    assert(normal@ =~= spaces(indent as nat));
    let blank: Vec<u8> = Vec::new();
    assert(blank@ =~= Seq::<u8>::empty());
    write_prefixed(out, wrapped.as_slice(), LinePrefix { normal, blank }, true);
}

/// Writes a paragraph in body style.
fn render_paragraph(
    out: &mut Vec<u8>,
    options: RenderOptions,
    inlines: &Vec<Inline>,
    break_prefix: Option<usize>,
    width: Option<usize>,
)
    ensures
        final(out)@ == old(out)@ + paragraph_bytes(options, inlines@, break_prefix, width),
{
    let style = TextStyle::default().fg(options.palette.body);
    match width {
        None => render_inlines(out, options, inlines, style, LineBreak::Newline(break_prefix)),
        Some(w) => render_reflowed_inlines(out, options, inlines, style, break_prefix, w),
    }
}

/// Writes a heading in its level's style.
fn render_heading(out: &mut Vec<u8>, options: RenderOptions, heading: &Heading, width: Option<usize>)
    ensures
        final(out)@ == old(out)@ + heading_bytes(options, *heading, width),
{
    let style = heading_style(heading.level, options.palette);
    match width {
        None => render_inlines(out, options, &heading.children, style, LineBreak::Newline(None)),
        Some(w) => render_reflowed_inlines(out, options, &heading.children, style, None, w),
    }
}

/// The label of an alert kind.
fn alert_label_bytes(kind: BlockQuoteKind) -> (r: &'static [u8])
    ensures
        r@ == alert_label(kind),
{
    match kind {
        BlockQuoteKind::Note => {
            let label: &'static [u8] = &[78u8, 79u8, 84u8, 69u8];
            assert(label@ =~= alert_label(kind));
            label
        },
        BlockQuoteKind::Tip => {
            let label: &'static [u8] = &[84u8, 73u8, 80u8];
            assert(label@ =~= alert_label(kind));
            label
        },
        BlockQuoteKind::Important => {
            let label: &'static [u8] = &[73u8, 77u8, 80u8, 79u8, 82u8, 84u8, 65u8, 78u8, 84u8];
            assert(label@ =~= alert_label(kind));
            label
        },
        BlockQuoteKind::Warning => {
            let label: &'static [u8] = &[87u8, 65u8, 82u8, 78u8, 73u8, 78u8, 71u8];
            assert(label@ =~= alert_label(kind));
            label
        },
        BlockQuoteKind::Caution => {
            let label: &'static [u8] = &[67u8, 65u8, 85u8, 84u8, 73u8, 79u8, 78u8];
            assert(label@ =~= alert_label(kind));
            label
        },
    }
}

/// Writes a block after the separating newline it is owed, and records what
/// was written in `state`.
fn render_block_with_state(
    out: &mut Vec<u8>,
    options: RenderOptions,
    block: &Block,
    depth: usize,
    width: Option<usize>,
    state: &mut RenderState,
)
    ensures
        final(out)@ == old(out)@ + separator(*old(state)) + block_bytes(options, *block, depth, width),
        *final(state) == next_state(
            *old(state),
            separator(*old(state)) + block_bytes(options, *block, depth, width),
        ),
    decreases *block, 1nat,
{
    let mut piece: Vec<u8> = Vec::new();
    if state.has_rendered {
        piece.push(10);
    }
    assert(piece@ =~= separator(*old(state)));
    render_block_at_depth(&mut piece, options, block, depth, width);
    if piece.len() > 0 {
        state.has_rendered = true;
        state.ended_with_newline = piece[piece.len() - 1] == 10;
    }
    append_bytes(out, piece.as_slice());
}

/// Writes blocks one after another, threading `state`.
fn render_session(
    out: &mut Vec<u8>,
    options: RenderOptions,
    blocks: &Vec<Block>,
    depth: usize,
    width: Option<usize>,
    state: &mut RenderState,
)
    ensures
        final(out)@ == old(out)@ + session(options, *old(state), blocks@, depth, width).0,
        *final(state) == session(options, *old(state), blocks@, depth, width).1,
    decreases blocks@, 0nat,
{
    let ghost start = out@;
    let ghost initial = *state;
    let mut index: usize = 0;
    assert(blocks@.take(0) =~= Seq::<Block>::empty());
    while index < blocks.len()
        invariant
            index <= blocks@.len(),
            out@ == start + session(options, initial, blocks@.take(index as int), depth, width).0,
            *state == session(options, initial, blocks@.take(index as int), depth, width).1,
        decreases blocks@.len() - index,
    {
        proof {
            assert(decreases_to!(blocks@ => blocks@[index as int]));
        }
        render_block_with_state(out, options, &blocks[index], depth, width, state);
        proof {
            let next = blocks@.take(index + 1);
            assert(next.drop_last() =~= blocks@.take(index as int));
            assert(next.last() == blocks@[index as int]);
            assert(out@ =~= start + session(options, initial, next, depth, width).0);
        }
        index += 1;
    }
    assert(blocks@.take(blocks@.len() as int) =~= blocks@);
}

/// Writes `text` styled into a fresh buffer.
fn styled_buffer(options: RenderOptions, style: TextStyle, text: &[u8]) -> (r: Vec<u8>)
    ensures
        r@ == styled(options, style, text@),
{
    let mut buffer: Vec<u8> = Vec::new();
    write_styled_text(&mut buffer, options, style, text);
    assert(buffer@ =~= styled(options, style, text@));
    buffer
}

/// Writes a block quote.
fn render_blockquote(
    out: &mut Vec<u8>,
    options: RenderOptions,
    quote: &BlockQuote,
    depth: usize,
    width: Option<usize>,
)
    ensures
        final(out)@ == old(out)@ + quote_bytes(options, *quote, depth, width),
    decreases *quote, 1nat,
{
    let quote_style_value = TextStyle::default().fg(options.palette.muted).dim();
    let mut inner: Vec<u8> = Vec::new();
    let mut state = RenderState { has_rendered: false, ended_with_newline: false };
    match quote.kind {
        Some(kind) => {
            let label_style = TextStyle::default().fg(options.palette.list_marker).bold();
            write_styled_text(&mut inner, options, label_style, alert_label_bytes(kind));
            state.has_rendered = true;
        },
        None => {},
    }
    let ghost label = inner@;
    let inner_width = match width {
        Some(w) => Some(w.saturating_sub(2)),
        None => None,
    };
    assert(inner_width == sub_width(width, 2));
    proof {
        assert(decreases_to!(*quote => quote.blocks@));
    }
    render_session(&mut inner, options, &quote.blocks, depth, inner_width, &mut state);
    let bar_space = [0xe2u8, 0x94u8, 0x82u8, 32u8];
    let bar = [0xe2u8, 0x94u8, 0x82u8];
    assert(bar_space@ =~= quote_bar().push(32u8));
    assert(bar@ =~= quote_bar());
    let normal = styled_buffer(options, quote_style_value, bar_space.as_slice());
    let blank = styled_buffer(options, quote_style_value, bar.as_slice());
    let ghost normal_view = normal@;
    let ghost blank_view = blank@;
    proof {
        crate::writer::lemma_prefix_wrote_anything(normal_view, blank_view, inner@);
        crate::writer::lemma_prefix_empty_input(normal_view, blank_view, false);
        if inner@.len() == 0 {
            assert(inner@ =~= Seq::<u8>::empty());
        }
    }
    let wrote = write_prefixed(out, inner.as_slice(), LinePrefix { normal, blank }, false);
    if !wrote {
        write_styled_text(out, options, quote_style_value, bar.as_slice());
    }
}

/// Writes a list's items.
fn render_list(
    out: &mut Vec<u8>,
    options: RenderOptions,
    list: &List,
    depth: usize,
    indent: usize,
    width: Option<usize>,
)
    ensures
        final(out)@ == old(out)@ + list_items_bytes(
            options,
            list.kind,
            list.loose,
            list.items@,
            depth,
            indent,
            width,
        ),
    decreases *list, 1nat,
{
    let ghost start = out@;
    let mut index: usize = 0;
    assert(list.items@.take(0) =~= Seq::<ListItem>::empty());
    while index < list.items.len()
        invariant
            index <= list.items@.len(),
            out@ == start + list_items_bytes(
                options,
                list.kind,
                list.loose,
                list.items@.take(index as int),
                depth,
                indent,
                width,
            ),
        decreases list.items@.len() - index,
    {
        let ghost before = out@;
        if index > 0 {
            if list.loose {
                out.push(10);
                out.push(10);
            } else {
                out.push(10);
            }
        }
        let marker = list_marker(list, index, depth);
        proof {
            assert(decreases_to!(*list => list.items@[index as int]));
        }
        render_list_item(
            out,
            options,
            marker,
            &list.items[index],
            depth,
            indent,
            width,
            Ghost(list.kind),
            Ghost(index as int),
        );
        proof {
            let next = list.items@.take(index + 1);
            assert(next.drop_last() =~= list.items@.take(index as int));
            assert(next.last() == list.items@[index as int]);
            assert(out@ =~= start + list_items_bytes(
                options,
                list.kind,
                list.loose,
                next,
                depth,
                indent,
                width,
            ));
        }
        index += 1;
    }
    assert(list.items@.take(list.items@.len() as int) =~= list.items@);
}

/// Writes a task checkbox after the marker.
fn render_task(out: &mut Vec<u8>, options: RenderOptions, task: Option<TaskState>)
    ensures
        final(out)@ == old(out)@ + task_bytes(options, task),
{
    match task {
        Some(state) => {
            let ghost start = out@;
            out.push(32);
            let style = match state {
                TaskState::Checked => TextStyle::default().fg(options.palette.list_marker),
                TaskState::Unchecked => TextStyle::default().fg(options.palette.muted).dim(),
            };
            let glyph = task_marker(state);
            write_styled_text(out, options, style, glyph.as_bytes());
            assert(out@ =~= start + task_bytes(options, task));
        },
        None => {
            assert(old(out)@ + task_bytes(options, task) =~= old(out)@);
        },
    }
}

/// Writes an item's indent, styled marker and checkbox.
fn render_item_head(
    out: &mut Vec<u8>,
    options: RenderOptions,
    marker: ListMarkerDisplay,
    task: Option<TaskState>,
    indent: usize,
    Ghost(kind): Ghost<ListKind>,
    Ghost(index): Ghost<int>,
    Ghost(depth): Ghost<int>,
)
    requires
        marker_matches(marker, kind, index, depth),
    ensures
        final(out)@ == old(out)@ + spaces(indent as nat) + style_start(
            options,
            crate::layout::marker_style(options),
        ) + kind_marker_bytes(kind, index, depth) + style_end(options) + task_bytes(options, task),
{
    let ghost start = out@;
    write_spaces(out, indent);
    let marker_style_value = TextStyle::default().fg(options.palette.list_marker).bold();
    write_style_start(out, options, marker_style_value);
    write_list_marker(out, marker);
    write_style_end(out, options);
    proof {
        assert(marker_bytes(marker) == kind_marker_bytes(kind, index, depth));
    }
    render_task(out, options, task);
    assert(out@ =~= start + spaces(indent as nat) + style_start(
        options,
        crate::layout::marker_style(options),
    ) + kind_marker_bytes(kind, index, depth) + style_end(options) + task_bytes(options, task));
}

/// The column where an item's content starts.
fn item_content_column(
    marker: ListMarkerDisplay,
    task: Option<TaskState>,
    indent: usize,
    Ghost(kind): Ghost<ListKind>,
    Ghost(index): Ghost<int>,
    Ghost(depth): Ghost<int>,
) -> (r: usize)
    requires
        marker_matches(marker, kind, index, depth),
    ensures
        r == content_column(indent, kind, index, depth, task),
{
    let text_width = marker_text_width(marker);
    let task_columns: usize = match task {
        Some(state) => display_width(task_marker(state)).saturating_add(1),
        None => 0,
    };
    indent.saturating_add(text_width).saturating_add(1).saturating_add(task_columns)
}

/// Writes the blocks of a list item from its content column.
fn render_item_blocks(
    out: &mut Vec<u8>,
    options: RenderOptions,
    blocks: &Vec<Block>,
    content: usize,
    depth: usize,
    width: Option<usize>,
)
    ensures
        final(out)@ == old(out)@ + item_blocks_bytes(options, blocks@, content, depth, width),
    decreases blocks@, 1nat,
{
    let ghost body_start = out@;
    let mut position: usize = 0;
    assert(blocks@.take(0) =~= Seq::<Block>::empty());
    while position < blocks.len()
        invariant
            position <= blocks@.len(),
            out@ == body_start + item_blocks_bytes(
                options,
                blocks@.take(position as int),
                content,
                depth,
                width,
            ),
        decreases blocks@.len() - position,
    {
        let ghost before = out@;
        if position > 0 {
            out.push(10);
        }
        proof {
            assert(decreases_to!(blocks@ => blocks@[position as int]));
        }
        let block = &blocks[position];
        match block {
            Block::Paragraph(inlines) => {
                if position > 0 {
                    write_spaces(out, content);
                }
                render_paragraph(out, options, inlines, Some(content), width);
            },
            Block::BlankLine => {},
            _ => {
                let child_depth = depth.saturating_add(1);
                render_indented_block(out, options, block, content, child_depth, position == 0, width);
            },
        }
        proof {
            let next = blocks@.take(position + 1);
            assert(next.drop_last() =~= blocks@.take(position as int));
            assert(next.last() == blocks@[position as int]);
            assert(out@ =~= body_start + item_blocks_bytes(options, next, content, depth, width));
        }
        position += 1;
    }
    assert(blocks@.take(blocks@.len() as int) =~= blocks@);
}

/// Writes a list item.
#[verifier::rlimit(40)]
fn render_list_item(
    out: &mut Vec<u8>,
    options: RenderOptions,
    marker: ListMarkerDisplay,
    item: &ListItem,
    depth: usize,
    indent: usize,
    width: Option<usize>,
    Ghost(kind): Ghost<ListKind>,
    Ghost(index): Ghost<int>,
)
    requires
        marker_matches(marker, kind, index, depth as int),
    ensures
        final(out)@ == old(out)@ + item_bytes(options, kind, index, *item, depth, indent, width),
    decreases *item, 1nat,
{
    let ghost start = out@;
    render_item_head(out, options, marker, item.task, indent, Ghost(kind), Ghost(index), Ghost(depth as int));
    let content = item_content_column(marker, item.task, indent, Ghost(kind), Ghost(index), Ghost(depth as int));
    if item.blocks.len() == 0 {
        assert(out@ =~= start + item_bytes(options, kind, index, *item, depth, indent, width));
        return;
    }
    out.push(32);
    proof {
        assert(decreases_to!(*item => item.blocks@));
    }
    render_item_blocks(out, options, &item.blocks, content, depth, width);
    assert(out@ =~= start + item_bytes(options, kind, index, *item, depth, indent, width));
}

/// Writes a block with every line but a hanging first one indented by `indent`
/// columns.
fn render_indented_block(
    out: &mut Vec<u8>,
    options: RenderOptions,
    block: &Block,
    indent: usize,
    depth: usize,
    hanging: bool,
    width: Option<usize>,
)
    ensures
        final(out)@ == old(out)@ + crate::writer::prefix_bytes(
            crate::writer::prefix_init(hanging),
            spaces(indent as nat),
            Seq::empty(),
            block_bytes(options, *block, depth, sub_width(width, indent)),
        ).out,
    decreases *block, 1nat,
{
    let inner_width = match width {
        Some(w) => Some(w.saturating_sub(indent)),
        None => None,
    };
    let mut inner: Vec<u8> = Vec::new();
    render_block_at_depth(&mut inner, options, block, depth, inner_width);
    assert(inner@ =~= block_bytes(options, *block, depth, sub_width(width, indent)));
    let mut normal: Vec<u8> = Vec::new();
    write_spaces(&mut normal, indent);
    assert(normal@ =~= spaces(indent as nat));
    let blank: Vec<u8> = Vec::new();
    assert(blank@ =~= Seq::<u8>::empty());
    write_prefixed(out, inner.as_slice(), LinePrefix { normal, blank }, hanging);
}

/// Whether a string ends with a newline.
fn text_ends_with_newline(text: &str) -> (r: bool)
    ensures
        r == ends_with_newline(text@),
{
    let length = text.unicode_len();
    length > 0 && text.get_char(length - 1) == '\n'
}

/// Writes highlighted ranges, each in its style.
fn render_ranges(out: &mut Vec<u8>, options: RenderOptions, ranges: &Vec<(TextStyle, String)>)
    ensures
        final(out)@ == old(out)@ + ranges_bytes(options, ranges_view(ranges@)),
{
    let ghost start = out@;
    let ghost all = ranges_view(ranges@);
    let mut index: usize = 0;
    assert(all.take(0) =~= Seq::<(TextStyle, Seq<char>)>::empty());
    while index < ranges.len()
        invariant
            index <= ranges@.len(),
            all == ranges_view(ranges@),
            out@ == start + ranges_bytes(options, all.take(index as int)),
        decreases ranges@.len() - index,
    {
        let (style, text) = &ranges[index];
        write_styled_text(out, options, *style, text.as_str().as_bytes());
        proof {
            let next = all.take(index + 1);
            assert(next.drop_last() =~= all.take(index as int));
            assert(out@ =~= start + ranges_bytes(options, next));
        }
        index += 1;
    }
    assert(all.take(all.len() as int) =~= all);
}

/// Writes a code block's body: the highlighted ranges when there are any, else
/// the text in the code style.
fn render_code_body(
    out: &mut Vec<u8>,
    options: RenderOptions,
    code_block: &CodeBlock,
    ranges: &Option<Vec<(TextStyle, String)>>,
)
    ensures
        final(out)@ == old(out)@ + highlighted_body(options, *code_block, ranges_option(*ranges)),
{
    match ranges {
        Some(ranges) => render_ranges(out, options, ranges),
        None => {
            let code_style_value = TextStyle::default().fg(options.palette.inline_code);
            write_styled_text(out, options, code_style_value, code_block.text.as_str().as_bytes());
        },
    }
}

/// Highlighted ranges, if any, as values.
pub open spec fn ranges_option(ranges: Option<Vec<(TextStyle, String)>>) -> Option<Seq<(TextStyle, Seq<char>)>> {
    match ranges {
        Some(ranges) => Some(ranges_view(ranges@)),
        None => None,
    }
}

/// Writes a fenced code block whose body is highlighted with `ranges`, or shown in
/// the code style when there are none (as when highlighting fails).
pub fn write_code_block(
    out: &mut Vec<u8>,
    options: RenderOptions,
    code_block: &CodeBlock,
    ranges: &Option<Vec<(TextStyle, String)>>,
)
    ensures
        final(out)@ == old(out)@ + code_block_frame(
            options,
            *code_block,
            highlighted_body(options, *code_block, ranges_option(*ranges)),
        ),
{
    let ghost start = out@;
    let fence_style_value = TextStyle::default().fg(options.palette.code_fence).dim();
    let backticks = [96u8, 96u8, 96u8];
    assert(backticks@ =~= fence());
    write_style_start(out, options, fence_style_value);
    write_const(out, backticks.as_slice(), Ghost(fence()));
    match &code_block.info {
        Some(info) => append_bytes(out, info.as_str().as_bytes()),
        None => {},
    }
    write_style_end(out, options);
    if !code_block.text.is_empty() {
        out.push(10);
        render_code_body(out, options, code_block, ranges);
    }
    if !text_ends_with_newline(code_block.text.as_str()) {
        out.push(10);
    }
    write_styled_text(out, options, fence_style_value, backticks.as_slice());
    assert(out@ =~= start + code_block_frame(
        options,
        *code_block,
        highlighted_body(options, *code_block, ranges_option(*ranges)),
    ));
}

/// Writes a fenced code block, highlighted in ANSI mode when the highlighter
/// succeeds.
pub fn render_code_block(out: &mut Vec<u8>, options: RenderOptions, code_block: &CodeBlock)
    ensures
        final(out)@ == old(out)@ + code_block_bytes(options, *code_block),
{
    let ranges = if options.color == ColorMode::Ansi {
        let info = match &code_block.info {
            Some(info) => Some(info.as_str()),
            None => None,
        };
        highlighted_ranges(info, code_block.text.as_str(), options.code_theme)
    } else {
        None
    };
    assert(ranges_option(ranges) == code_ranges(options, *code_block));
    write_code_block(out, options, code_block, &ranges);
}

/// Writes a raw HTML block without its trailing newlines.
fn render_html(out: &mut Vec<u8>, text: &[u8])
    ensures
        final(out)@ == old(out)@ + trim_newlines(text@),
{
    let mut end: usize = text.len();
    assert(text@.subrange(0, end as int) =~= text@);
    while end > 0 && text[end - 1] == 10
        invariant
            end <= text@.len(),
            trim_newlines(text@.subrange(0, end as int)) == trim_newlines(text@),
        decreases end,
    {
        assert(text@.subrange(0, end - 1) =~= text@.subrange(0, end as int).drop_last());
        end -= 1;
    }
    let body = &text[0..end];
    assert(body@ =~= text@.subrange(0, end as int));
    assert(trim_newlines(body@) == body@);
    append_bytes(out, body);
}

/// Writes a thematic break.
fn render_rule(out: &mut Vec<u8>, options: RenderOptions)
    ensures
        final(out)@ == old(out)@ + rule_bytes(options),
{
    let ghost start = out@;
    write_style_start(out, options, TextStyle::default().fg(options.palette.muted));
    let mut count: usize = 0;
    while count < 32
        invariant
            count <= 32,
            out@ == start + style_start(options, muted_style(options)) + crate::bytes::repeat(
                crate::grid::dash(),
                count as nat,
            ),
        decreases 32 - count,
    {
        out.push(0xe2);
        out.push(0x94);
        out.push(0x80);
        assert(out@ =~= start + style_start(options, muted_style(options)) + crate::bytes::repeat(
            crate::grid::dash(),
            (count + 1) as nat,
        ));
        count += 1;
    }
    write_style_end(out, options);
    assert(out@ =~= start + rule_bytes(options));
}

/// Writes one block at nesting `depth`.
fn render_block_at_depth(
    out: &mut Vec<u8>,
    options: RenderOptions,
    block: &Block,
    depth: usize,
    width: Option<usize>,
)
    ensures
        final(out)@ == old(out)@ + block_bytes(options, *block, depth, width),
    decreases *block, 0nat,
{
    match block {
        Block::Paragraph(inlines) => render_paragraph(out, options, inlines, None, width),
        Block::Heading(heading) => render_heading(out, options, heading, width),
        Block::BlockQuote(quote) => render_blockquote(out, options, quote, depth, width),
        Block::List(list) => render_list(out, options, list, depth, 0, width),
        Block::CodeBlock(code_block) => render_code_block(out, options, code_block),
        Block::HtmlBlock(text) => render_html(out, text.as_str().as_bytes()),
        Block::Table(table) => crate::table_render::render_table(out, options, table, width),
        Block::ThematicBreak => render_rule(out, options),
        Block::BlankLine => {
            assert(old(out)@ + block_bytes(options, *block, depth, width) =~= old(out)@);
        },
    }
}

/// Renders Markdown blocks as terminal output.
#[derive(Debug, Clone, PartialEq, Eq)]
pub struct Renderer {
    options: RenderOptions,
}

impl Renderer {
    /// The options the renderer was created with.
    pub closed spec fn spec_options(&self) -> RenderOptions {
        self.options
    }

    /// What rendering `block` as the next top-level block after `state` writes.
    pub open spec fn block_piece(&self, state: RenderState, block: Block) -> Seq<u8> {
        separator(state) + block_bytes(self.spec_options(), block, 0, self.spec_options().width)
    }

    /// Creates a renderer with the given options.
    pub fn new(options: RenderOptions) -> (r: Self)
        ensures
            r.spec_options() == options,
    {
        Renderer { options }
    }

    /// Renders one top-level block: a separating newline once anything was
    /// rendered, then the block; `state` records what was written.
    pub fn render_block(&self, out: &mut Vec<u8>, block: &Block, state: &mut RenderState)
        ensures
            final(out)@ == old(out)@ + self.block_piece(*old(state), *block),
            *final(state) == next_state(*old(state), self.block_piece(*old(state), *block)),
    {
        render_block_with_state(out, self.options, block, 0, self.options.width, state);
    }

    /// Completes streaming rendering: once anything was rendered, the output ends
    /// with exactly one newline (its trailing newlines are replaced by one); if
    /// nothing was rendered, nothing is written.
    pub fn finish(&self, out: &mut Vec<u8>, state: &RenderState)
        ensures
            final(out)@ == finish_output(old(out)@, *state),
    {
        if state.has_rendered {
            while out.len() > 0 && out[out.len() - 1] == 10
                invariant
                    trim_newlines(out@) == trim_newlines(old(out)@),
                decreases out@.len(),
            {
                out.pop();
            }
            out.push(10);
        }
    }
}

} // verus!
