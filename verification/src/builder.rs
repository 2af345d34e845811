//! Assembles the Markdown event stream into blocks, with a stack of the nodes
//! still open.

use vstd::prelude::*;

use crate::ast::{
    Alignment, Block, BlockQuote, BlockQuoteKind, CodeBlock, Heading, HeadingLevel, Inline, LinkKind,
    List, ListItem, ListKind, Table, TaskState,
};
use crate::events::{
    events_view, markdown_events, parser_options, spec_markdown_events, spec_parser_options, CodeFence, MarkdownEvent,
    MdLinkType, NodeEnd, NodeStart,
};
use crate::parse_error::ParseError;
use crate::source::{
    blank_line_in_gap, gap_has_blockquote_blank_line, has_blank_quote_line, spec_gap_has_blank_line,
    spec_trimmed_end, trim_trailing_blank_gap_end,
};
use vstd::string::StringSliceAdditionalSpecFns;
use vstd::utf8::{decode_utf8, valid_utf8};
use crate::text::Text;
use crate::utf8::str_from_utf8;

verus! {

/// The kind of emphasis span being collected.
#[derive(Debug, Clone, Copy, PartialEq, Eq, Structural)]
pub enum SpanKind {
    /// Emphasis.
    Emphasis,
    /// Strong emphasis.
    Strong,
    /// Strikethrough.
    Strikethrough,
}

/// The inline node of a span kind around its children.
pub open spec fn spec_span_inline<'a>(kind: SpanKind, inlines: Vec<Inline<'a>>) -> Inline<'a> {
    match kind {
        SpanKind::Emphasis => Inline::Emphasis(inlines),
        SpanKind::Strong => Inline::Strong(inlines),
        SpanKind::Strikethrough => Inline::Strikethrough(inlines),
    }
}

/// Wraps children in the inline node of a span kind.
pub fn span_inline<'a>(kind: SpanKind, inlines: Vec<Inline<'a>>) -> (r: Inline<'a>)
    ensures
        r == spec_span_inline(kind, inlines),
{
    match kind {
        SpanKind::Emphasis => Inline::Emphasis(inlines),
        SpanKind::Strong => Inline::Strong(inlines),
        SpanKind::Strikethrough => Inline::Strikethrough(inlines),
    }
}

/// How a link is shown, by how it was written: autolinks and email links show their
/// text only, every other link also shows its destination.
pub open spec fn spec_link_kind(link_type: MdLinkType) -> LinkKind {
    match link_type {
        MdLinkType::Autolink | MdLinkType::Email => LinkKind::Autolink,
        _ => LinkKind::Regular,
    }
}

/// Only autolinks and email links (written `<...>`) are shown without their
/// destination; every link written with link text (inline, reference, collapsed,
/// shortcut, wiki) is a regular link.
pub proof fn lemma_only_autolinks_hide_their_destination(link_type: MdLinkType)
    ensures
        (spec_link_kind(link_type) == LinkKind::Autolink) == (link_type == MdLinkType::Autolink || link_type
            == MdLinkType::Email),
        (spec_link_kind(link_type) == LinkKind::Regular) == !(link_type == MdLinkType::Autolink || link_type
            == MdLinkType::Email),
{
}

/// Returns how a link is shown.
pub fn link_kind(link_type: MdLinkType) -> (r: LinkKind)
    ensures
        r == spec_link_kind(link_type),
{
    match link_type {
        MdLinkType::Autolink | MdLinkType::Email => LinkKind::Autolink,
        _ => LinkKind::Regular,
    }
}

/// A title, or none when it is empty.
pub fn non_empty_title<'a>(title: Text<'a>) -> (r: Option<Text<'a>>)
    ensures
        title@.len() == 0 ==> r is None,
        title@.len() > 0 ==> r == Some(title),
{
    if title.is_empty() {
        None
    } else {
        Some(title)
    }
}

/// A title, or none when it is empty.
pub open spec fn spec_title<'a>(title: Text<'a>) -> Option<Text<'a>> {
    if title@.len() == 0 {
        None
    } else {
        Some(title)
    }
}

/// A code block's info string: none for an indented block or an empty info string.
pub open spec fn spec_code_info<'a>(fence: CodeFence<'a>) -> Option<Text<'a>> {
    match fence {
        CodeFence::Indented => None,
        CodeFence::Fenced(info) => spec_title(info),
    }
}

/// The open nodes after an end that was refused: the innermost node was already
/// closed when the refusal came, except for the end of a table head, which closes
/// nothing.
pub open spec fn after_refused_end<'a>(frames: Seq<Frame<'a>>, tag: NodeEnd) -> Seq<Frame<'a>> {
    if tag is TableHead || frames.len() == 0 {
        frames
    } else {
        frames.drop_last()
    }
}

/// Returns a code block's info string.
pub fn code_block_info<'a>(fence: CodeFence<'a>) -> (r: Option<Text<'a>>)
    ensures
        r == spec_code_info(fence),
{
    match fence {
        CodeFence::Indented => None,
        CodeFence::Fenced(info) => non_empty_title(info),
    }
}

/// Appends text to a code or HTML block's text: an empty target becomes the
/// addition, a non-empty one grows by it.
pub fn append_text_node<'a>(target: &mut Text<'a>, addition: Text<'a>)
    ensures
        final(target)@ == old(target)@ + addition@,
{
    if target.is_empty() {
        assert(addition@ =~= old(target)@ + addition@);
        *target = addition;
    } else {
        target.push_str(addition.as_str());
    }
}

/// Appends an inline node to a block container: it joins a trailing paragraph, or
/// starts a new one.
pub fn append_inline_to_blocks<'a>(blocks: &mut Vec<Block<'a>>, inline: Inline<'a>)
    ensures
        old(blocks)@.len() > 0 && old(blocks)@.last() is Paragraph ==> {
            &&& final(blocks)@.len() == old(blocks)@.len()
            &&& final(blocks)@.drop_last() == old(blocks)@.drop_last()
            &&& final(blocks)@.last() matches Block::Paragraph(inlines)
            &&& inlines@ == old(blocks)@.last()->Paragraph_0@.push(inline)
        },
        !(old(blocks)@.len() > 0 && old(blocks)@.last() is Paragraph) ==> {
            &&& final(blocks)@.len() == old(blocks)@.len() + 1
            &&& final(blocks)@.drop_last() == old(blocks)@
            &&& final(blocks)@.last() matches Block::Paragraph(inlines)
            &&& inlines@ == seq![inline]
        },
{
    match blocks.pop() {
        Some(Block::Paragraph(mut inlines)) => {
            inlines.push(inline);
            blocks.push(Block::Paragraph(inlines));
        },
        Some(other) => {
            blocks.push(other);
            let mut inlines = Vec::new();
            inlines.push(inline);
            blocks.push(Block::Paragraph(inlines));
        },
        None => {
            let mut inlines = Vec::new();
            inlines.push(inline);
            blocks.push(Block::Paragraph(inlines));
        },
    }
}

/// The bytes `start..end` of `source` when that range is within it.
fn source_range(source: &[u8], start: usize, end: usize) -> (r: Option<&[u8]>)
    ensures
        start <= end <= source@.len() ==> r is Some && r->Some_0@ == source@.subrange(start as int, end as int),
        !(start <= end <= source@.len()) ==> r is None,
{
    if start <= end && end <= source.len() {
        let slice = &source[start..end];
        Some(slice)
    } else {
        None
    }
}

/// Whether the source bytes `start..end` hold a blank line; inside a quote a line
/// holding only the quote marker counts too. A range outside the source has none,
/// and neither has a quote gap that is not UTF-8.
pub open spec fn spec_gap_is_blank(source: Seq<u8>, start: int, end: int, in_quote: bool) -> bool {
    &&& 0 <= start <= end <= source.len()
    &&& if in_quote {
        let gap = source.subrange(start, end);
        valid_utf8(gap) && (spec_gap_has_blank_line(gap) || has_blank_quote_line(decode_utf8(gap)))
    } else {
        spec_gap_has_blank_line(source.subrange(start, end))
    }
}

/// Returns whether the source between two blocks holds a blank line.
fn gap_is_blank(source: &[u8], start: usize, end: usize, in_quote: bool) -> (r: bool)
    ensures
        r == spec_gap_is_blank(source@, start as int, end as int, in_quote),
{
    match source_range(source, start, end) {
        Some(gap) => if in_quote {
            match str_from_utf8(gap) {
                Some(text) => {
                    proof {
                        vstd::utf8::encode_utf8_decode_utf8(text@);
                    }
                    gap_has_blockquote_blank_line(text)
                },
                None => false,
            }
        } else {
            blank_line_in_gap(gap)
        },
        None => false,
    }
}

/// Where a block that covers `start..end` of the source ends, without its trailing
/// blank gap; a range outside the source ends at `end`.
pub open spec fn block_end(source: Seq<u8>, start: usize, end: usize) -> usize {
    if start <= end <= source.len() {
        spec_trimmed_end(source.subrange(start as int, end as int), end)
    } else {
        end
    }
}

/// A block list with `block` appended, after a blank line when the container had a
/// block before and a blank gap separates the two.
pub open spec fn blocks_with_gap<'a>(
    blocks: Seq<Block<'a>>,
    block: Block<'a>,
    source: Seq<u8>,
    last_end: usize,
    start: usize,
    has_prior: bool,
    in_quote: bool,
) -> Seq<Block<'a>> {
    blocks + (if has_prior && start >= last_end && spec_gap_is_blank(source, last_end as int, start as int, in_quote) {
        seq![Block::BlankLine]
    } else {
        Seq::empty()
    }) + seq![block]
}

/// Appends a block to a block container, preceded by a blank line when a blank gap
/// separates it from an earlier block, and records where the block ends.
pub fn push_block_with_blank_gap<'a>(
    source: &[u8],
    blocks: &mut Vec<Block<'a>>,
    block: Block<'a>,
    last_end: &mut usize,
    start: usize,
    end: usize,
    has_prior: bool,
    in_quote: bool,
)
    ensures
        final(blocks)@ == blocks_with_gap(old(blocks)@, block, source@, *old(last_end), start, has_prior, in_quote),
        *final(last_end) == block_end(source@, start, end),
{
    let ghost before = blocks@;
    if has_prior && start >= *last_end && gap_is_blank(source, *last_end, start, in_quote) {
        blocks.push(Block::BlankLine);
    }
    blocks.push(block);
    assert(blocks@ =~= blocks_with_gap(before, block, source@, *old(last_end), start, has_prior, in_quote));
    if start <= end && end <= source.len() {
        *last_end = trim_trailing_blank_gap_end(source, start, end);
    } else {
        *last_end = end;
    }
}

/// A node still open while its events are read.
#[allow(inconsistent_fields)]
pub enum Frame<'a> {
    /// The document.
    Document { blocks: Vec<Block<'a>>, last_end: usize, seen_block: bool },
    /// A paragraph.
    Paragraph { inlines: Vec<Inline<'a>> },
    /// A heading.
    Heading { level: HeadingLevel, inlines: Vec<Inline<'a>> },
    /// A block quote.
    BlockQuote { kind: Option<BlockQuoteKind>, blocks: Vec<Block<'a>>, last_end: usize },
    /// A list.
    List { kind: ListKind, items: Vec<ListItem<'a>>, last_item_end: Option<usize>, loose: bool },
    /// A list item, with the source range it started with.
    Item {
        task: Option<TaskState>,
        blocks: Vec<Block<'a>>,
        last_end: usize,
        start: usize,
        end: usize,
    },
    /// A code block.
    CodeBlock { info: Option<Text<'a>>, text: Text<'a> },
    /// A raw HTML block.
    HtmlBlock { text: Text<'a> },
    /// A table.
    Table {
        alignments: Vec<Alignment>,
        header: Vec<Vec<Inline<'a>>>,
        rows: Vec<Vec<Vec<Inline<'a>>>>,
        in_header: bool,
    },
    /// A table row.
    TableRow { is_header: bool, cells: Vec<Vec<Inline<'a>>> },
    /// A table cell.
    TableCell { inlines: Vec<Inline<'a>> },
    /// An emphasis span.
    InlineSpan { kind: SpanKind, inlines: Vec<Inline<'a>> },
    /// A link.
    Link { destination: Text<'a>, title: Option<Text<'a>>, kind: LinkKind, inlines: Vec<Inline<'a>> },
    /// An image.
    Image { destination: Text<'a>, title: Option<Text<'a>>, inlines: Vec<Inline<'a>> },
    /// A node that is not shown, with everything inside it.
    Ignored,
}

/// Whether inline nodes can be added to a frame, directly or as a paragraph.
pub open spec fn takes_inline(frame: Frame) -> bool {
    match frame {
        Frame::Paragraph { .. } | Frame::Heading { .. } | Frame::TableCell { .. }
        | Frame::InlineSpan { .. } | Frame::Link { .. } | Frame::Image { .. }
        | Frame::Document { .. } | Frame::BlockQuote { .. } | Frame::Item { .. }
        | Frame::Ignored => true,
        _ => false,
    }
}

/// Whether blocks can be added to a frame.
pub open spec fn takes_block(frame: Frame) -> bool {
    match frame {
        Frame::Document { .. } | Frame::BlockQuote { .. } | Frame::Item { .. } | Frame::Ignored => true,
        _ => false,
    }
}

/// Whether text can be added to a frame: to a code or HTML block's text, or as an
/// inline node.
pub open spec fn takes_text(frame: Frame) -> bool {
    frame is CodeBlock || frame is HtmlBlock || takes_inline(frame)
}

/// The inline node an inline event adds: a line break, a code span for code and
/// math, or the label's text for a footnote reference.
pub open spec fn event_inline<'a>(event: MarkdownEvent<'a>) -> Option<Inline<'a>> {
    match event {
        MarkdownEvent::SoftBreak => Some(Inline::SoftBreak),
        MarkdownEvent::HardBreak => Some(Inline::HardBreak),
        MarkdownEvent::Code(text) | MarkdownEvent::InlineMath(text) | MarkdownEvent::DisplayMath(text) => Some(
            Inline::Code(text),
        ),
        MarkdownEvent::FootnoteReference(text) => Some(Inline::Text(text)),
        _ => None,
    }
}

/// `after` is the block list `before` with `inline` added: to a trailing
/// paragraph, or as a new paragraph.
pub open spec fn blocks_gain_inline<'a>(before: Seq<Block<'a>>, after: Seq<Block<'a>>, inline: Inline<'a>) -> bool {
    if before.len() > 0 && before.last() is Paragraph {
        &&& after.len() == before.len()
        &&& after.drop_last() == before.drop_last()
        &&& after.last() matches Block::Paragraph(inlines)
        &&& inlines@ == before.last()->Paragraph_0@.push(inline)
    } else {
        &&& after.len() == before.len() + 1
        &&& after.drop_last() == before
        &&& after.last() matches Block::Paragraph(inlines)
        &&& inlines@ == seq![inline]
    }
}

/// `after` is the open node `before` with `inline` added: to the content of an
/// inline container, as a paragraph of a block container, or dropped by an
/// ignored node; everything else about the node is unchanged.
pub open spec fn gains_inline<'a>(before: Frame<'a>, after: Frame<'a>, inline: Inline<'a>) -> bool {
    match before {
        Frame::Paragraph { inlines: a } => after matches Frame::Paragraph { inlines: b } && b@ == a@.push(inline),
        Frame::Heading { level, inlines: a } => after matches Frame::Heading { level: l, inlines: b } && l
            == level && b@ == a@.push(inline),
        Frame::TableCell { inlines: a } => after matches Frame::TableCell { inlines: b } && b@ == a@.push(inline),
        Frame::InlineSpan { kind, inlines: a } => after matches Frame::InlineSpan { kind: k, inlines: b } && k
            == kind && b@ == a@.push(inline),
        Frame::Link { destination, title, kind, inlines: a } => after matches Frame::Link {
            destination: d,
            title: t,
            kind: k,
            inlines: b,
        } && d == destination && t == title && k == kind && b@ == a@.push(inline),
        Frame::Image { destination, title, inlines: a } => after matches Frame::Image {
            destination: d,
            title: t,
            inlines: b,
        } && d == destination && t == title && b@ == a@.push(inline),
        Frame::Document { blocks: a, last_end, seen_block } => after matches Frame::Document {
            blocks: b,
            last_end: e,
            seen_block: s,
        } && e == last_end && s == seen_block && blocks_gain_inline(a@, b@, inline),
        Frame::BlockQuote { kind, blocks: a, last_end } => after matches Frame::BlockQuote {
            kind: k,
            blocks: b,
            last_end: e,
        } && k == kind && e == last_end && blocks_gain_inline(a@, b@, inline),
        Frame::Item { task, blocks: a, last_end, start, end } => after matches Frame::Item {
            task: t,
            blocks: b,
            last_end: e,
            start: s,
            end: f,
        } && t == task && e == last_end && s == start && f == end && blocks_gain_inline(a@, b@, inline),
        Frame::Ignored => after is Ignored,
        _ => false,
    }
}

/// `after` is the open node `before` with `text` added: to the text of a code or
/// HTML block, dropped by an ignored node, or as a text inline node anywhere else.
pub open spec fn gains_text<'a>(before: Frame<'a>, after: Frame<'a>, text: Text<'a>) -> bool {
    match before {
        Frame::CodeBlock { info, text: a } => after matches Frame::CodeBlock { info: i, text: b } && i == info
            && b@ == a@ + text@,
        Frame::HtmlBlock { text: a } => after matches Frame::HtmlBlock { text: b } && b@ == a@ + text@,
        _ => gains_inline(before, after, Inline::Text(text)),
    }
}

/// `after` is the block container `before` with `block` added (after a blank line
/// when a blank gap separates it from an earlier block), its end recorded, and for
/// the document, the fact that it has a block; an ignored node drops the block.
pub open spec fn gains_block<'a>(
    before: Frame<'a>,
    after: Frame<'a>,
    block: Block<'a>,
    source: Seq<u8>,
    start: usize,
    end: usize,
) -> bool {
    match before {
        Frame::Document { blocks: a, last_end, seen_block } => after matches Frame::Document {
            blocks: b,
            last_end: e,
            seen_block: s,
        } && s && e == block_end(source, start, end) && b@ == blocks_with_gap(
            a@,
            block,
            source,
            last_end,
            start,
            seen_block,
            false,
        ),
        Frame::Item { task, blocks: a, last_end, start: s0, end: e0 } => after matches Frame::Item {
            task: t,
            blocks: b,
            last_end: e,
            start: s1,
            end: e1,
        } && t == task && s1 == s0 && e1 == e0 && e == block_end(source, start, end) && b@
            == blocks_with_gap(a@, block, source, last_end, start, a@.len() > 0, false),
        Frame::BlockQuote { kind, blocks: a, last_end } => after matches Frame::BlockQuote {
            kind: k,
            blocks: b,
            last_end: e,
        } && k == kind && e == block_end(source, start, end) && b@ == blocks_with_gap(
            a@,
            block,
            source,
            last_end,
            start,
            a@.len() > 0,
            true,
        ),
        Frame::Ignored => after is Ignored,
        _ => false,
    }
}

/// The checkbox state a task-list marker records.
pub open spec fn task_state(checked: bool) -> TaskState {
    if checked {
        TaskState::Checked
    } else {
        TaskState::Unchecked
    }
}

/// A list item with its checkbox set; any other node unchanged.
pub open spec fn with_task<'a>(frame: Frame<'a>, checked: bool) -> Frame<'a> {
    match frame {
        Frame::Item { task: _, blocks, last_end, start, end } => Frame::Item {
            task: Some(task_state(checked)),
            blocks,
            last_end,
            start,
            end,
        },
        other => other,
    }
}

/// `i` is the innermost open list item of `frames`.
pub open spec fn innermost_item(frames: Seq<Frame>, i: int) -> bool {
    &&& 0 <= i < frames.len()
    &&& frames[i] is Item
    &&& forall|j: int| i < j < frames.len() ==> !(#[trigger] frames[j] is Item)
}

/// A table marked as reading its header or not; any other node unchanged.
pub open spec fn with_header<'a>(frame: Frame<'a>, in_header: bool) -> Frame<'a> {
    match frame {
        Frame::Table { alignments, header, rows, in_header: _ } => Frame::Table {
            alignments,
            header,
            rows,
            in_header,
        },
        other => other,
    }
}

/// `i` is the innermost open table of `frames`.
pub open spec fn innermost_table(frames: Seq<Frame>, i: int) -> bool {
    &&& 0 <= i < frames.len()
    &&& frames[i] is Table
    &&& forall|j: int| i < j < frames.len() ==> !(#[trigger] frames[j] is Table)
}

/// `after` is the open list `before` with `item` added: the list becomes loose when
/// a blank gap separates the item from the previous one or the item holds a blank
/// line, and it records where the item ends.
pub open spec fn gains_item<'a>(
    before: Frame<'a>,
    after: Frame<'a>,
    item: ListItem<'a>,
    source: Seq<u8>,
    start: usize,
    end: usize,
) -> bool {
    &&& before matches Frame::List { kind, items: a, last_item_end, loose }
    &&& after matches Frame::List { kind: k, items: b, last_item_end: l, loose: now_loose }
    &&& k == kind
    &&& b@ == a@.push(item)
    &&& l == Some(block_end(source, start, end))
    &&& now_loose == (loose || (last_item_end matches Some(previous) && start >= previous
        && spec_gap_is_blank(source, previous as int, start as int, false)) || exists|i: int|
        0 <= i < item.blocks@.len() && #[trigger] item.blocks@[i] is BlankLine)
}

/// `after` is `before` with a finished cell added: to an open row, or to the
/// header of a table whose header is being read.
pub open spec fn gains_cell<'a>(before: Frame<'a>, after: Frame<'a>, cell: Vec<Inline<'a>>) -> bool {
    match before {
        Frame::TableRow { is_header, cells: a } => after matches Frame::TableRow { is_header: h, cells: b }
            && h == is_header && b@ == a@.push(cell),
        Frame::Table { alignments, header: a, rows, in_header } => in_header && (after matches Frame::Table {
            alignments: al,
            header: b,
            rows: r,
            in_header: i,
        } && al == alignments && r == rows && i && b@ == a@.push(cell)),
        _ => false,
    }
}

/// `after` is the open table `before` with a finished row added: as its header, or
/// as a body row.
pub open spec fn gains_row<'a>(before: Frame<'a>, after: Frame<'a>, is_header: bool, cells: Vec<Vec<Inline<'a>>>) -> bool {
    &&& before matches Frame::Table { alignments, header, rows, in_header }
    &&& after matches Frame::Table { alignments: al, header: h, rows: r, in_header: i }
    &&& al == alignments && i == in_header
    &&& if is_header {
        h == cells && r == rows
    } else {
        h == header && r@ == rows@.push(cells)
    }
}

/// `after` is the open node `before` once the finished node `node` is added to
/// it: as a block, a list item, a table row or cell, or an inline node.
pub open spec fn completes<'a>(
    node: Frame<'a>,
    before: Frame<'a>,
    after: Frame<'a>,
    source: Seq<u8>,
    start: usize,
    end: usize,
) -> bool {
    match node {
        Frame::Paragraph { inlines } => gains_block(before, after, Block::Paragraph(inlines), source, start, end),
        Frame::Heading { level, inlines } => gains_block(
            before,
            after,
            Block::Heading(Heading { level, children: inlines }),
            source,
            start,
            end,
        ),
        Frame::BlockQuote { kind, blocks, .. } => gains_block(
            before,
            after,
            Block::BlockQuote(BlockQuote { kind, blocks }),
            source,
            start,
            end,
        ),
        Frame::CodeBlock { info, text } => gains_block(
            before,
            after,
            Block::CodeBlock(CodeBlock { info, text }),
            source,
            start,
            end,
        ),
        Frame::HtmlBlock { text } => gains_block(before, after, Block::HtmlBlock(text), source, start, end),
        Frame::List { kind, items, loose, .. } => gains_block(
            before,
            after,
            Block::List(List { kind, items, loose }),
            source,
            start,
            end,
        ),
        Frame::Item { task, blocks, start: item_start, end: item_end, .. } => gains_item(
            before,
            after,
            ListItem { task, blocks },
            source,
            item_start,
            item_end,
        ),
        Frame::Table { alignments, header, rows, .. } => gains_block(
            before,
            after,
            Block::Table(Table { header, alignments, rows }),
            source,
            start,
            end,
        ),
        Frame::TableRow { is_header, cells } => gains_row(before, after, is_header, cells),
        Frame::TableCell { inlines } => gains_cell(before, after, inlines),
        Frame::InlineSpan { kind, inlines } => gains_inline(before, after, spec_span_inline(kind, inlines)),
        Frame::Link { destination, title, kind, inlines } => gains_inline(
            before,
            after,
            Inline::Link { destination, title, kind, children: inlines },
        ),
        Frame::Image { destination, title, inlines } => gains_inline(
            before,
            after,
            Inline::Image { destination, title, alt: inlines },
        ),
        Frame::Document { .. } | Frame::Ignored => false,
    }
}

/// The kind of list a list start opens: ordered from its first number, or
/// unordered.
pub open spec fn list_kind_of(first: Option<u64>) -> ListKind {
    match first {
        Some(number) => ListKind::Ordered { start: number },
        None => ListKind::Unordered,
    }
}

/// Whether `frame` is the node that `tag` opens at `start..end`, with no content
/// yet; a table row belongs to the header when `in_header`.
pub open spec fn opened_by<'a>(tag: NodeStart<'a>, frame: Frame<'a>, start: usize, end: usize, in_header: bool) -> bool {
    match tag {
        NodeStart::Paragraph => frame matches Frame::Paragraph { inlines } && inlines@.len() == 0,
        NodeStart::Heading(level) => frame matches Frame::Heading { level: l, inlines } && l == level
            && inlines@.len() == 0,
        NodeStart::BlockQuote(kind) => frame matches Frame::BlockQuote { kind: k, blocks, last_end } && k == kind
            && blocks@.len() == 0 && last_end == start,
        NodeStart::CodeBlock(fence) => frame matches Frame::CodeBlock { info, text } && info == spec_code_info(
            fence,
        ) && text@.len() == 0,
        NodeStart::HtmlBlock => frame matches Frame::HtmlBlock { text } && text@.len() == 0,
        NodeStart::List(first) => frame matches Frame::List { kind, items, last_item_end, loose } && kind
            == list_kind_of(first) && items@.len() == 0 && last_item_end is None && !loose,
        NodeStart::Item => frame matches Frame::Item { task, blocks, last_end, start: s, end: e } && task is None
            && blocks@.len() == 0 && last_end == start && s == start && e == end,
        NodeStart::Table(columns) => frame matches Frame::Table { alignments, header, rows, in_header: h }
            && alignments@ == columns@ && header@.len() == 0 && rows@.len() == 0 && !h,
        NodeStart::TableHead => false,
        NodeStart::TableRow => frame matches Frame::TableRow { is_header, cells } && is_header == in_header
            && cells@.len() == 0,
        NodeStart::TableCell => frame matches Frame::TableCell { inlines } && inlines@.len() == 0,
        NodeStart::Emphasis => frame matches Frame::InlineSpan { kind, inlines } && kind == SpanKind::Emphasis
            && inlines@.len() == 0,
        NodeStart::Strong => frame matches Frame::InlineSpan { kind, inlines } && kind == SpanKind::Strong
            && inlines@.len() == 0,
        NodeStart::Strikethrough => frame matches Frame::InlineSpan { kind, inlines } && kind
            == SpanKind::Strikethrough && inlines@.len() == 0,
        NodeStart::Link { link_type, destination, title } => frame matches Frame::Link {
            destination: d,
            title: t,
            kind,
            inlines,
        } && d == destination && t == spec_title(title) && kind == spec_link_kind(link_type) && inlines@.len()
            == 0,
        NodeStart::Image { destination, title } => frame matches Frame::Image { destination: d, title: t, inlines }
            && d == destination && t == spec_title(title) && inlines@.len() == 0,
        NodeStart::Ignored => frame is Ignored,
    }
}

/// Whether some open node is a table.
pub open spec fn has_table(frames: Seq<Frame>) -> bool {
    exists|i: int| 0 <= i < frames.len() && #[trigger] frames[i] is Table
}

/// `after` is `frames` with the innermost table marked as reading its header or
/// not.
pub open spec fn marks_header(frames: Seq<Frame>, after: Seq<Frame>, in_header: bool) -> bool {
    exists|i: int| #[trigger] innermost_table(frames, i) && after == frames.update(i, with_header(frames[i], in_header))
}

/// Whether the innermost open node is an ignored one.
pub open spec fn ignoring(frames: Seq<Frame>) -> bool {
    frames.len() > 0 && frames.last() is Ignored
}

/// Whether a start event succeeds on the open nodes `before`: a table header or
/// row needs an open table; inside an ignored node every start succeeds.
pub open spec fn start_accepted(before: Seq<Frame>, tag: NodeStart) -> bool {
    ignoring(before) || !(tag is TableHead || tag is TableRow) || has_table(before)
}

/// What a successful start event does to the open nodes `before`, leaving
/// `after`: inside an ignored node it opens another ignored node; the start of a
/// table header marks the innermost table as reading its header; a table row
/// opens in the header when the innermost table is reading it; every other start
/// opens its node.
pub open spec fn start_effect<'a>(
    before: Seq<Frame<'a>>,
    after: Seq<Frame<'a>>,
    tag: NodeStart<'a>,
    start: usize,
    end: usize,
) -> bool {
    if ignoring(before) {
        after == before.push(Frame::Ignored)
    } else if tag is TableHead {
        marks_header(before, after, true)
    } else {
        &&& after.len() == before.len() + 1
        &&& after.drop_last() == before
        &&& if tag is TableRow {
            exists|i: int|
                #[trigger] innermost_table(before, i) && (before[i] matches Frame::Table { in_header, .. }
                    && opened_by(tag, after.last(), start, end, in_header))
        } else {
            opened_by(tag, after.last(), start, end, false)
        }
    }
}

/// Whether `tag` ends the node `frame`: each end names its own kind of node, and
/// the end of emphasis, strong emphasis or strikethrough ends any emphasis span.
pub open spec fn ends(tag: NodeEnd, frame: Frame) -> bool {
    match tag {
        NodeEnd::Paragraph => frame is Paragraph,
        NodeEnd::Heading => frame is Heading,
        NodeEnd::BlockQuote => frame is BlockQuote,
        NodeEnd::CodeBlock => frame is CodeBlock,
        NodeEnd::HtmlBlock => frame is HtmlBlock,
        NodeEnd::List => frame is List,
        NodeEnd::Item => frame is Item,
        NodeEnd::Table => frame is Table,
        NodeEnd::TableHead => false,
        NodeEnd::TableRow => frame is TableRow,
        NodeEnd::TableCell => frame is TableCell,
        NodeEnd::Emphasis | NodeEnd::Strong | NodeEnd::Strikethrough => frame is InlineSpan,
        NodeEnd::Link => frame is Link,
        NodeEnd::Image => frame is Image,
        NodeEnd::Ignored => frame is Ignored,
    }
}

/// Whether the open node `parent` takes the finished node `node`: a block goes to
/// a block container, an item to a list, a row to a table, a cell to a row or to
/// a table reading its header, and an inline node to an inline or block
/// container.
pub open spec fn accepts(parent: Frame, node: Frame) -> bool {
    match node {
        Frame::Paragraph { .. } | Frame::Heading { .. } | Frame::BlockQuote { .. } | Frame::CodeBlock { .. }
        | Frame::HtmlBlock { .. } | Frame::List { .. } | Frame::Table { .. } => takes_block(parent),
        Frame::Item { .. } => parent is List,
        Frame::TableRow { .. } => parent is Table,
        Frame::TableCell { .. } => parent is TableRow || (parent matches Frame::Table { in_header, .. } && in_header),
        Frame::InlineSpan { .. } | Frame::Link { .. } | Frame::Image { .. } => takes_inline(parent),
        Frame::Ignored | Frame::Document { .. } => false,
    }
}

/// Whether an end event succeeds on the open nodes `before`: inside an ignored
/// node always; the end of a table header needs an open table; any other end
/// needs to end the innermost node, and the node around it to take it.
pub open spec fn end_accepted(before: Seq<Frame>, tag: NodeEnd) -> bool {
    if ignoring(before) {
        true
    } else if tag is TableHead {
        has_table(before)
    } else {
        before.len() >= 2 && ends(tag, before.last()) && accepts(before[before.len() - 2], before.last())
    }
}

/// What a successful end event does to the open nodes `before`, leaving `after`:
/// inside an ignored node it closes that node; the end of a table header marks
/// the innermost table as no longer reading it; any other end closes the
/// innermost node and adds it to the node around it.
pub open spec fn end_effect<'a>(
    before: Seq<Frame<'a>>,
    after: Seq<Frame<'a>>,
    tag: NodeEnd,
    source: Seq<u8>,
    start: usize,
    end: usize,
) -> bool {
    if ignoring(before) {
        after == before.drop_last()
    } else if tag is TableHead {
        marks_header(before, after, false)
    } else {
        &&& after.len() + 1 == before.len()
        &&& after.drop_last() == before.drop_last().drop_last()
        &&& completes(before.last(), before[before.len() - 2], after.last(), source, start, end)
    }
}

/// Whether some open node is a list item.
pub open spec fn has_item(frames: Seq<Frame>) -> bool {
    exists|i: int| 0 <= i < frames.len() && #[trigger] frames[i] is Item
}

/// Whether `event` succeeds on the open nodes `before`: a start or end as above,
/// text where text or inline nodes go, an inline node where inline nodes go, a
/// rule where blocks go, and a task checkbox inside a list item.
pub open spec fn event_accepted<'a>(before: Seq<Frame<'a>>, event: MarkdownEvent<'a>) -> bool {
    match event {
        MarkdownEvent::Start(tag) => start_accepted(before, tag),
        MarkdownEvent::End(tag) => end_accepted(before, tag),
        MarkdownEvent::TaskListMarker(_) => has_item(before),
        MarkdownEvent::Rule => before.len() > 0 && takes_block(before.last()),
        MarkdownEvent::Text(_) | MarkdownEvent::Html(_) | MarkdownEvent::InlineHtml(_) => before.len() > 0
            && takes_text(before.last()),
        _ => before.len() > 0 && takes_inline(before.last()),
    }
}

/// What a successful `event` at `start..end` of `source` does to the open nodes
/// `before`, leaving `after`: starts and ends as above; text, an inline node or a
/// rule joins the innermost node; a task checkbox marks the innermost list item.
pub open spec fn event_effect<'a>(
    before: Seq<Frame<'a>>,
    after: Seq<Frame<'a>>,
    event: MarkdownEvent<'a>,
    source: Seq<u8>,
    start: usize,
    end: usize,
) -> bool {
    match event {
        MarkdownEvent::Start(tag) => start_effect(before, after, tag, start, end),
        MarkdownEvent::End(tag) => end_effect(before, after, tag, source, start, end),
        MarkdownEvent::TaskListMarker(checked) => exists|i: int|
            #[trigger] innermost_item(before, i) && after == before.update(i, with_task(before[i], checked)),
        _ => {
            &&& after.len() == before.len()
            &&& after.drop_last() == before.drop_last()
            &&& match event {
                MarkdownEvent::Rule => gains_block(before.last(), after.last(), Block::ThematicBreak, source, start, end),
                MarkdownEvent::Text(text) | MarkdownEvent::Html(text) | MarkdownEvent::InlineHtml(text) => gains_text(
                    before.last(),
                    after.last(),
                    text,
                ),
                _ => event_inline(event) matches Some(inline) && gains_inline(before.last(), after.last(), inline),
            }
        },
    }
}


/// Assembles blocks from the Markdown event stream.
pub struct AstBuilder<'a> {
    source: &'a [u8],
    frames: Vec<Frame<'a>>,
}

impl<'a> AstBuilder<'a> {
    /// The number of open nodes, the document included.
    pub closed spec fn depth(&self) -> nat {
        self.frames@.len()
    }

    /// Whether the document is the outermost open node.
    pub closed spec fn document_open(&self) -> bool {
        self.frames@.len() > 0 && self.frames@[0] is Document
    }

    /// Whether the document is the only open node.
    pub closed spec fn only_document_open(&self) -> bool {
        self.frames@.len() == 1 && self.frames@[0] is Document
    }

    /// The nodes still open, outermost first.
    pub closed spec fn open_nodes(&self) -> Seq<Frame<'a>> {
        self.frames@
    }

    /// The bytes of the source being parsed.
    pub closed spec fn source_bytes(&self) -> Seq<u8> {
        self.source@
    }

    /// Whether the innermost open node is an ignored one.
    pub closed spec fn in_ignored(&self) -> bool {
        self.frames@.len() > 0 && self.frames@.last() is Ignored
    }

    /// Creates a builder for `source` with only the document open.
    pub fn new(source: &'a str) -> (r: Self)
        ensures
            r.depth() == 1,
            !r.in_ignored(),
            r.open_nodes()[0] matches Frame::Document { blocks, last_end, seen_block } && blocks@.len() == 0
                && last_end == 0 && !seen_block,
            r.source_bytes() == source.spec_bytes(),
    {
        let mut frames = Vec::new();
        frames.push(Frame::Document { blocks: Vec::new(), last_end: 0, seen_block: false });
        AstBuilder { source: source.as_bytes(), frames }
    }

    /// Adds an inline node to the innermost open node.
    fn append_inline(&mut self, inline: Inline<'a>) -> (r: Result<(), ParseError>)
        ensures
            final(self).depth() == old(self).depth(),
            final(self).in_ignored() == old(self).in_ignored(),
            r is Ok <==> (old(self).frames@.len() > 0 && takes_inline(old(self).frames@.last())),
            r is Ok ==> final(self).frames@.drop_last() == old(self).frames@.drop_last() && gains_inline(
                old(self).frames@.last(),
                final(self).frames@.last(),
                inline,
            ),
            r is Err ==> final(self).frames@ == old(self).frames@,
            final(self).source == old(self).source,
    {
        match self.frames.pop() {
            None => Err(ParseError::new("markdown inline node appeared outside an inline container")),
            Some(frame) => {
                let (frame, result) = match frame {
                    Frame::Paragraph { mut inlines } => {
                        inlines.push(inline);
                        (Frame::Paragraph { inlines }, Ok(()))
                    },
                    Frame::Heading { level, mut inlines } => {
                        inlines.push(inline);
                        (Frame::Heading { level, inlines }, Ok(()))
                    },
                    Frame::TableCell { mut inlines } => {
                        inlines.push(inline);
                        (Frame::TableCell { inlines }, Ok(()))
                    },
                    Frame::InlineSpan { kind, mut inlines } => {
                        inlines.push(inline);
                        (Frame::InlineSpan { kind, inlines }, Ok(()))
                    },
                    Frame::Link { destination, title, kind, mut inlines } => {
                        inlines.push(inline);
                        (Frame::Link { destination, title, kind, inlines }, Ok(()))
                    },
                    Frame::Image { destination, title, mut inlines } => {
                        inlines.push(inline);
                        (Frame::Image { destination, title, inlines }, Ok(()))
                    },
                    Frame::Document { mut blocks, last_end, seen_block } => {
                        append_inline_to_blocks(&mut blocks, inline);
                        (Frame::Document { blocks, last_end, seen_block }, Ok(()))
                    },
                    Frame::BlockQuote { kind, mut blocks, last_end } => {
                        append_inline_to_blocks(&mut blocks, inline);
                        (Frame::BlockQuote { kind, blocks, last_end }, Ok(()))
                    },
                    Frame::Item { task, mut blocks, last_end, start, end } => {
                        append_inline_to_blocks(&mut blocks, inline);
                        (Frame::Item { task, blocks, last_end, start, end }, Ok(()))
                    },
                    Frame::Ignored => (Frame::Ignored, Ok(())),
                    other => (
                        other,
                        Err(ParseError::new("markdown inline node appeared outside an inline container")),
                    ),
                };
                self.frames.push(frame);
                result
            },
        }
    }

    /// Adds text to the innermost open node: code and HTML blocks collect it as
    /// their text, ignored nodes drop it, anything else takes it as an inline node.
    fn append_text(&mut self, text: Text<'a>) -> (r: Result<(), ParseError>)
        ensures
            final(self).depth() == old(self).depth(),
            final(self).in_ignored() == old(self).in_ignored(),
            r is Ok <==> (old(self).frames@.len() > 0 && takes_text(old(self).frames@.last())),
            r is Ok ==> final(self).frames@.drop_last() == old(self).frames@.drop_last() && gains_text(
                old(self).frames@.last(),
                final(self).frames@.last(),
                text,
            ),
            r is Err ==> final(self).frames@ == old(self).frames@,
            final(self).source == old(self).source,
    {
        match self.frames.pop() {
            Some(Frame::CodeBlock { info, text: mut code }) => {
                append_text_node(&mut code, text);
                self.frames.push(Frame::CodeBlock { info, text: code });
                Ok(())
            },
            Some(Frame::HtmlBlock { text: mut code }) => {
                append_text_node(&mut code, text);
                self.frames.push(Frame::HtmlBlock { text: code });
                Ok(())
            },
            Some(Frame::Ignored) => {
                self.frames.push(Frame::Ignored);
                Ok(())
            },
            Some(other) => {
                self.frames.push(other);
                self.append_inline(Inline::Text(text))
            },
            None => self.append_inline(Inline::Text(text)),
        }
    }

    /// Adds a finished block to the innermost open node, with a blank line before it
    /// when the source between it and the previous block holds one.
    pub fn append_block(&mut self, block: Block<'a>, start: usize, end: usize) -> (r: Result<(), ParseError>)
        ensures
            final(self).depth() == old(self).depth(),
            final(self).in_ignored() == old(self).in_ignored(),
            r is Ok <==> (old(self).open_nodes().len() > 0 && takes_block(old(self).open_nodes().last())),
            r is Ok ==> final(self).open_nodes().drop_last() == old(self).open_nodes().drop_last() && gains_block(
                old(self).open_nodes().last(),
                final(self).open_nodes().last(),
                block,
                old(self).source_bytes(),
                start,
                end,
            ),
            r is Err ==> final(self).open_nodes() == old(self).open_nodes(),
            final(self).source_bytes() == old(self).source_bytes(),
    {
        let source = self.source;
        match self.frames.pop() {
            Some(Frame::Document { mut blocks, mut last_end, seen_block }) => {
                push_block_with_blank_gap(source, &mut blocks, block, &mut last_end, start, end, seen_block, false);
                self.frames.push(Frame::Document { blocks, last_end, seen_block: true });
                Ok(())
            },
            Some(Frame::Item { task, mut blocks, mut last_end, start: item_start, end: item_end }) => {
                let has_prior = blocks.len() > 0;
                push_block_with_blank_gap(source, &mut blocks, block, &mut last_end, start, end, has_prior, false);
                self.frames.push(Frame::Item { task, blocks, last_end, start: item_start, end: item_end });
                Ok(())
            },
            Some(Frame::BlockQuote { kind, mut blocks, mut last_end }) => {
                let has_prior = blocks.len() > 0;
                push_block_with_blank_gap(source, &mut blocks, block, &mut last_end, start, end, has_prior, true);
                self.frames.push(Frame::BlockQuote { kind, blocks, last_end });
                Ok(())
            },
            Some(Frame::Ignored) => {
                self.frames.push(Frame::Ignored);
                Ok(())
            },
            Some(other) => {
                self.frames.push(other);
                Err(ParseError::new("markdown block node appeared outside a block container"))
            },
            None => Err(ParseError::new("markdown block node appeared outside a block container")),
        }
    }

    /// Adds a finished item to the innermost open list, which becomes loose when a
    /// blank line separates the item from the previous one or sits inside it.
    fn append_list_item(&mut self, item: ListItem<'a>, start: usize, end: usize) -> (r: Result<(), ParseError>)
        ensures
            final(self).source == old(self).source,
            final(self).depth() == old(self).depth(),
            final(self).in_ignored() == old(self).in_ignored(),
            r is Ok <==> (old(self).frames@.len() > 0 && old(self).frames@.last() is List),
            r is Ok ==> final(self).frames@.drop_last() == old(self).frames@.drop_last() && gains_item(
                old(self).frames@.last(),
                final(self).frames@.last(),
                item,
                old(self).source@,
                start,
                end,
            ),
            r is Err ==> final(self).frames@ == old(self).frames@,
    {
        let source = self.source;
        match self.frames.pop() {
            Some(Frame::List { kind, mut items, last_item_end, mut loose }) => {
                match last_item_end {
                    Some(previous_end) => {
                        if start >= previous_end && gap_is_blank(source, previous_end, start, false) {
                            loose = true;
                        }
                    },
                    None => {},
                }
                if contains_blank_line(&item.blocks) {
                    loose = true;
                }
                items.push(item);
                let item_end = if start <= end && end <= source.len() {
                    trim_trailing_blank_gap_end(source, start, end)
                } else {
                    end
                };
                self.frames.push(Frame::List { kind, items, last_item_end: Some(item_end), loose });
                Ok(())
            },
            Some(other) => {
                self.frames.push(other);
                Err(ParseError::new("markdown list item appeared outside a list"))
            },
            None => Err(ParseError::new("markdown list item appeared outside a list")),
        }
    }

    /// Adds a finished cell to the innermost open row, or to the header of a table
    /// whose header is being read.
    fn append_table_cell(&mut self, inlines: Vec<Inline<'a>>) -> (r: Result<(), ParseError>)
        ensures
            final(self).source == old(self).source,
            final(self).depth() == old(self).depth(),
            final(self).in_ignored() == old(self).in_ignored(),
            r is Ok ==> final(self).frames@.drop_last() == old(self).frames@.drop_last() && gains_cell(
                old(self).frames@.last(),
                final(self).frames@.last(),
                inlines,
            ),
            r is Ok <==> (old(self).frames@.len() > 0 && (old(self).frames@.last() is TableRow
                || (old(self).frames@.last() matches Frame::Table { in_header, .. } && in_header))),
            r is Err ==> final(self).frames@ == old(self).frames@,
    {
        match self.frames.pop() {
            Some(Frame::TableRow { is_header, mut cells }) => {
                cells.push(inlines);
                self.frames.push(Frame::TableRow { is_header, cells });
                Ok(())
            },
            Some(Frame::Table { alignments, mut header, rows, in_header }) => {
                let accepted = in_header;
                if in_header {
                    header.push(inlines);
                }
                self.frames.push(Frame::Table { alignments, header, rows, in_header });
                if accepted {
                    Ok(())
                } else {
                    Err(ParseError::new("markdown table cell appeared outside a table row"))
                }
            },
            Some(other) => {
                self.frames.push(other);
                Err(ParseError::new("markdown table cell appeared outside a table row"))
            },
            None => Err(ParseError::new("markdown table cell appeared outside a table row")),
        }
    }

    /// Adds a finished row to the innermost open table: as its header, or as a body
    /// row.
    fn append_table_row(&mut self, is_header: bool, cells: Vec<Vec<Inline<'a>>>) -> (r: Result<(), ParseError>)
        ensures
            final(self).source == old(self).source,
            final(self).depth() == old(self).depth(),
            final(self).in_ignored() == old(self).in_ignored(),
            r is Ok <==> (old(self).frames@.len() > 0 && old(self).frames@.last() is Table),
            r is Ok ==> final(self).frames@.drop_last() == old(self).frames@.drop_last() && gains_row(
                old(self).frames@.last(),
                final(self).frames@.last(),
                is_header,
                cells,
            ),
            r is Err ==> final(self).frames@ == old(self).frames@,
    {
        match self.frames.pop() {
            Some(Frame::Table { alignments, header, mut rows, in_header }) => {
                if is_header {
                    self.frames.push(Frame::Table { alignments, header: cells, rows, in_header });
                } else {
                    rows.push(cells);
                    self.frames.push(Frame::Table { alignments, header, rows, in_header });
                }
                Ok(())
            },
            Some(other) => {
                self.frames.push(other);
                Err(ParseError::new("markdown table row appeared outside a table"))
            },
            None => Err(ParseError::new("markdown table row appeared outside a table")),
        }
    }

    /// Records a task checkbox on the innermost open list item.
    fn set_task_marker(&mut self, checked: bool) -> (r: Result<(), ParseError>)
        ensures
            final(self).depth() == old(self).depth(),
            final(self).in_ignored() == old(self).in_ignored(),
            r is Ok <==> exists|i: int| 0 <= i < old(self).frames@.len() && #[trigger] old(self).frames@[i] is Item,
            r is Ok ==> exists|i: int|
                #[trigger] innermost_item(old(self).frames@, i) && final(self).frames@ == old(self).frames@.update(
                    i,
                    with_task(old(self).frames@[i], checked),
                ),
            r is Err ==> final(self).frames@ == old(self).frames@,
            final(self).source == old(self).source,
    {
        let mut index = self.frames.len();
        while index > 0
            invariant
                index <= self.frames@.len(),
                self.frames@ == old(self).frames@,
                self.source == old(self).source,
                forall|i: int| index <= i < self.frames@.len() ==> !(#[trigger] self.frames@[i] is Item),
            decreases index,
        {
            index -= 1;
            if matches!(self.frames[index], Frame::Item { .. }) {
                let frame = self.frames.remove(index);
                let updated = match frame {
                    Frame::Item { task: _, blocks, last_end, start, end } => Frame::Item {
                        task: Some(
                            if checked {
                                TaskState::Checked
                            } else {
                                TaskState::Unchecked
                            },
                        ),
                        blocks,
                        last_end,
                        start,
                        end,
                    },
                    other => other,
                };
                self.frames.insert(index, updated);
                assert(self.frames@ =~= old(self).frames@.update(
                    index as int,
                    with_task(old(self).frames@[index as int], checked),
                ));
                assert(innermost_item(old(self).frames@, index as int));
                assert(self.frames@.len() == old(self).frames@.len());
                assert(self.frames@.last() is Ignored <==> old(self).frames@.last() is Ignored);
                return Ok(());
            }
        }
        Err(ParseError::new("markdown task marker appeared outside a list item"))
    }

    /// Whether the innermost open table is reading its header.
    fn current_table_is_header(&self) -> (r: Result<bool, ParseError>)
        ensures
            r is Ok <==> exists|i: int| 0 <= i < self.frames@.len() && #[trigger] self.frames@[i] is Table,
            r is Ok ==> exists|i: int|
                #[trigger] innermost_table(self.frames@, i) && (self.frames@[i] matches Frame::Table {
                    in_header,
                    ..
                } && in_header == r->Ok_0),
    {
        let mut index = self.frames.len();
        while index > 0
            invariant
                index <= self.frames@.len(),
                forall|i: int| index <= i < self.frames@.len() ==> !(#[trigger] self.frames@[i] is Table),
            decreases index,
        {
            index -= 1;
            match &self.frames[index] {
                Frame::Table { in_header, .. } => {
                    assert(innermost_table(self.frames@, index as int));
                    return Ok(*in_header);
                },
                _ => {},
            }
        }
        Err(ParseError::new("markdown table row appeared outside a table"))
    }

    /// Marks whether the innermost open table is reading its header.
    fn set_table_header(&mut self, in_header: bool) -> (r: Result<(), ParseError>)
        ensures
            final(self).depth() == old(self).depth(),
            final(self).in_ignored() == old(self).in_ignored(),
            r is Ok <==> exists|i: int| 0 <= i < old(self).frames@.len() && #[trigger] old(self).frames@[i] is Table,
            r is Ok ==> exists|i: int|
                #[trigger] innermost_table(old(self).frames@, i) && final(self).frames@ == old(self).frames@.update(
                    i,
                    with_header(old(self).frames@[i], in_header),
                ),
            r is Err ==> final(self).frames@ == old(self).frames@,
            final(self).source == old(self).source,
    {
        let mut index = self.frames.len();
        while index > 0
            invariant
                index <= self.frames@.len(),
                self.frames@ == old(self).frames@,
                self.source == old(self).source,
                forall|i: int| index <= i < self.frames@.len() ==> !(#[trigger] self.frames@[i] is Table),
            decreases index,
        {
            index -= 1;
            if matches!(self.frames[index], Frame::Table { .. }) {
                let frame = self.frames.remove(index);
                let updated = match frame {
                    Frame::Table { alignments, header, rows, in_header: _ } => Frame::Table {
                        alignments,
                        header,
                        rows,
                        in_header,
                    },
                    other => other,
                };
                self.frames.insert(index, updated);
                assert(self.frames@ =~= old(self).frames@.update(
                    index as int,
                    with_header(old(self).frames@[index as int], in_header),
                ));
                assert(innermost_table(old(self).frames@, index as int));
                assert(self.frames@.len() == old(self).frames@.len());
                assert(self.frames@.last() is Ignored <==> old(self).frames@.last() is Ignored);
                return Ok(());
            }
        }
        Err(ParseError::new("markdown table header appeared outside a table"))
    }
}

impl<'a> AstBuilder<'a> {
    /// Opens the node a start event begins; inside an ignored node everything is
    /// ignored.
    fn start_tag(&mut self, tag: NodeStart<'a>, start: usize, end: usize) -> (r: Result<(), ParseError>)
        ensures
            final(self).source == old(self).source,
            (r is Ok) == start_accepted(old(self).frames@, tag),
            r is Ok ==> start_effect(old(self).frames@, final(self).frames@, tag, start, end),
            r is Err ==> final(self).frames@ == old(self).frames@,
    {
        if self.frames.len() > 0 && matches!(self.frames[self.frames.len() - 1], Frame::Ignored) {
            self.frames.push(Frame::Ignored);
            return Ok(());
        }
        proof {
            reveal_strlit("");
        }
        let ghost opened = tag;
        let frame = match tag {
            NodeStart::Paragraph => Frame::Paragraph { inlines: Vec::new() },
            NodeStart::Heading(level) => Frame::Heading { level, inlines: Vec::new() },
            NodeStart::BlockQuote(kind) => Frame::BlockQuote { kind, blocks: Vec::new(), last_end: start },
            NodeStart::CodeBlock(fence) => Frame::CodeBlock {
                info: code_block_info(fence),
                text: Text::borrowed(""),
            },
            NodeStart::HtmlBlock => Frame::HtmlBlock { text: Text::borrowed("") },
            NodeStart::List(first) => Frame::List {
                kind: match first {
                    Some(number) => ListKind::Ordered { start: number },
                    None => ListKind::Unordered,
                },
                items: Vec::new(),
                last_item_end: None,
                loose: false,
            },
            NodeStart::Item => Frame::Item { task: None, blocks: Vec::new(), last_end: start, start, end },
            NodeStart::Table(columns) => Frame::Table {
                alignments: columns,
                header: Vec::new(),
                rows: Vec::new(),
                in_header: false,
            },
            NodeStart::TableHead => {
                return self.set_table_header(true);
            },
            NodeStart::TableRow => {
                let is_header = match self.current_table_is_header() {
                    Ok(value) => value,
                    Err(error) => {
                        return Err(error);
                    },
                };
                self.frames.push(Frame::TableRow { is_header, cells: Vec::new() });
                assert(self.frames@.drop_last() =~= old(self).frames@);
                return Ok(());
            },
            NodeStart::TableCell => Frame::TableCell { inlines: Vec::new() },
            NodeStart::Emphasis => Frame::InlineSpan { kind: SpanKind::Emphasis, inlines: Vec::new() },
            NodeStart::Strong => Frame::InlineSpan { kind: SpanKind::Strong, inlines: Vec::new() },
            NodeStart::Strikethrough => Frame::InlineSpan { kind: SpanKind::Strikethrough, inlines: Vec::new() },
            NodeStart::Link { link_type, destination, title } => Frame::Link {
                destination,
                title: non_empty_title(title),
                kind: link_kind(link_type),
                inlines: Vec::new(),
            },
            NodeStart::Image { destination, title } => Frame::Image {
                destination,
                title: non_empty_title(title),
                inlines: Vec::new(),
            },
            NodeStart::Ignored => Frame::Ignored,
        };
        assert(opened_by(opened, frame, start, end, false));
        self.frames.push(frame);
        assert(self.frames@.drop_last() =~= old(self).frames@);
        Ok(())
    }

    /// Closes the innermost open node.
    fn pop_frame(&mut self, node: &str) -> (r: Result<Frame<'a>, ParseError>)
        ensures
            old(self).frames@.len() > 0 ==> r is Ok && final(self).frames@ == old(self).frames@.drop_last()
                && r->Ok_0 == old(self).frames@.last(),
            old(self).frames@.len() == 0 ==> r is Err && final(self).frames@ == old(self).frames@,
            final(self).source == old(self).source,
    {
        match self.frames.pop() {
            Some(frame) => Ok(frame),
            None => {
                let mut message = String::from_str("markdown ");
                message.append(node);
                message.append(" ended with an empty stack");
                Err(ParseError::new(message.as_str()))
            },
        }
    }

    /// Closes the innermost open node when `tag` ends it, adding it to the node
    /// around it; inside an ignored node every end closes the ignored node.
    fn end_tag(&mut self, tag: NodeEnd, start: usize, end: usize) -> (r: Result<(), ParseError>)
        ensures
            final(self).source == old(self).source,
            (r is Ok) == end_accepted(old(self).frames@, tag),
            r is Ok ==> end_effect(old(self).frames@, final(self).frames@, tag, old(self).source@, start, end),
            r is Err ==> final(self).frames@ == after_refused_end(old(self).frames@, tag),
    {
        if self.frames.len() > 0 && matches!(self.frames[self.frames.len() - 1], Frame::Ignored) {
            self.frames.pop();
            return Ok(());
        }
        match tag {
            NodeEnd::Paragraph => match self.pop_frame("paragraph") {
                Ok(Frame::Paragraph { inlines }) => self.append_block(Block::Paragraph(inlines), start, end),
                Ok(_) => Err(ParseError::new("markdown paragraph ended out of order")),
                Err(error) => Err(error),
            },
            NodeEnd::Heading => match self.pop_frame("heading") {
                Ok(Frame::Heading { level, inlines }) => self.append_block(
                    Block::Heading(Heading { level, children: inlines }),
                    start,
                    end,
                ),
                Ok(_) => Err(ParseError::new("markdown heading ended out of order")),
                Err(error) => Err(error),
            },
            NodeEnd::BlockQuote => match self.pop_frame("blockquote") {
                Ok(Frame::BlockQuote { kind, blocks, last_end: _ }) => self.append_block(
                    Block::BlockQuote(BlockQuote { kind, blocks }),
                    start,
                    end,
                ),
                Ok(_) => Err(ParseError::new("markdown blockquote ended out of order")),
                Err(error) => Err(error),
            },
            NodeEnd::CodeBlock => match self.pop_frame("code block") {
                Ok(Frame::CodeBlock { info, text }) => self.append_block(
                    Block::CodeBlock(CodeBlock { info, text }),
                    start,
                    end,
                ),
                Ok(_) => Err(ParseError::new("markdown code block ended out of order")),
                Err(error) => Err(error),
            },
            NodeEnd::HtmlBlock => match self.pop_frame("html block") {
                Ok(Frame::HtmlBlock { text }) => self.append_block(Block::HtmlBlock(text), start, end),
                Ok(_) => Err(ParseError::new("markdown html block ended out of order")),
                Err(error) => Err(error),
            },
            NodeEnd::List => match self.pop_frame("list") {
                Ok(Frame::List { kind, items, last_item_end: _, loose }) => self.append_block(
                    Block::List(List { kind, items, loose }),
                    start,
                    end,
                ),
                Ok(_) => Err(ParseError::new("markdown list ended out of order")),
                Err(error) => Err(error),
            },
            NodeEnd::Item => match self.pop_frame("list item") {
                Ok(Frame::Item { task, blocks, last_end: _, start: item_start, end: item_end }) => self.append_list_item(
                    ListItem { task, blocks },
                    item_start,
                    item_end,
                ),
                Ok(_) => Err(ParseError::new("markdown list item ended out of order")),
                Err(error) => Err(error),
            },
            NodeEnd::Table => match self.pop_frame("table") {
                Ok(Frame::Table { alignments, header, rows, in_header: _ }) => self.append_block(
                    Block::Table(Table { header, alignments, rows }),
                    start,
                    end,
                ),
                Ok(_) => Err(ParseError::new("markdown table ended out of order")),
                Err(error) => Err(error),
            },
            NodeEnd::TableHead => self.set_table_header(false),
            NodeEnd::TableRow => match self.pop_frame("table row") {
                Ok(Frame::TableRow { is_header, cells }) => self.append_table_row(is_header, cells),
                Ok(_) => Err(ParseError::new("markdown table row ended out of order")),
                Err(error) => Err(error),
            },
            NodeEnd::TableCell => match self.pop_frame("table cell") {
                Ok(Frame::TableCell { inlines }) => self.append_table_cell(inlines),
                Ok(_) => Err(ParseError::new("markdown table cell ended out of order")),
                Err(error) => Err(error),
            },
            NodeEnd::Emphasis | NodeEnd::Strong | NodeEnd::Strikethrough | NodeEnd::Link
            | NodeEnd::Image => self.end_inline_tag(tag, start, end),
            NodeEnd::Ignored => match self.pop_frame("ignored node") {
                Ok(Frame::Ignored) => Ok(()),
                Ok(_) => Err(ParseError::new("markdown ignored node ended out of order")),
                Err(error) => Err(error),
            },
        }
    }

    /// Closes the innermost span-level node when `tag` ends it, adding it to the
    /// node around it.
    fn end_inline_tag(&mut self, tag: NodeEnd, start: usize, end: usize) -> (r: Result<(), ParseError>)
        requires
            tag is Emphasis || tag is Strong || tag is Strikethrough || tag is Link || tag is Image,
            !(old(self).frames@.len() > 0 && old(self).frames@.last() is Ignored),
        ensures
            final(self).source == old(self).source,
            (r is Ok) == end_accepted(old(self).frames@, tag),
            r is Ok ==> end_effect(old(self).frames@, final(self).frames@, tag, old(self).source@, start, end),
            r is Err ==> final(self).frames@ == after_refused_end(old(self).frames@, tag),
    {
        match tag {
            NodeEnd::Link => match self.pop_frame("link") {
                Ok(Frame::Link { destination, title, kind, inlines }) => self.append_inline(
                    Inline::Link { destination, title, kind, children: inlines },
                ),
                Ok(_) => Err(ParseError::new("markdown link ended out of order")),
                Err(error) => Err(error),
            },
            NodeEnd::Image => match self.pop_frame("image") {
                Ok(Frame::Image { destination, title, inlines }) => self.append_inline(
                    Inline::Image { destination, title, alt: inlines },
                ),
                Ok(_) => Err(ParseError::new("markdown image ended out of order")),
                Err(error) => Err(error),
            },
            _ => match self.pop_frame("inline span") {
                Ok(Frame::InlineSpan { kind, inlines }) => self.append_inline(span_inline(kind, inlines)),
                Ok(_) => Err(ParseError::new("markdown inline span ended out of order")),
                Err(error) => Err(error),
            },
        }
    }

    /// Feeds one event with its source range to the builder: a start opens a node,
    /// an end closes one, text and inline nodes join the innermost node, a rule
    /// joins it as a block and a task checkbox marks the innermost list item.
    pub fn push_event(&mut self, event: MarkdownEvent<'a>, start: usize, end: usize) -> (r: Result<(), ParseError>)
        ensures
            final(self).source_bytes() == old(self).source_bytes(),
            (r is Ok) == event_accepted(old(self).open_nodes(), event),
            r is Ok ==> event_effect(
                old(self).open_nodes(),
                final(self).open_nodes(),
                event,
                old(self).source_bytes(),
                start,
                end,
            ),
            r is Err && !(event is End) ==> final(self).open_nodes() == old(self).open_nodes(),
            r is Err ==> (event matches MarkdownEvent::End(tag) ==> final(self).open_nodes()
                == after_refused_end(old(self).open_nodes(), tag)),
    {
        match event {
            MarkdownEvent::Start(tag) => self.start_tag(tag, start, end),
            MarkdownEvent::End(tag) => self.end_tag(tag, start, end),
            MarkdownEvent::Text(text) | MarkdownEvent::Html(text) | MarkdownEvent::InlineHtml(text) => self.append_text(
                text,
            ),
            MarkdownEvent::Code(text) | MarkdownEvent::InlineMath(text) | MarkdownEvent::DisplayMath(text) => self.append_inline(
                Inline::Code(text),
            ),
            MarkdownEvent::FootnoteReference(text) => self.append_inline(Inline::Text(text)),
            MarkdownEvent::SoftBreak => self.append_inline(Inline::SoftBreak),
            MarkdownEvent::HardBreak => self.append_inline(Inline::HardBreak),
            MarkdownEvent::Rule => self.append_block(Block::ThematicBreak, start, end),
            MarkdownEvent::TaskListMarker(checked) => self.set_task_marker(checked),
        }
    }

    /// Takes the blocks the document has completed so far.
    pub fn drain_document_blocks(&mut self) -> (r: Result<Vec<Block<'a>>, ParseError>)
        ensures
            r is Ok <==> old(self).document_open(),
            final(self).depth() == old(self).depth(),
            r is Err ==> final(self).open_nodes() == old(self).open_nodes(),
            r is Ok ==> (old(self).open_nodes()[0] matches Frame::Document { blocks, last_end, seen_block }
                && r->Ok_0@ == blocks@ && (final(self).open_nodes()[0] matches Frame::Document {
                blocks: remaining,
                last_end: e,
                seen_block: s,
            } && remaining@.len() == 0 && e == last_end && s == seen_block)),
            r is Ok ==> final(self).open_nodes().drop_first() == old(self).open_nodes().drop_first(),
            final(self).source_bytes() == old(self).source_bytes(),
    {
        if self.frames.len() == 0 {
            return Err(ParseError::new("markdown parser lost the document frame"));
        }
        let first = self.frames.remove(0);
        match first {
            Frame::Document { blocks, last_end, seen_block } => {
                self.frames.insert(0, Frame::Document { blocks: Vec::new(), last_end, seen_block });
                Ok(blocks)
            },
            other => {
                self.frames.insert(0, other);
                Err(ParseError::new("markdown parser lost the document frame"))
            },
        }
    }

    /// Ends the document: succeeds with its remaining blocks when only the document
    /// is still open.
    pub fn finish(self) -> (r: Result<Vec<Block<'a>>, ParseError>)
        ensures
            r is Ok <==> self.only_document_open(),
            r is Ok ==> (self.open_nodes()[0] matches Frame::Document { blocks, .. } && r->Ok_0@ == blocks@),
    {
        let mut this = self;
        if this.frames.len() != 1 {
            return Err(ParseError::new("markdown parser ended with unclosed nodes"));
        }
        match this.pop_frame("document") {
            Ok(Frame::Document { blocks, last_end: _, seen_block: _ }) => Ok(blocks),
            Ok(_) => Err(ParseError::new("markdown parser ended without a document")),
            Err(error) => Err(error),
        }
    }
}

/// The open nodes of a builder that has just started: the document alone, with
/// no blocks yet.
pub open spec fn initial_frames(frames: Seq<Frame>) -> bool {
    &&& frames.len() == 1
    &&& frames[0] matches Frame::Document { blocks, last_end, seen_block }
    &&& blocks@.len() == 0 && last_end == 0 && !seen_block
}

/// Whether the document is the only open node.
pub open spec fn only_document(frames: Seq<Frame>) -> bool {
    frames.len() == 1 && frames[0] is Document
}

/// The blocks the document holds, when the outermost open node is the document.
pub open spec fn document_blocks<'a>(frames: Seq<Frame<'a>>) -> Seq<Block<'a>> {
    match frames[0] {
        Frame::Document { blocks, .. } => blocks@,
        _ => Seq::empty(),
    }
}

/// `after` is the open nodes `before` with the document's blocks taken away.
pub open spec fn drained(before: Seq<Frame>, after: Seq<Frame>) -> bool {
    &&& before.len() > 0
    &&& after.len() == before.len()
    &&& before[0] matches Frame::Document { last_end, seen_block, .. }
    &&& after[0] matches Frame::Document { blocks, last_end: e, seen_block: s }
    &&& blocks@.len() == 0 && e == last_end && s == seen_block
    &&& after.drop_first() == before.drop_first()
}

/// A builder fed the first `states.len() - 1` events of `events`, each accepted,
/// with the document's blocks taken after each: `states[i]` holds the open nodes
/// before event `i`, `pushed[i]` those after it, and `taken[i]` the blocks then
/// taken from the document.
pub open spec fn fed<'a>(
    source: Seq<u8>,
    events: Seq<(MarkdownEvent<'a>, usize, usize)>,
    states: Seq<Seq<Frame<'a>>>,
    pushed: Seq<Seq<Frame<'a>>>,
    taken: Seq<Seq<Block<'a>>>,
) -> bool {
    &&& 1 <= states.len() <= events.len() + 1
    &&& pushed.len() + 1 == states.len()
    &&& taken.len() + 1 == states.len()
    &&& initial_frames(states[0])
    &&& forall|i: int| 0 <= i < pushed.len() ==> #[trigger] fed_step(source, events, states, pushed, taken, i)
}

/// Event `i` of `events` was accepted on the open nodes `states[i]`, left
/// `pushed[i]`, and had the document's blocks `taken[i]` taken, leaving
/// `states[i + 1]`.
pub open spec fn fed_step<'a>(
    source: Seq<u8>,
    events: Seq<(MarkdownEvent<'a>, usize, usize)>,
    states: Seq<Seq<Frame<'a>>>,
    pushed: Seq<Seq<Frame<'a>>>,
    taken: Seq<Seq<Block<'a>>>,
    i: int,
) -> bool {
    &&& event_accepted(states[i], events[i].0)
    &&& event_effect(states[i], pushed[i], events[i].0, source, events[i].1, events[i].2)
    &&& drained(pushed[i], states[i + 1])
    &&& taken[i] == document_blocks(pushed[i])
}

/// Blocks taken in turns, in order.
pub open spec fn concat_blocks<'a>(taken: Seq<Seq<Block<'a>>>) -> Seq<Block<'a>>
    decreases taken.len(),
{
    if taken.len() == 0 {
        Seq::empty()
    } else {
        concat_blocks(taken.drop_last()) + taken.last()
    }
}

/// Blocks as successful results.
pub open spec fn successes<'a>(blocks: Seq<Block<'a>>) -> Seq<Result<Block<'a>, ParseError>> {
    blocks.map_values(|block: Block<'a>| Ok::<Block<'a>, ParseError>(block))
}

/// What assembling `events` yields once a builder was fed as `states` and `taken`
/// record: the blocks taken, then either the error of the first event refused, or,
/// when every event was accepted, the document's last blocks if only the document
/// is open, or else an error.
pub open spec fn assembled<'a>(
    events: Seq<(MarkdownEvent<'a>, usize, usize)>,
    states: Seq<Seq<Frame<'a>>>,
    taken: Seq<Seq<Block<'a>>>,
    output: Seq<Result<Block<'a>, ParseError>>,
) -> bool {
    let fed_count = states.len() - 1;
    if fed_count < events.len() {
        &&& !event_accepted(states.last(), events[fed_count].0)
        &&& output.len() > 0
        &&& output.drop_last() == successes(concat_blocks(taken))
        &&& output.last() is Err
    } else if only_document(states.last()) {
        output == successes(concat_blocks(taken) + document_blocks(states.last()))
    } else {
        &&& output.len() > 0
        &&& output.drop_last() == successes(concat_blocks(taken))
        &&& output.last() is Err
    }
}

/// An accepted event keeps the document as the outermost open node.
proof fn lemma_event_keeps_document<'a>(
    before: Seq<Frame<'a>>,
    after: Seq<Frame<'a>>,
    event: MarkdownEvent<'a>,
    source: Seq<u8>,
    start: usize,
    end: usize,
)
    requires
        before.len() > 0,
        before[0] is Document,
        event_accepted(before, event),
        event_effect(before, after, event, source, start, end),
    ensures
        after.len() > 0,
        after[0] is Document,
{
    if before.len() >= 2 {
        match event {
            MarkdownEvent::Start(_) => {
                if !ignoring(before) && event->Start_0 is TableHead {
                    let i = choose|i: int| #[trigger] innermost_table(before, i) && after == before.update(i, with_header(before[i], true));
                    assert(after[0] == before[0]);
                } else {
                    assert(after[0] == after.drop_last()[0]);
                }
            },
            MarkdownEvent::End(tag) => {
                if ignoring(before) {
                    assert(after[0] == before.drop_last()[0]);
                } else if tag is TableHead {
                    let i = choose|i: int| #[trigger] innermost_table(before, i) && after == before.update(i, with_header(before[i], false));
                    assert(after[0] == before[0]);
                } else if before.len() >= 3 {
                    assert(after[0] == after.drop_last()[0]);
                    assert(before.drop_last().drop_last()[0] == before[0]);
                } else {
                    assert(after[0] == after.last());
                }
            },
            MarkdownEvent::TaskListMarker(checked) => {
                let i = choose|i: int| #[trigger] innermost_item(before, i) && after == before.update(i, with_task(before[i], checked));
                assert(after[0] == before[0]);
            },
            _ => {
                assert(after[0] == after.drop_last()[0]);
                assert(before[0] == before.drop_last()[0]);
            },
        }
    } else {
        match event {
            MarkdownEvent::Start(_) => {
                if event->Start_0 is TableHead {
                    let i = choose|i: int| #[trigger] innermost_table(before, i) && after == before.update(i, with_header(before[i], true));
                    assert(false);
                } else {
                    assert(after[0] == after.drop_last()[0]);
                }
            },
            MarkdownEvent::End(tag) => {
                if tag is TableHead {
                    let i = choose|i: int| #[trigger] innermost_table(before, i) && after == before.update(i, with_header(before[i], false));
                    assert(false);
                }
            },
            MarkdownEvent::TaskListMarker(checked) => {
                let i = choose|i: int| #[trigger] innermost_item(before, i) && after == before.update(i, with_task(before[i], checked));
                assert(false);
            },
            _ => {
                assert(after[0] == after.last());
            },
        }
    }
}

/// Assembles an event stream read from `input` into top-level blocks, in order:
/// the blocks the document completes as the events are fed, then, at the first
/// event refused, an error; when every event is accepted, the document's last
/// blocks if only the document is still open, else an error.
pub fn blocks_from_events<'a>(input: &'a str, events: Vec<(MarkdownEvent<'a>, usize, usize)>) -> (r: Vec<
    Result<Block<'a>, ParseError>,
>)
    ensures
        exists|states: Seq<Seq<Frame<'a>>>, pushed: Seq<Seq<Frame<'a>>>, taken: Seq<Seq<Block<'a>>>|
            #[trigger] fed(input.spec_bytes(), events@, states, pushed, taken) && assembled(
                events@,
                states,
                taken,
                r@,
            ),
{
    let ghost source = input.spec_bytes();
    let ghost all = events@;
    let mut forward = events;
    let mut pending: Vec<(MarkdownEvent<'a>, usize, usize)> = Vec::new();
    while forward.len() > 0
        invariant
            forward@.len() + pending@.len() == all.len(),
            forall|j: int| 0 <= j < forward@.len() ==> forward@[j] == all[j],
            forall|j: int| 0 <= j < pending@.len() ==> #[trigger] pending@[j] == all[all.len() - 1 - j],
        decreases forward@.len(),
    {
        match forward.pop() {
            Some(item) => pending.push(item),
            None => {},
        }
    }
    let mut builder = AstBuilder::new(input);
    let mut output: Vec<Result<Block<'a>, ParseError>> = Vec::new();
    let ghost mut states: Seq<Seq<Frame<'a>>> = seq![builder.open_nodes()];
    let ghost mut pushed: Seq<Seq<Frame<'a>>> = Seq::empty();
    let ghost mut taken: Seq<Seq<Block<'a>>> = Seq::empty();
    assert(concat_blocks(taken) =~= Seq::<Block<'a>>::empty());
    assert(output@ =~= successes(concat_blocks(taken)));
    while pending.len() > 0
        invariant
            pending@.len() <= all.len(),
            forall|j: int| 0 <= j < pending@.len() ==> #[trigger] pending@[j] == all[all.len() - 1 - j],
            states.len() == all.len() - pending@.len() + 1,
            fed(source, all, states, pushed, taken),
            source == input.spec_bytes(),
            all == events@,
            builder.open_nodes() == states.last(),
            builder.source_bytes() == source,
            builder.open_nodes().len() > 0,
            builder.open_nodes()[0] is Document,
            output@ == successes(concat_blocks(taken)),
        decreases pending@.len(),
    {
        let ghost index = states.len() - 1;
        let (event, start, end) = pending.pop().unwrap();
        assert((event, start, end) == all[index]);
        let ghost before = builder.open_nodes();
        let ghost fed_event = event;
        match builder.push_event(event, start, end) {
            Ok(()) => {},
            Err(error) => {
                output.push(Err(error));
                assert(output@.drop_last() =~= successes(concat_blocks(taken)));
                assert(fed(source, all, states, pushed, taken));
                assert(assembled(all, states, taken, output@));
                return output;
            },
        }
        let ghost after = builder.open_nodes();
        proof {
            lemma_event_keeps_document(before, after, fed_event, source, start, end);
        }
        match builder.drain_document_blocks() {
            Ok(mut drained_blocks) => {
                let ghost blocks_now = drained_blocks@;
                drain_into(&mut output, &mut drained_blocks);
                proof {
                    let next = builder.open_nodes();
                    assert(drained(after, next));
                    assert(blocks_now == document_blocks(after));
                    let old_taken = taken;
                    let old_pushed = pushed;
                    taken = taken.push(blocks_now);
                    pushed = pushed.push(after);
                    let old_states = states;
                    states = states.push(next);
                    assert(states[0] == old_states[0]);
                    assert(taken.drop_last() =~= old_taken);
                    assert(concat_blocks(taken) == concat_blocks(old_taken) + blocks_now);
                    assert(output@ =~= successes(concat_blocks(taken)));
                    assert forall|i: int| 0 <= i < pushed.len() implies #[trigger] fed_step(
                        source,
                        all,
                        states,
                        pushed,
                        taken,
                        i,
                    ) by {
                        if i < pushed.len() - 1 {
                            assert(states[i] == old_states[i]);
                            assert(states[i + 1] == old_states[i + 1]);
                            assert(pushed[i] == old_pushed[i]);
                            assert(taken[i] == old_taken[i]);
                            assert(fed_step(source, all, old_states, old_pushed, old_taken, i));
                        } else {
                            assert(states[i] == before);
                            assert(pushed[i] == after);
                            assert(states[i + 1] == next);
                            assert(all[i].0 == fed_event);
                            assert(all[i].1 == start);
                            assert(all[i].2 == end);
                        }
                    }
                    assert(1 <= states.len() <= all.len() + 1);
                    assert(pushed.len() + 1 == states.len());
                    assert(taken.len() + 1 == states.len());
                    assert(initial_frames(states[0]));
                    assert(fed(source, all, states, pushed, taken));
                }
            },
            Err(error) => {
                output.push(Err(error));
                return output;
            },
        }
    }
    assert(states.len() - 1 == all.len());
    match builder.finish() {
        Ok(mut rest) => {
            let ghost rest_blocks = rest@;
            drain_into(&mut output, &mut rest);
            assert(output@ =~= successes(concat_blocks(taken) + rest_blocks));
        },
        Err(error) => {
            output.push(Err(error));
            assert(output@.drop_last() =~= successes(concat_blocks(taken)));
        },
    }
    assert(fed(source, all, states, pushed, taken));
    assert(assembled(all, states, taken, output@));
    output
}

/// Whether `items` is what assembling the event stream that pulldown-cmark reads
/// from `input` yields: the stream is the one `spec_markdown_events` names for the
/// previewer's extensions, up to how each text is stored.
pub open spec fn parses_to<'a>(input: &str, items: Seq<Result<Block<'a>, ParseError>>) -> bool {
    exists|
        events: Seq<(MarkdownEvent<'a>, usize, usize)>,
        states: Seq<Seq<Frame<'a>>>,
        pushed: Seq<Seq<Frame<'a>>>,
        taken: Seq<Seq<Block<'a>>>,
    |
        #[trigger] fed(input.spec_bytes(), events, states, pushed, taken) && events_view(events)
            == spec_markdown_events(input@, spec_parser_options()) && assembled(events, states, taken, items)
}

/// Parses `input` into top-level blocks, in order: the assembly of the event stream
/// pulldown-cmark reads from it, so each block the document completes, then, when
/// the stream is inconsistent, the error, after which nothing follows.
pub fn blocks<'a>(input: &'a str) -> (r: Vec<Result<Block<'a>, ParseError>>)
    ensures
        parses_to(input, r@),
        forall|i: int| 0 <= i < r@.len() - 1 ==> #[trigger] r@[i] is Ok,
{
    let events = markdown_events(input, parser_options());
    let ghost event_list = events@;
    let output = blocks_from_events(input, events);
    proof {
        let (states, pushed, taken) = choose|states: Seq<Seq<Frame<'a>>>, pushed: Seq<Seq<Frame<'a>>>, taken: Seq<Seq<Block<'a>>>|
            #[trigger] fed(input.spec_bytes(), event_list, states, pushed, taken) && assembled(event_list, states, taken, output@);
        assert(fed(input.spec_bytes(), event_list, states, pushed, taken));
        assert forall|i: int| 0 <= i < output@.len() - 1 implies #[trigger] output@[i] is Ok by {
            let done = concat_blocks(taken);
            assert(assembled(event_list, states, taken, output@));
            if states.len() - 1 >= event_list.len() && only_document(states.last()) {
                let all_blocks = done + document_blocks(states.last());
                assert(output@ == successes(all_blocks));
                assert(output@[i] == successes(all_blocks)[i]);
                assert(successes(all_blocks)[i] == Ok::<Block<'a>, ParseError>(all_blocks[i]));
            } else {
                assert(output@.drop_last() == successes(done));
                assert(output@[i] == output@.drop_last()[i]);
                assert(output@.drop_last()[i] == successes(done)[i]);
                assert(successes(done)[i] == Ok::<Block<'a>, ParseError>(done[i]));
            }
        }
    }
    output
}

/// Moves blocks, in order, to the end of `output` as successes.
fn drain_into<'a>(output: &mut Vec<Result<Block<'a>, ParseError>>, blocks: &mut Vec<Block<'a>>)
    ensures
        final(output)@.len() == old(output)@.len() + old(blocks)@.len(),
        forall|i: int| 0 <= i < old(output)@.len() ==> final(output)@[i] == old(output)@[i],
        forall|i: int| 0 <= i < old(blocks)@.len() ==> final(output)@[old(output)@.len() + i] == Ok::<
            Block<'a>,
            ParseError,
        >(old(blocks)@[i]),
        forall|i: int| old(output)@.len() <= i < final(output)@.len() ==> #[trigger] final(output)@[i] is Ok,
{
    let ghost given = old(blocks)@;
    let mut reversed: Vec<Block<'a>> = Vec::new();
    while blocks.len() > 0
        invariant
            blocks@.len() + reversed@.len() == given.len(),
            forall|i: int| 0 <= i < blocks@.len() ==> blocks@[i] == given[i],
            forall|i: int| 0 <= i < reversed@.len() ==> reversed@[i] == given[given.len() - 1 - i],
        decreases blocks@.len(),
    {
        match blocks.pop() {
            Some(block) => reversed.push(block),
            None => {},
        }
    }
    let ghost start = output@;
    while reversed.len() > 0
        invariant
            reversed@.len() <= given.len(),
            forall|i: int| 0 <= i < reversed@.len() ==> reversed@[i] == given[given.len() - 1 - i],
            output@.len() == start.len() + (given.len() - reversed@.len()),
            forall|i: int| 0 <= i < start.len() ==> output@[i] == start[i],
            forall|i: int| start.len() <= i < output@.len() ==> #[trigger] output@[i] is Ok,
            forall|i: int| 0 <= i < given.len() - reversed@.len() ==> output@[start.len() + i] == Ok::<
                Block<'a>,
                ParseError,
            >(given[i]),
        decreases reversed@.len(),
    {
        match reversed.pop() {
            Some(block) => output.push(Ok(block)),
            None => {},
        }
    }
}

/// Whether a list of blocks holds a blank line.
fn contains_blank_line(blocks: &Vec<Block>) -> (r: bool)
    ensures
        r <==> exists|i: int| 0 <= i < blocks@.len() && #[trigger] blocks@[i] is BlankLine,
{
    let mut index: usize = 0;
    while index < blocks.len()
        invariant
            index <= blocks@.len(),
            forall|i: int| 0 <= i < index ==> !(#[trigger] blocks@[i] is BlankLine),
        decreases blocks@.len() - index,
    {
        if matches!(blocks[index], Block::BlankLine) {
            return true;
        }
        index += 1;
    }
    false
}

} // verus!
