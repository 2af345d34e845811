//! The Markdown event stream, read from pulldown-cmark and held as values of the
//! library's own types.

use vstd::prelude::*;

use std::ops::Deref;

use pulldown_cmark::{CowStr, Event, InlineStr, Options, Parser, Tag, TagEnd};
use pulldown_cmark::Alignment as MarkdownAlignment;
use pulldown_cmark::BlockQuoteKind as MarkdownBlockQuoteKind;
use pulldown_cmark::HeadingLevel as MarkdownHeadingLevel;

use crate::ast::{Alignment, BlockQuoteKind, HeadingLevel};
use crate::text::Text;

verus! {

#[verifier::external_type_specification]
#[verifier::external_body]
pub struct ExMarkdownEvent<'a>(Event<'a>);

#[verifier::external_type_specification]
#[verifier::external_body]
pub struct ExMarkdownTag<'a>(Tag<'a>);

#[verifier::external_type_specification]
#[verifier::external_body]
pub struct ExMarkdownTagEnd(TagEnd);

#[verifier::external_type_specification]
#[verifier::external_body]
pub struct ExCowStr<'a>(pulldown_cmark::CowStr<'a>);

#[verifier::external_type_specification]
#[verifier::external_body]
pub struct ExInlineStr(InlineStr);

#[verifier::external_type_specification]
#[verifier::external_body]
pub struct ExMarkdownOptions(Options);

#[verifier::external_type_specification]
#[verifier::external_body]
pub struct ExMarkdownHeadingLevel(MarkdownHeadingLevel);

#[verifier::external_type_specification]
#[verifier::external_body]
pub struct ExMarkdownAlignment(MarkdownAlignment);

#[verifier::external_type_specification]
#[verifier::external_body]
pub struct ExMarkdownBlockQuoteKind(MarkdownBlockQuoteKind);

#[verifier::external_type_specification]
#[verifier::external_body]
pub struct ExMarkdownLinkType(pulldown_cmark::LinkType);

#[verifier::external_type_specification]
#[verifier::external_body]
pub struct ExMarkdownCodeBlockKind<'a>(pulldown_cmark::CodeBlockKind<'a>);

/// How a link was written, as the event stream reports it.
#[derive(Debug, Clone, Copy, PartialEq, Eq, Structural)]
pub enum MdLinkType {
    /// `[text](url)`.
    Inline,
    /// `[text][label]`.
    Reference,
    /// `[text][label]` with an unknown label resolved by a callback.
    ReferenceUnknown,
    /// `[label][]`.
    Collapsed,
    /// `[label][]` with an unknown label.
    CollapsedUnknown,
    /// `[label]`.
    Shortcut,
    /// `[label]` with an unknown label.
    ShortcutUnknown,
    /// `<https://example.com>`.
    Autolink,
    /// `<user@example.com>`.
    Email,
    /// `[[page]]`.
    WikiLink,
}

/// How a code block was written.
pub(crate) enum MdCodeBlockKind<'a> {
    /// Indented by four spaces.
    Indented,
    /// Fenced, with its info string (possibly empty).
    Fenced(CowStr<'a>),
}

/// The start of a block-level node, as the event stream reports it; the starts
/// of span-level nodes are passed on whole.
pub(crate) enum MdTag<'a> {
    /// A paragraph.
    Paragraph,
    /// A heading.
    Heading(MarkdownHeadingLevel),
    /// A block quote, with its alert kind.
    BlockQuote(Option<MarkdownBlockQuoteKind>),
    /// A code block.
    CodeBlock(pulldown_cmark::CodeBlockKind<'a>),
    /// A raw HTML block.
    HtmlBlock,
    /// A list, with the number of its first item when ordered.
    List(Option<u64>),
    /// A list item.
    Item,
    /// A table, with its column alignments.
    Table(Vec<MarkdownAlignment>),
    /// The header row of a table.
    TableHead,
    /// A table row.
    TableRow,
    /// A table cell.
    TableCell,
    /// The start of a span-level node.
    Span(Tag<'a>),
}

/// The start of a span-level node, as the event stream reports it.
pub(crate) enum MdSpanTag<'a> {
    /// Emphasis.
    Emphasis,
    /// Strong emphasis.
    Strong,
    /// Strikethrough.
    Strikethrough,
    /// Superscript.
    Superscript,
    /// Subscript.
    Subscript,
    /// A link: how it was written, its destination and its title.
    Link(pulldown_cmark::LinkType, CowStr<'a>, CowStr<'a>),
    /// An image: its destination and its title.
    Image(CowStr<'a>, CowStr<'a>),
    /// A footnote definition.
    FootnoteDefinition,
    /// A definition list.
    DefinitionList,
    /// The title of a definition list entry.
    DefinitionListTitle,
    /// The definition of a definition list entry.
    DefinitionListDefinition,
    /// A metadata block.
    MetadataBlock,
    /// The start of a block-level node, which `convert_tag` tells apart.
    Block,
}

/// The end of a block-level node; the ends of table parts and span-level nodes
/// are passed on whole.
pub(crate) enum MdTagEnd {
    /// A paragraph.
    Paragraph,
    /// A heading.
    Heading,
    /// A block quote.
    BlockQuote,
    /// A code block.
    CodeBlock,
    /// A raw HTML block.
    HtmlBlock,
    /// A list.
    List,
    /// A list item.
    Item,
    /// A table.
    Table,
    /// The header row of a table.
    TableHead,
    /// A table row.
    TableRow,
    /// A table cell.
    TableCell,
    /// The end of a span-level node or of a node told apart by
    /// `convert_span_tag_end`.
    Span(TagEnd),
}

/// The end of a span-level node or of another node the previewer does not show.
#[derive(Debug, Clone, Copy, PartialEq, Eq, Structural)]
pub(crate) enum MdSpanTagEnd {
    /// Emphasis.
    Emphasis,
    /// Strong emphasis.
    Strong,
    /// Strikethrough.
    Strikethrough,
    /// Superscript.
    Superscript,
    /// Subscript.
    Subscript,
    /// A link.
    Link,
    /// An image.
    Image,
    /// A footnote definition.
    FootnoteDefinition,
    /// A definition list.
    DefinitionList,
    /// The title of a definition list entry.
    DefinitionListTitle,
    /// The definition of a definition list entry.
    DefinitionListDefinition,
    /// A metadata block.
    MetadataBlock,
    /// The end of a block-level node, which `convert_tag_end` tells apart.
    Block,
}

/// One event of the Markdown event stream, its payload as the parser gave it.
pub(crate) enum MdEvent<'a> {
    /// A node starts.
    Start(Tag<'a>),
    /// A node ends.
    End(TagEnd),
    /// Text.
    Text(CowStr<'a>),
    /// An inline code span.
    Code(CowStr<'a>),
    /// Inline math.
    InlineMath(CowStr<'a>),
    /// Display math.
    DisplayMath(CowStr<'a>),
    /// Raw HTML of an HTML block.
    Html(CowStr<'a>),
    /// Inline raw HTML.
    InlineHtml(CowStr<'a>),
    /// A footnote reference.
    FootnoteReference(CowStr<'a>),
    /// A soft line break.
    SoftBreak,
    /// A hard line break.
    HardBreak,
    /// A thematic break.
    Rule,
    /// A task-list checkbox, checked or not.
    TaskListMarker(bool),
}

/// How a code block was written, with a fenced block's info string.
pub enum CodeFence<'a> {
    /// Indented by four spaces.
    Indented,
    /// Fenced, with its info string (possibly empty).
    Fenced(Text<'a>),
}

/// The start of a node.
pub enum NodeStart<'a> {
    /// A paragraph.
    Paragraph,
    /// A heading of the given level.
    Heading(HeadingLevel),
    /// A block quote, with its alert kind.
    BlockQuote(Option<BlockQuoteKind>),
    /// A code block.
    CodeBlock(CodeFence<'a>),
    /// A raw HTML block.
    HtmlBlock,
    /// A list, with the number of its first item when ordered.
    List(Option<u64>),
    /// A list item.
    Item,
    /// A table, with its column alignments.
    Table(Vec<Alignment>),
    /// The header row of a table.
    TableHead,
    /// A table row.
    TableRow,
    /// A table cell.
    TableCell,
    /// Emphasis.
    Emphasis,
    /// Strong emphasis.
    Strong,
    /// Strikethrough.
    Strikethrough,
    /// A link: how it was written, its destination and its title (possibly empty).
    Link { link_type: MdLinkType, destination: Text<'a>, title: Text<'a> },
    /// An image: its destination and its title (possibly empty).
    Image { destination: Text<'a>, title: Text<'a> },
    /// A node the previewer does not show (footnote definitions, definition lists,
    /// superscript, subscript, metadata blocks).
    Ignored,
}

/// The end of a node.
#[derive(Debug, Clone, Copy, PartialEq, Eq, Structural)]
pub enum NodeEnd {
    /// A paragraph.
    Paragraph,
    /// A heading.
    Heading,
    /// A block quote.
    BlockQuote,
    /// A code block.
    CodeBlock,
    /// A raw HTML block.
    HtmlBlock,
    /// A list.
    List,
    /// A list item.
    Item,
    /// A table.
    Table,
    /// The header row of a table.
    TableHead,
    /// A table row.
    TableRow,
    /// A table cell.
    TableCell,
    /// Emphasis.
    Emphasis,
    /// Strong emphasis.
    Strong,
    /// Strikethrough.
    Strikethrough,
    /// A link.
    Link,
    /// An image.
    Image,
    /// A node the previewer does not show.
    Ignored,
}

/// One event of the Markdown event stream.
pub enum MarkdownEvent<'a> {
    /// A node starts.
    Start(NodeStart<'a>),
    /// A node ends.
    End(NodeEnd),
    /// Text.
    Text(Text<'a>),
    /// An inline code span.
    Code(Text<'a>),
    /// Inline math.
    InlineMath(Text<'a>),
    /// Display math.
    DisplayMath(Text<'a>),
    /// Raw HTML of an HTML block.
    Html(Text<'a>),
    /// Inline raw HTML.
    InlineHtml(Text<'a>),
    /// A footnote reference.
    FootnoteReference(Text<'a>),
    /// A soft line break.
    SoftBreak,
    /// A hard line break.
    HardBreak,
    /// A thematic break.
    Rule,
    /// A task-list checkbox, checked or not.
    TaskListMarker(bool),
}

/// Reads the start of a node from the parser's tag.
pub(crate) fn read_start<'a>(tag: Tag<'a>) -> NodeStart<'a> {
    match convert_tag(tag) {
        MdTag::Paragraph => NodeStart::Paragraph,
        MdTag::Heading(level) => NodeStart::Heading(heading_level(level)),
        MdTag::BlockQuote(kind) => NodeStart::BlockQuote(
            match kind {
                Some(kind) => Some(quote_kind(kind)),
                None => None,
            },
        ),
        MdTag::CodeBlock(kind) => NodeStart::CodeBlock(
            match code_block_kind(kind) {
                MdCodeBlockKind::Indented => CodeFence::Indented,
                MdCodeBlockKind::Fenced(info) => CodeFence::Fenced(cow_text(info)),
            },
        ),
        MdTag::HtmlBlock => NodeStart::HtmlBlock,
        MdTag::List(first) => NodeStart::List(first),
        MdTag::Item => NodeStart::Item,
        MdTag::Table(columns) => NodeStart::Table(alignments(columns)),
        MdTag::TableHead => NodeStart::TableHead,
        MdTag::TableRow => NodeStart::TableRow,
        MdTag::TableCell => NodeStart::TableCell,
        MdTag::Span(tag) => match convert_span_tag(tag) {
            MdSpanTag::Emphasis => NodeStart::Emphasis,
            MdSpanTag::Strong => NodeStart::Strong,
            MdSpanTag::Strikethrough => NodeStart::Strikethrough,
            MdSpanTag::Link(kind, destination, title) => NodeStart::Link {
                link_type: link_type(kind),
                destination: cow_text(destination),
                title: cow_text(title),
            },
            MdSpanTag::Image(destination, title) => NodeStart::Image {
                destination: cow_text(destination),
                title: cow_text(title),
            },
            MdSpanTag::Superscript | MdSpanTag::Subscript | MdSpanTag::FootnoteDefinition
            | MdSpanTag::DefinitionList | MdSpanTag::DefinitionListTitle | MdSpanTag::DefinitionListDefinition
            | MdSpanTag::MetadataBlock | MdSpanTag::Block => NodeStart::Ignored,
        },
    }
}

/// Reads the end of a node from the parser's end tag.
pub(crate) fn read_end(tag: TagEnd) -> NodeEnd {
    match convert_tag_end(tag) {
        MdTagEnd::Paragraph => NodeEnd::Paragraph,
        MdTagEnd::Heading => NodeEnd::Heading,
        MdTagEnd::BlockQuote => NodeEnd::BlockQuote,
        MdTagEnd::CodeBlock => NodeEnd::CodeBlock,
        MdTagEnd::HtmlBlock => NodeEnd::HtmlBlock,
        MdTagEnd::List => NodeEnd::List,
        MdTagEnd::Item => NodeEnd::Item,
        MdTagEnd::Table => NodeEnd::Table,
        MdTagEnd::TableHead => NodeEnd::TableHead,
        MdTagEnd::TableRow => NodeEnd::TableRow,
        MdTagEnd::TableCell => NodeEnd::TableCell,
        MdTagEnd::Span(tag) => match convert_span_tag_end(tag) {
            MdSpanTagEnd::Emphasis => NodeEnd::Emphasis,
            MdSpanTagEnd::Strong => NodeEnd::Strong,
            MdSpanTagEnd::Strikethrough => NodeEnd::Strikethrough,
            MdSpanTagEnd::Link => NodeEnd::Link,
            MdSpanTagEnd::Image => NodeEnd::Image,
            MdSpanTagEnd::Superscript | MdSpanTagEnd::Subscript | MdSpanTagEnd::FootnoteDefinition
            | MdSpanTagEnd::DefinitionList | MdSpanTagEnd::DefinitionListTitle
            | MdSpanTagEnd::DefinitionListDefinition | MdSpanTagEnd::MetadataBlock
            | MdSpanTagEnd::Block => NodeEnd::Ignored,
        },
    }
}

/// Reads one event of the parser's stream.
pub(crate) fn read_event<'a>(event: Event<'a>) -> MarkdownEvent<'a> {
    match convert_event(event) {
        MdEvent::Start(tag) => MarkdownEvent::Start(read_start(tag)),
        MdEvent::End(tag) => MarkdownEvent::End(read_end(tag)),
        MdEvent::Text(text) => MarkdownEvent::Text(cow_text(text)),
        MdEvent::Code(text) => MarkdownEvent::Code(cow_text(text)),
        MdEvent::InlineMath(text) => MarkdownEvent::InlineMath(cow_text(text)),
        MdEvent::DisplayMath(text) => MarkdownEvent::DisplayMath(cow_text(text)),
        MdEvent::Html(text) => MarkdownEvent::Html(cow_text(text)),
        MdEvent::InlineHtml(text) => MarkdownEvent::InlineHtml(cow_text(text)),
        MdEvent::FootnoteReference(text) => MarkdownEvent::FootnoteReference(cow_text(text)),
        MdEvent::SoftBreak => MarkdownEvent::SoftBreak,
        MdEvent::HardBreak => MarkdownEvent::HardBreak,
        MdEvent::Rule => MarkdownEvent::Rule,
        MdEvent::TaskListMarker(checked) => MarkdownEvent::TaskListMarker(checked),
    }
}

/// pulldown-cmark's string, by how it is stored.
pub(crate) enum MdStr<'a> {
    /// Borrowed from the source.
    Borrowed(&'a str),
    /// Owned on the heap.
    Boxed(String),
    /// Stored inline.
    Inlined(InlineStr),
}

/// Tells pulldown-cmark's string kinds apart, moving their payloads (a boxed string
/// becomes a `String` without copying); nothing is claimed of the result.
#[verifier::external_body]
pub(crate) fn cow_str<'a>(text: CowStr<'a>) -> MdStr<'a> {
    match text {
        CowStr::Borrowed(text) => MdStr::Borrowed(text),
        CowStr::Boxed(text) => MdStr::Boxed(String::from(text)),
        CowStr::Inlined(text) => MdStr::Inlined(text),
    }
}

/// The string slice an inline string holds (`InlineStr::deref`); nothing is
/// claimed of the result.
#[verifier::external_body]
pub(crate) fn inline_str(text: &InlineStr) -> &str {
    text.deref()
}

/// Converts pulldown-cmark's string to a text of the same storage kind: borrowed
/// text stays borrowed, boxed text is owned, and inline text is stored inline.
pub(crate) fn cow_text<'a>(text: CowStr<'a>) -> Text<'a> {
    match cow_str(text) {
        MdStr::Borrowed(text) => Text::borrowed(text),
        MdStr::Boxed(text) => Text::owned(text),
        MdStr::Inlined(text) => Text::inline(inline_str(&text)),
    }
}

/// Converts pulldown-cmark's heading level to the one with the same depth; nothing
/// is claimed of the result.
#[verifier::external_body]
pub(crate) fn heading_level(level: MarkdownHeadingLevel) -> HeadingLevel {
    match level {
        MarkdownHeadingLevel::H1 => HeadingLevel::H1,
        MarkdownHeadingLevel::H2 => HeadingLevel::H2,
        MarkdownHeadingLevel::H3 => HeadingLevel::H3,
        MarkdownHeadingLevel::H4 => HeadingLevel::H4,
        MarkdownHeadingLevel::H5 => HeadingLevel::H5,
        MarkdownHeadingLevel::H6 => HeadingLevel::H6,
    }
}

/// Converts pulldown-cmark's column alignment to the same alignment; nothing is
/// claimed of the result.
#[verifier::external_body]
pub(crate) fn alignment(column: MarkdownAlignment) -> Alignment {
    match column {
        MarkdownAlignment::None => Alignment::Unspecified,
        MarkdownAlignment::Left => Alignment::Left,
        MarkdownAlignment::Center => Alignment::Center,
        MarkdownAlignment::Right => Alignment::Right,
    }
}

/// Converts pulldown-cmark's column alignments, one for one and in order: the
/// alignment at each position is what `alignment` converts the column at that
/// position to, with nothing added, dropped, moved or changed afterwards.
pub(crate) fn alignments(columns: Vec<MarkdownAlignment>) -> (r: Vec<Alignment>)
    ensures
        r@.len() == columns@.len(),
        forall|i: int| 0 <= i < columns@.len() ==> call_ensures(alignment, (columns@[i],), #[trigger] r@[i]),
{
    let ghost given = columns@;
    let convert = alignment;
    let mut rest = columns;
    let mut reversed: Vec<MarkdownAlignment> = Vec::new();
    while rest.len() > 0
        invariant
            rest@.len() + reversed@.len() == given.len(),
            forall|i: int| 0 <= i < rest@.len() ==> rest@[i] == given[i],
            forall|i: int| 0 <= i < reversed@.len() ==> #[trigger] reversed@[i] == given[given.len() - 1 - i],
        decreases rest@.len(),
    {
        let column = rest.pop().unwrap();
        reversed.push(column);
    }
    let mut result: Vec<Alignment> = Vec::new();
    while reversed.len() > 0
        invariant
            reversed@.len() + result@.len() == given.len(),
            forall|i: int| 0 <= i < reversed@.len() ==> #[trigger] reversed@[i] == given[given.len() - 1 - i],
            forall|i: int| 0 <= i < result@.len() ==> call_ensures(alignment, (given[i],), #[trigger] result@[i]),
        decreases reversed@.len(),
    {
        let column = reversed.pop().unwrap();
        let converted = convert(column);
        result.push(converted);
    }
    result
}

/// Converts pulldown-cmark's alert kind to the same kind; nothing is claimed of
/// the result.
#[verifier::external_body]
pub(crate) fn quote_kind(kind: MarkdownBlockQuoteKind) -> BlockQuoteKind {
    match kind {
        MarkdownBlockQuoteKind::Note => BlockQuoteKind::Note,
        MarkdownBlockQuoteKind::Tip => BlockQuoteKind::Tip,
        MarkdownBlockQuoteKind::Important => BlockQuoteKind::Important,
        MarkdownBlockQuoteKind::Warning => BlockQuoteKind::Warning,
        MarkdownBlockQuoteKind::Caution => BlockQuoteKind::Caution,
    }
}

/// Converts pulldown-cmark's link type to the same link type; nothing is claimed of
/// the result.
#[verifier::external_body]
pub(crate) fn link_type(kind: pulldown_cmark::LinkType) -> MdLinkType {
    match kind {
        pulldown_cmark::LinkType::Inline => MdLinkType::Inline,
        pulldown_cmark::LinkType::Reference => MdLinkType::Reference,
        pulldown_cmark::LinkType::ReferenceUnknown => MdLinkType::ReferenceUnknown,
        pulldown_cmark::LinkType::Collapsed => MdLinkType::Collapsed,
        pulldown_cmark::LinkType::CollapsedUnknown => MdLinkType::CollapsedUnknown,
        pulldown_cmark::LinkType::Shortcut => MdLinkType::Shortcut,
        pulldown_cmark::LinkType::ShortcutUnknown => MdLinkType::ShortcutUnknown,
        pulldown_cmark::LinkType::Autolink => MdLinkType::Autolink,
        pulldown_cmark::LinkType::Email => MdLinkType::Email,
        pulldown_cmark::LinkType::WikiLink { .. } => MdLinkType::WikiLink,
    }
}

/// Tells pulldown-cmark's code block kinds apart, keeping a fenced block's info
/// string; nothing is claimed of the result.
#[verifier::external_body]
pub(crate) fn code_block_kind<'a>(kind: pulldown_cmark::CodeBlockKind<'a>) -> MdCodeBlockKind<'a> {
    match kind {
        pulldown_cmark::CodeBlockKind::Indented => MdCodeBlockKind::Indented,
        pulldown_cmark::CodeBlockKind::Fenced(info) => MdCodeBlockKind::Fenced(info),
    }
}

/// Tells the starts of block-level nodes apart, moving their payloads; any other
/// start is passed on whole. Nothing is claimed of the result.
#[verifier::external_body]
pub(crate) fn convert_tag<'a>(tag: Tag<'a>) -> MdTag<'a> {
    match tag {
        Tag::Paragraph => MdTag::Paragraph,
        Tag::Heading { level, .. } => MdTag::Heading(level),
        Tag::BlockQuote(kind) => MdTag::BlockQuote(kind),
        Tag::CodeBlock(kind) => MdTag::CodeBlock(kind),
        Tag::HtmlBlock => MdTag::HtmlBlock,
        Tag::List(start) => MdTag::List(start),
        Tag::Item => MdTag::Item,
        Tag::Table(columns) => MdTag::Table(columns),
        Tag::TableHead => MdTag::TableHead,
        Tag::TableRow => MdTag::TableRow,
        Tag::TableCell => MdTag::TableCell,
        other => MdTag::Span(other),
    }
}

/// Tells the starts of span-level nodes and of the nodes the previewer does not
/// show apart, moving the payloads it keeps; the starts of block-level nodes
/// become `Block`. Nothing is claimed of the result.
#[verifier::external_body]
pub(crate) fn convert_span_tag<'a>(tag: Tag<'a>) -> MdSpanTag<'a> {
    match tag {
        Tag::Emphasis => MdSpanTag::Emphasis,
        Tag::Strong => MdSpanTag::Strong,
        Tag::Strikethrough => MdSpanTag::Strikethrough,
        Tag::Superscript => MdSpanTag::Superscript,
        Tag::Subscript => MdSpanTag::Subscript,
        Tag::Link { link_type, dest_url, title, .. } => MdSpanTag::Link(link_type, dest_url, title),
        Tag::Image { dest_url, title, .. } => MdSpanTag::Image(dest_url, title),
        Tag::FootnoteDefinition(_) => MdSpanTag::FootnoteDefinition,
        Tag::DefinitionList => MdSpanTag::DefinitionList,
        Tag::DefinitionListTitle => MdSpanTag::DefinitionListTitle,
        Tag::DefinitionListDefinition => MdSpanTag::DefinitionListDefinition,
        Tag::MetadataBlock(_) => MdSpanTag::MetadataBlock,
        _ => MdSpanTag::Block,
    }
}

/// Tells the ends of block-level nodes and table parts apart; any other end is
/// passed on whole. Nothing is claimed of the result.
#[verifier::external_body]
pub(crate) fn convert_tag_end(tag: TagEnd) -> MdTagEnd {
    match tag {
        TagEnd::Paragraph => MdTagEnd::Paragraph,
        TagEnd::Heading(_) => MdTagEnd::Heading,
        TagEnd::BlockQuote(_) => MdTagEnd::BlockQuote,
        TagEnd::CodeBlock => MdTagEnd::CodeBlock,
        TagEnd::HtmlBlock => MdTagEnd::HtmlBlock,
        TagEnd::List(_) => MdTagEnd::List,
        TagEnd::Item => MdTagEnd::Item,
        TagEnd::Table => MdTagEnd::Table,
        TagEnd::TableHead => MdTagEnd::TableHead,
        TagEnd::TableRow => MdTagEnd::TableRow,
        TagEnd::TableCell => MdTagEnd::TableCell,
        other => MdTagEnd::Span(other),
    }
}

/// Tells the ends of span-level nodes and of the nodes the previewer does not show
/// apart; the ends of block-level nodes become `Block`. Nothing is claimed of the
/// result.
#[verifier::external_body]
pub(crate) fn convert_span_tag_end(tag: TagEnd) -> MdSpanTagEnd {
    match tag {
        TagEnd::Emphasis => MdSpanTagEnd::Emphasis,
        TagEnd::Strong => MdSpanTagEnd::Strong,
        TagEnd::Strikethrough => MdSpanTagEnd::Strikethrough,
        TagEnd::Superscript => MdSpanTagEnd::Superscript,
        TagEnd::Subscript => MdSpanTagEnd::Subscript,
        TagEnd::Link => MdSpanTagEnd::Link,
        TagEnd::Image => MdSpanTagEnd::Image,
        TagEnd::FootnoteDefinition => MdSpanTagEnd::FootnoteDefinition,
        TagEnd::DefinitionList => MdSpanTagEnd::DefinitionList,
        TagEnd::DefinitionListTitle => MdSpanTagEnd::DefinitionListTitle,
        TagEnd::DefinitionListDefinition => MdSpanTagEnd::DefinitionListDefinition,
        TagEnd::MetadataBlock(_) => MdSpanTagEnd::MetadataBlock,
        _ => MdSpanTagEnd::Block,
    }
}

/// Tells pulldown-cmark's events apart, moving their payloads; nothing is claimed
/// of the result.
#[verifier::external_body]
pub(crate) fn convert_event<'a>(event: Event<'a>) -> MdEvent<'a> {
    match event {
        Event::Start(tag) => MdEvent::Start(tag),
        Event::End(tag) => MdEvent::End(tag),
        Event::Text(text) => MdEvent::Text(text),
        Event::Code(text) => MdEvent::Code(text),
        Event::InlineMath(text) => MdEvent::InlineMath(text),
        Event::DisplayMath(text) => MdEvent::DisplayMath(text),
        Event::Html(text) => MdEvent::Html(text),
        Event::InlineHtml(text) => MdEvent::InlineHtml(text),
        Event::FootnoteReference(text) => MdEvent::FootnoteReference(text),
        Event::SoftBreak => MdEvent::SoftBreak,
        Event::HardBreak => MdEvent::HardBreak,
        Event::Rule => MdEvent::Rule,
        Event::TaskListMarker(checked) => MdEvent::TaskListMarker(checked),
    }
}

/// Which of pulldown-cmark's extensions a parse enables.
#[derive(Debug, Clone, Copy, PartialEq, Eq, Structural)]
pub struct ParserOptions {
    /// `~~strikethrough~~`.
    pub strikethrough: bool,
    /// Pipe tables.
    pub tables: bool,
    /// Task-list checkboxes.
    pub tasklists: bool,
    /// GitHub-flavoured extras (alerts in block quotes).
    pub gfm: bool,
}

/// The extensions the previewer enables: strikethrough, tables, task lists and
/// GFM alerts.
pub open spec fn spec_parser_options() -> ParserOptions {
    ParserOptions { strikethrough: true, tables: true, tasklists: true, gfm: true }
}

/// Returns the extensions the previewer enables.
pub fn parser_options() -> (r: ParserOptions)
    ensures
        r == spec_parser_options(),
{
    ParserOptions { strikethrough: true, tables: true, tasklists: true, gfm: true }
}

/// A code fence as values: indented, or fenced with its info string.
pub enum FenceView {
    /// Indented by four spaces.
    Indented,
    /// Fenced, with its info string.
    Fenced(Seq<char>),
}

/// The start of a node as values.
pub enum StartView {
    /// A paragraph.
    Paragraph,
    /// A heading of the given level.
    Heading(HeadingLevel),
    /// A block quote, with its alert kind.
    BlockQuote(Option<BlockQuoteKind>),
    /// A code block.
    CodeBlock(FenceView),
    /// A raw HTML block.
    HtmlBlock,
    /// A list, with the number of its first item when ordered.
    List(Option<u64>),
    /// A list item.
    Item,
    /// A table, with its column alignments.
    Table(Seq<Alignment>),
    /// The header row of a table.
    TableHead,
    /// A table row.
    TableRow,
    /// A table cell.
    TableCell,
    /// Emphasis.
    Emphasis,
    /// Strong emphasis.
    Strong,
    /// Strikethrough.
    Strikethrough,
    /// A link.
    Link { link_type: MdLinkType, destination: Seq<char>, title: Seq<char> },
    /// An image.
    Image { destination: Seq<char>, title: Seq<char> },
    /// A node the previewer does not show.
    Ignored,
}

/// An event of the Markdown event stream as values.
pub enum EventView {
    /// A node starts.
    Start(StartView),
    /// A node ends.
    End(NodeEnd),
    /// Text.
    Text(Seq<char>),
    /// An inline code span.
    Code(Seq<char>),
    /// Inline math.
    InlineMath(Seq<char>),
    /// Display math.
    DisplayMath(Seq<char>),
    /// Raw HTML of an HTML block.
    Html(Seq<char>),
    /// Inline raw HTML.
    InlineHtml(Seq<char>),
    /// A footnote reference.
    FootnoteReference(Seq<char>),
    /// A soft line break.
    SoftBreak,
    /// A hard line break.
    HardBreak,
    /// A thematic break.
    Rule,
    /// A task-list checkbox, checked or not.
    TaskListMarker(bool),
}

impl<'a> View for CodeFence<'a> {
    type V = FenceView;

    open spec fn view(&self) -> FenceView {
        match self {
            CodeFence::Indented => FenceView::Indented,
            CodeFence::Fenced(info) => FenceView::Fenced(info@),
        }
    }
}

impl<'a> View for NodeStart<'a> {
    type V = StartView;

    open spec fn view(&self) -> StartView {
        match self {
            NodeStart::Paragraph => StartView::Paragraph,
            NodeStart::Heading(level) => StartView::Heading(*level),
            NodeStart::BlockQuote(kind) => StartView::BlockQuote(*kind),
            NodeStart::CodeBlock(fence) => StartView::CodeBlock(fence@),
            NodeStart::HtmlBlock => StartView::HtmlBlock,
            NodeStart::List(first) => StartView::List(*first),
            NodeStart::Item => StartView::Item,
            NodeStart::Table(columns) => StartView::Table(columns@),
            NodeStart::TableHead => StartView::TableHead,
            NodeStart::TableRow => StartView::TableRow,
            NodeStart::TableCell => StartView::TableCell,
            NodeStart::Emphasis => StartView::Emphasis,
            NodeStart::Strong => StartView::Strong,
            NodeStart::Strikethrough => StartView::Strikethrough,
            NodeStart::Link { link_type, destination, title } => StartView::Link {
                link_type: *link_type,
                destination: destination@,
                title: title@,
            },
            NodeStart::Image { destination, title } => StartView::Image {
                destination: destination@,
                title: title@,
            },
            NodeStart::Ignored => StartView::Ignored,
        }
    }
}

impl<'a> View for MarkdownEvent<'a> {
    type V = EventView;

    open spec fn view(&self) -> EventView {
        match self {
            MarkdownEvent::Start(tag) => EventView::Start(tag@),
            MarkdownEvent::End(tag) => EventView::End(*tag),
            MarkdownEvent::Text(text) => EventView::Text(text@),
            MarkdownEvent::Code(text) => EventView::Code(text@),
            MarkdownEvent::InlineMath(text) => EventView::InlineMath(text@),
            MarkdownEvent::DisplayMath(text) => EventView::DisplayMath(text@),
            MarkdownEvent::Html(text) => EventView::Html(text@),
            MarkdownEvent::InlineHtml(text) => EventView::InlineHtml(text@),
            MarkdownEvent::FootnoteReference(text) => EventView::FootnoteReference(text@),
            MarkdownEvent::SoftBreak => EventView::SoftBreak,
            MarkdownEvent::HardBreak => EventView::HardBreak,
            MarkdownEvent::Rule => EventView::Rule,
            MarkdownEvent::TaskListMarker(checked) => EventView::TaskListMarker(*checked),
        }
    }
}

/// A stream of events with their source ranges, as values.
pub open spec fn events_view<'a>(events: Seq<(MarkdownEvent<'a>, usize, usize)>) -> Seq<(EventView, usize, usize)> {
    events.map_values(|e: (MarkdownEvent<'a>, usize, usize)| (e.0@, e.1, e.2))
}

/// The events pulldown-cmark reads from `input` with `options`, each read into the
/// library's events, with the byte range of the source each came from.
pub uninterp spec fn spec_markdown_events(input: Seq<char>, options: ParserOptions) -> Seq<(EventView, usize, usize)>;

/// Parses `input` with pulldown-cmark (`Parser::new_ext` with the extensions
/// `options` enables, through `into_offset_iter`) and reads every event into the
/// library's events (`read_event`), with the byte range of the source it came
/// from. The contract claims that the events, as values, are a function of the two
/// arguments; which events pulldown-cmark reads is its own business.
#[verifier::external_body]
pub(crate) fn markdown_events<'a>(input: &'a str, options: ParserOptions) -> (r: Vec<(MarkdownEvent<'a>, usize, usize)>)
    ensures
        events_view(r@) == spec_markdown_events(input@, options),
{
    let mut flags = Options::empty();
    flags.set(Options::ENABLE_STRIKETHROUGH, options.strikethrough);
    flags.set(Options::ENABLE_TABLES, options.tables);
    flags.set(Options::ENABLE_TASKLISTS, options.tasklists);
    flags.set(Options::ENABLE_GFM, options.gfm);
    Parser::new_ext(input, flags).into_offset_iter().map(|(event, range)| (read_event(event), range.start, range.end)).collect()
}

} // verus!
