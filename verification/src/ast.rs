use vstd::prelude::*;

use crate::text::Text;

verus! {

/// A top-level Markdown block.
#[derive(Debug, PartialEq, Eq)]
pub enum Block<'a> {
    /// A paragraph of inline content.
    Paragraph(Vec<Inline<'a>>),
    /// A heading with its level and inline content.
    Heading(Heading<'a>),
    /// A block quote, optionally tagged with a GFM alert kind.
    BlockQuote(BlockQuote<'a>),
    /// An ordered or unordered list.
    List(List<'a>),
    /// A fenced or indented code block.
    CodeBlock(CodeBlock<'a>),
    /// A raw HTML block, passed through verbatim.
    HtmlBlock(Text<'a>),
    /// A GFM table.
    Table(Table<'a>),
    /// A thematic break (horizontal rule).
    ThematicBreak,
    /// A blank line between blocks; produces no visible content.
    BlankLine,
}

/// A heading and its inline content.
#[derive(Debug, PartialEq, Eq)]
pub struct Heading<'a> {
    /// Heading level, from `H1` (`#`) to `H6` (`######`).
    pub level: HeadingLevel,
    /// Inline content of the heading.
    pub children: Vec<Inline<'a>>,
}

/// A block quote and the blocks nested inside it.
#[derive(Debug, PartialEq, Eq)]
pub struct BlockQuote<'a> {
    /// GFM alert kind when the quote starts with a marker like `[!NOTE]`.
    pub kind: Option<BlockQuoteKind>,
    /// Blocks nested inside the quote.
    pub blocks: Vec<Block<'a>>,
}

/// GFM alert kinds that tag a block quote.
#[derive(Debug, Clone, Copy, PartialEq, Eq, Structural)]
pub enum BlockQuoteKind {
    /// A `[!NOTE]` alert.
    Note,
    /// A `[!TIP]` alert.
    Tip,
    /// An `[!IMPORTANT]` alert.
    Important,
    /// A `[!WARNING]` alert.
    Warning,
    /// A `[!CAUTION]` alert.
    Caution,
}

/// A fenced or indented code block.
#[derive(Debug, PartialEq, Eq)]
pub struct CodeBlock<'a> {
    /// The info string of a fenced block (`rust` in ```` ```rust ````), if any.
    pub info: Option<Text<'a>>,
    /// The literal content of the block.
    pub text: Text<'a>,
}

/// A whole Markdown document.
#[derive(Debug, PartialEq, Eq)]
pub struct Document<'a> {
    /// Top-level blocks in source order.
    pub blocks: Vec<Block<'a>>,
    /// Whether the source ended with a newline.
    pub has_trailing_newline: bool,
}

impl<'a> Default for Document<'a> {
    fn default() -> (r: Self)
        ensures
            r.blocks@.len() == 0,
            !r.has_trailing_newline,
    {
        Document { blocks: Vec::new(), has_trailing_newline: false }
    }
}

/// An inline (span-level) Markdown node.
#[derive(Debug, PartialEq, Eq)]
pub enum Inline<'a> {
    /// Plain text.
    Text(Text<'a>),
    /// Emphasized (italic) children.
    Emphasis(Vec<Inline<'a>>),
    /// Strongly emphasized (bold) children.
    Strong(Vec<Inline<'a>>),
    /// Struck-through children (GFM).
    Strikethrough(Vec<Inline<'a>>),
    /// An inline code span.
    Code(Text<'a>),
    /// A hyperlink.
    Link {
        /// Link destination URL.
        destination: Text<'a>,
        /// Link title, when the source declares a non-empty one.
        title: Option<Text<'a>>,
        /// How the link was written in the source.
        kind: LinkKind,
        /// Visible link text.
        children: Vec<Inline<'a>>,
    },
    /// An image reference.
    Image {
        /// Image destination URL.
        destination: Text<'a>,
        /// Image title, when the source declares a non-empty one.
        title: Option<Text<'a>>,
        /// Alt text shown as the visible placeholder.
        alt: Vec<Inline<'a>>,
    },
    /// A hard line break (trailing backslash or two trailing spaces).
    HardBreak,
    /// A soft line break (a single newline in the source).
    SoftBreak,
}

/// How a link was written in the Markdown source.
#[derive(Debug, Clone, Copy, PartialEq, Eq, Structural)]
pub enum LinkKind {
    /// An inline or reference link with explicit link text.
    Regular,
    /// An autolink like `<https://example.com>`, whose text is the URL itself.
    Autolink,
}

/// An ordered or unordered list.
#[derive(Debug, PartialEq, Eq)]
pub struct List<'a> {
    /// Whether the list is ordered, and where its numbering starts.
    pub kind: ListKind,
    /// List items in source order.
    pub items: Vec<ListItem<'a>>,
    /// Whether items are separated by blank lines (a loose list).
    pub loose: bool,
}

/// The flavor of a list.
#[derive(Debug, Clone, Copy, PartialEq, Eq, Structural)]
pub enum ListKind {
    /// A bullet list.
    Unordered,
    /// A numbered list.
    Ordered {
        /// Number of the first item.
        start: u64,
    },
}

/// A single list item.
#[derive(Debug, PartialEq, Eq)]
pub struct ListItem<'a> {
    /// Checkbox state when the item is a GFM task-list item.
    pub task: Option<TaskState>,
    /// Block content of the item.
    pub blocks: Vec<Block<'a>>,
}

/// Checkbox state of a GFM task-list item.
#[derive(Debug, Clone, Copy, PartialEq, Eq, Structural)]
pub enum TaskState {
    /// The checkbox is checked (`[x]`).
    Checked,
    /// The checkbox is unchecked (`[ ]`).
    Unchecked,
}

/// A GFM table.
///
/// Parser-produced tables have one alignment per header column and rows of exactly
/// the header's width; renderers take the wider of the header and the alignment row
/// as the column count and ignore cells beyond it in hand-built tables.
#[derive(Debug, PartialEq, Eq)]
pub struct Table<'a> {
    /// Header cells, one inline sequence per column.
    pub header: Vec<Vec<Inline<'a>>>,
    /// Per-column alignment declared in the delimiter row.
    pub alignments: Vec<Alignment>,
    /// Body rows, each holding one cell per column.
    pub rows: Vec<Vec<Vec<Inline<'a>>>>,
}

/// Column alignment declared in a table's delimiter row.
#[derive(Debug, Clone, Copy, PartialEq, Eq, Structural)]
pub enum Alignment {
    /// No explicit alignment (`---`).
    Unspecified,
    /// Left-aligned (`:---`).
    Left,
    /// Center-aligned (`:---:`).
    Center,
    /// Right-aligned (`---:`).
    Right,
}

/// Heading depth, restricted to CommonMark's six levels.
#[derive(Debug, Clone, Copy, PartialEq, Eq, Structural, PartialOrd, Ord)]
pub enum HeadingLevel {
    /// Level 1 (`#`).
    H1,
    /// Level 2 (`##`).
    H2,
    /// Level 3 (`###`).
    H3,
    /// Level 4 (`####`).
    H4,
    /// Level 5 (`#####`).
    H5,
    /// Level 6 (`######`).
    H6,
}

/// The numeric depth of a heading level, 1 through 6.
pub open spec fn spec_depth(level: HeadingLevel) -> int {
    match level {
        HeadingLevel::H1 => 1,
        HeadingLevel::H2 => 2,
        HeadingLevel::H3 => 3,
        HeadingLevel::H4 => 4,
        HeadingLevel::H5 => 5,
        HeadingLevel::H6 => 6,
    }
}

impl HeadingLevel {
    /// The number of heading levels (CommonMark's six).
    pub const COUNT: usize = 6;

    /// Returns the numeric depth, from 1 for `H1` to 6 for `H6`.
    pub fn depth(self) -> (d: u8)
        ensures
            d == spec_depth(self),
            1 <= d <= 6,
    {
        match self {
            HeadingLevel::H1 => 1,
            HeadingLevel::H2 => 2,
            HeadingLevel::H3 => 3,
            HeadingLevel::H4 => 4,
            HeadingLevel::H5 => 5,
            HeadingLevel::H6 => 6,
        }
    }
}

} // verus!
