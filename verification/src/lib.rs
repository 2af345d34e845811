//! Markdown preview for the terminal: parsing, layout and rendering.

mod ast;
mod builder;
mod bytes;
mod cli;
mod events;
mod grid;
mod inlines;
mod layout;
mod list;
mod options;
mod parse_error;
mod plain;
mod preview;
mod renderer;
mod sgr;
mod source;
mod style;
mod syntax;
mod table;
mod table_lines;
mod table_render;
mod text;
mod theme;
mod utf8;
mod wrap;
mod wrap_lines;
mod writer;

pub use ast::{
    Alignment, Block, BlockQuote, BlockQuoteKind, CodeBlock, Document, Heading, HeadingLevel, Inline,
    LinkKind, List, ListItem, ListKind, Table, TaskState,
};
pub use text::{Text, INLINE_CAPACITY};
pub use utf8::utf8_complete_prefix;
pub use theme::{dark_palette, Palette, Rgb, HEADING_LEVEL_COUNT};
pub use style::{heading_style, TextStyle};
pub use wrap::{display_width, visible_width, word_wrap};
pub use wrap::WordWrapWriter;
pub use writer::{write_repeated_str, write_spaces, LinePrefix, LinePrefixWriter, WidthMeasuringWriter};
pub use table::{table_layout, table_total_width, shrink_to_fit};
pub use list::{list_marker, marker_text_width, marker_width, task_marker, write_list_marker, ListMarkerDisplay};
pub use options::{CodeTheme, ColorMode, RenderOptions, RenderState};
pub use renderer::{render_code_block, write_code_block, Renderer};
pub use plain::plain_inlines_width;
pub use preview::{preview, render_stream, write_preview, PreviewError};
pub use builder::{blocks, blocks_from_events, AstBuilder};
pub use events::{parser_options, ParserOptions, CodeFence, MarkdownEvent, MdLinkType, NodeEnd, NodeStart};
pub use parse_error::ParseError;
pub use source::{gap_has_blank_line, gap_has_blockquote_blank_line, trim_trailing_blank_gap_end};
pub use cli::{run_report, RunReport, WriteOutcome, resolve_color_mode, run_options, Cli, ColorPolicy};
pub use syntax::{collect_highlighted_ranges, highlighted_ranges, is_within_highlight_limits, language_token, syntax_name_for_info, text_style, theme_name, SyntaxStyle};
