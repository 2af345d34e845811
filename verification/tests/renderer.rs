use std::collections::BTreeSet;
use std::io;

use mp::{
    dark_palette, display_width, visible_width, Alignment, Block, BlockQuote, BlockQuoteKind,
    CodeBlock, CodeTheme, ColorMode, Heading, HeadingLevel, Inline, LinkKind, List, ListItem,
    ListKind, Palette, RenderOptions, RenderState, Renderer, Rgb, Table, TaskState, Text,
};

fn utf8(bytes: Vec<u8>) -> io::Result<String> {
    String::from_utf8(bytes).map_err(|error| io::Error::new(io::ErrorKind::InvalidData, error))
}

#[test]
fn renders_reference_style_block_spacing_and_markers() -> io::Result<()> {
    let blocks = vec![
        Block::Heading(Heading {
            level: HeadingLevel::H1,
            children: vec![Inline::Text(Text::borrowed("Title"))],
        }),
        Block::BlankLine,
        Block::List(List {
            kind: ListKind::Unordered,
            items: vec![list_item(None, "item")],
            loose: false,
        }),
        Block::BlockQuote(BlockQuote {
            kind: None,
            blocks: vec![Block::Paragraph(vec![Inline::Text(Text::borrowed("quoted"))])],
        }),
    ];

    assert_eq!(render_plain(&blocks)?, "Title\n\n• item\n│ quoted\n");
    Ok(())
}

#[test]
fn loose_lists_separate_items_with_a_blank_line() -> io::Result<()> {
    let loose = vec![Block::List(List {
        kind: ListKind::Unordered,
        items: vec![list_item(None, "a"), list_item(None, "b")],
        loose: true,
    })];
    let tight = vec![Block::List(List {
        kind: ListKind::Unordered,
        items: vec![list_item(None, "a"), list_item(None, "b")],
        loose: false,
    })];

    assert_eq!(render_plain(&loose)?, "• a\n\n• b\n");
    assert_eq!(render_plain(&tight)?, "• a\n• b\n");
    Ok(())
}

#[test]
fn empty_list_item_renders_its_marker_without_a_trailing_space() -> io::Result<()> {
    let blocks = vec![Block::List(List {
        kind: ListKind::Unordered,
        items: vec![ListItem { task: None, blocks: vec![] }, list_item(None, "b")],
        loose: false,
    })];

    assert_eq!(render_plain(&blocks)?, "•\n• b\n");
    Ok(())
}

#[test]
fn renders_task_lists_with_checkbox_glyphs() -> io::Result<()> {
    let blocks = vec![Block::List(List {
        kind: ListKind::Unordered,
        items: vec![
            list_item(Some(TaskState::Checked), "done"),
            list_item(Some(TaskState::Unchecked), "todo"),
        ],
        loose: false,
    })];

    assert_eq!(render_plain(&blocks)?, "• ☑ done\n• ☐ todo\n");
    Ok(())
}

#[test]
fn empty_task_list_item_keeps_its_checkbox_without_a_trailing_space() -> io::Result<()> {
    let blocks = vec![Block::List(List {
        kind: ListKind::Unordered,
        items: vec![
            ListItem { task: Some(TaskState::Unchecked), blocks: vec![] },
            list_item(Some(TaskState::Checked), "done"),
        ],
        loose: false,
    })];

    assert_eq!(render_plain(&blocks)?, "• ☐\n• ☑ done\n");
    Ok(())
}

#[test]
fn fenced_code_block_as_only_item_block_indents_continuation_lines() -> io::Result<()> {
    let blocks = vec![Block::List(List {
        kind: ListKind::Unordered,
        items: vec![ListItem {
            task: None,
            blocks: vec![Block::CodeBlock(CodeBlock {
                info: Some(Text::borrowed("rust")),
                text: Text::borrowed("fn main() {}\n"),
            })],
        }],
        loose: false,
    })];

    assert_eq!(render_plain(&blocks)?, "• ```rust\n  fn main() {}\n  ```\n");
    Ok(())
}

#[test]
fn blockquote_as_first_item_block_keeps_its_bar_at_the_content_column() -> io::Result<()> {
    let blocks = vec![Block::List(List {
        kind: ListKind::Unordered,
        items: vec![ListItem {
            task: None,
            blocks: vec![Block::BlockQuote(BlockQuote {
                kind: None,
                blocks: vec![paragraph("a"), paragraph("b")],
            })],
        }],
        loose: false,
    })];

    assert_eq!(render_plain(&blocks)?, "• │ a\n  │ b\n");
    Ok(())
}

#[test]
fn nested_list_as_first_item_block_aligns_its_first_item_with_siblings() -> io::Result<()> {
    let blocks = vec![Block::List(List {
        kind: ListKind::Unordered,
        items: vec![ListItem {
            task: None,
            blocks: vec![Block::List(List {
                kind: ListKind::Unordered,
                items: vec![list_item(None, "a"), list_item(None, "b")],
                loose: false,
            })],
        }],
        loose: false,
    })];

    assert_eq!(render_plain(&blocks)?, "• ◦ a\n  ◦ b\n");
    Ok(())
}

#[test]
fn ordered_list_markers_saturate_at_u64_max_instead_of_failing() -> io::Result<()> {
    let blocks = vec![Block::List(List {
        kind: ListKind::Ordered { start: u64::MAX },
        items: vec![list_item(None, "a"), list_item(None, "b")],
        loose: false,
    })];

    assert_eq!(render_plain(&blocks)?, "18446744073709551615. a\n18446744073709551615. b\n",);
    Ok(())
}

#[test]
fn indents_nested_lists_to_the_parent_content_column() -> io::Result<()> {
    let blocks = vec![Block::List(List {
        kind: ListKind::Ordered { start: 9 },
        items: vec![
            ListItem {
                task: None,
                blocks: vec![
                    Block::Paragraph(vec![Inline::Text(Text::borrowed("item"))]),
                    Block::List(List {
                        kind: ListKind::Ordered { start: 1 },
                        items: vec![list_item(None, "child")],
                        loose: false,
                    }),
                ],
            },
            ListItem {
                task: Some(TaskState::Checked),
                blocks: vec![
                    Block::Paragraph(vec![Inline::Text(Text::borrowed("next"))]),
                    Block::List(List {
                        kind: ListKind::Unordered,
                        items: vec![list_item(None, "child")],
                        loose: false,
                    }),
                ],
            },
        ],
        loose: false,
    })];

    assert_eq!(render_plain(&blocks)?, "9. item\n   1. child\n10. ☑ next\n      ◦ child\n",);
    Ok(())
}

#[test]
fn renders_links_images_and_titles_like_markdown_preview() -> io::Result<()> {
    let blocks = vec![Block::Paragraph(vec![
        Inline::Link {
            destination: Text::borrowed("https://example.com"),
            title: Some(Text::borrowed("Example")),
            kind: LinkKind::Regular,
            children: vec![Inline::Text(Text::borrowed("link"))],
        },
        Inline::Text(Text::borrowed(" ")),
        Inline::Image {
            destination: Text::borrowed("image.png"),
            title: Some(Text::borrowed("Logo")),
            alt: vec![Inline::Text(Text::borrowed("alt"))],
        },
    ])];

    assert_eq!(
        render_plain(&blocks)?,
        "link(https://example.com) — Example [img: alt](image.png) — Logo\n",
    );
    Ok(())
}

#[test]
fn tables_narrower_than_the_available_width_render_unchanged() -> io::Result<()> {
    let blocks = vec![Block::Table(Table {
        header: vec![
            vec![Inline::Text(Text::borrowed("A"))],
            vec![Inline::Text(Text::borrowed("B"))],
        ],
        alignments: vec![Alignment::Left, Alignment::Left],
        rows: vec![vec![
            vec![Inline::Text(Text::borrowed("a"))],
            vec![Inline::Text(Text::borrowed("b"))],
        ]],
    })];

    let unlimited = render_plain(&blocks)?;
    let limited =
        render_to_string(&blocks, RenderOptions { width: Some(80), ..Default::default() })?;

    assert_eq!(limited, unlimited);
    Ok(())
}

#[test]
fn cells_wider_than_their_column_wrap_onto_multiple_lines() -> io::Result<()> {
    let blocks = vec![Block::Table(Table {
        header: vec![vec![Inline::Text(Text::borrowed("H"))]],
        alignments: vec![Alignment::Left],
        rows: vec![vec![vec![Inline::Text(Text::borrowed("alpha beta"))]]],
    })];

    // The natural column width is 10 (total 14); a 9-column budget shrinks
    // the column to 5, so the cell wraps onto two lines inside its row.
    let output =
        render_to_string(&blocks, RenderOptions { width: Some(9), ..Default::default() })?;

    assert_eq!(output, "┌───────┐\n│ H     │\n├───────┤\n│ alpha │\n│ beta  │\n└───────┘\n");
    Ok(())
}

#[test]
fn shorter_cells_in_a_multi_line_row_pad_to_keep_borders_aligned() -> io::Result<()> {
    let blocks = vec![Block::Table(Table {
        header: vec![
            vec![Inline::Text(Text::borrowed("A"))],
            vec![Inline::Text(Text::borrowed("B"))],
        ],
        alignments: vec![Alignment::Left, Alignment::Left],
        rows: vec![vec![
            vec![Inline::Text(Text::borrowed("alpha beta"))],
            vec![Inline::Text(Text::borrowed("x"))],
        ]],
    })];

    let output =
        render_to_string(&blocks, RenderOptions { width: Some(15), ..Default::default() })?;

    assert_eq!(
        output,
        "┌───────┬─────┐\n\
         │ A     │ B   │\n\
         ├───────┼─────┤\n\
         │ alpha │ x   │\n\
         │ beta  │     │\n\
         └───────┴─────┘\n"
    );
    Ok(())
}

#[test]
fn center_and_right_alignment_apply_to_each_wrapped_cell_line() -> io::Result<()> {
    let blocks = vec![Block::Table(Table {
        header: vec![
            vec![Inline::Text(Text::borrowed("R"))],
            vec![Inline::Text(Text::borrowed("C"))],
        ],
        alignments: vec![Alignment::Right, Alignment::Center],
        rows: vec![vec![
            vec![Inline::Text(Text::borrowed("alpha beta"))],
            vec![Inline::Text(Text::borrowed("gg dd"))],
        ]],
    })];

    let output =
        render_to_string(&blocks, RenderOptions { width: Some(17), ..Default::default() })?;

    assert_eq!(
        output,
        "┌───────┬───────┐\n\
         │     R │   C   │\n\
         ├───────┼───────┤\n\
         │ alpha │ gg dd │\n\
         │  beta │       │\n\
         └───────┴───────┘\n"
    );
    Ok(())
}

#[test]
fn every_output_line_of_a_width_limited_table_shares_one_display_width() -> io::Result<()> {
    let blocks = vec![Block::Table(Table {
        header: vec![
            vec![Inline::Text(Text::borrowed("Crate"))],
            vec![Inline::Text(Text::borrowed("Responsibility"))],
        ],
        alignments: vec![Alignment::Left, Alignment::Left],
        rows: vec![
            vec![
                vec![Inline::Text(Text::borrowed("mp-renderer"))],
                vec![Inline::Text(Text::borrowed(
                    "Block-to-terminal rendering with a trailing-newline guarantee",
                ))],
            ],
            vec![
                vec![Inline::Text(Text::borrowed("mp-parser"))],
                vec![Inline::Text(Text::borrowed(
                    "Markdown-to-block parsing with a streaming iterator",
                ))],
            ],
        ],
    })];

    let output =
        render_to_string(&blocks, RenderOptions { width: Some(24), ..Default::default() })?;
    let widths: BTreeSet<usize> = output.lines().map(display_width).collect();

    assert_eq!(widths.len(), 1, "every table line shares one display width: {output:?}");
    assert!(
        widths.iter().all(|width| *width <= 24),
        "every line fits in the 24-column budget: {output:?}"
    );
    Ok(())
}

#[test]
fn ansi_styled_cells_wrap_without_breaking_border_alignment() -> io::Result<()> {
    let blocks = vec![Block::Table(Table {
        header: vec![vec![Inline::Text(Text::borrowed("H"))]],
        alignments: vec![Alignment::Left],
        rows: vec![vec![vec![Inline::Strong(vec![Inline::Text(Text::borrowed(
            "alpha beta",
        ))])]]],
    })];

    let output = render_to_string(
        &blocks,
        RenderOptions { color: ColorMode::Ansi, width: Some(9), ..Default::default() },
    )?;
    let widths: BTreeSet<usize> =
        output.lines().map(|line| visible_width(line.as_bytes())).collect();

    assert_eq!(widths.len(), 1, "styled cells must not skew padding: {output:?}");
    Ok(())
}

#[test]
fn table_cell_line_breaks_render_as_a_single_space_keeping_borders_aligned() -> io::Result<()> {
    let blocks = vec![Block::Table(Table {
        header: vec![vec![Inline::Text(Text::borrowed("H"))]],
        alignments: vec![Alignment::Left],
        rows: vec![vec![vec![
            Inline::Text(Text::borrowed("a")),
            Inline::SoftBreak,
            Inline::Text(Text::borrowed("b")),
        ]]],
    })];

    assert_eq!(render_plain(&blocks)?, "┌─────┐\n│ H   │\n├─────┤\n│ a b │\n└─────┘\n",);
    Ok(())
}

#[test]
fn table_cell_width_matches_rendered_plain_text_for_a_titled_link() -> io::Result<()> {
    let blocks = vec![Block::Table(Table {
        header: vec![vec![Inline::Text(Text::borrowed("H"))]],
        alignments: vec![Alignment::Left],
        rows: vec![vec![vec![Inline::Link {
            destination: Text::borrowed("https://example.com"),
            title: Some(Text::borrowed("Example")),
            kind: LinkKind::Regular,
            children: vec![Inline::Text(Text::borrowed("link"))],
        }]]],
    })];
    let output = render_plain(&blocks)?;
    let widths: BTreeSet<usize> = output.lines().map(display_width).collect();

    assert_eq!(widths.len(), 1, "every table line shares one display width: {output:?}");
    Ok(())
}

#[test]
fn renders_tables_with_box_drawing_borders() -> io::Result<()> {
    let blocks = vec![Block::Table(Table {
        header: vec![
            vec![Inline::Text(Text::borrowed("A"))],
            vec![Inline::Text(Text::borrowed("B"))],
        ],
        alignments: vec![Alignment::Left, Alignment::Left],
        rows: vec![vec![
            vec![Inline::Text(Text::borrowed("1"))],
            vec![Inline::Text(Text::borrowed("2"))],
        ]],
    })];

    assert_eq!(
        render_plain(&blocks)?,
        "┌─────┬─────┐\n│ A   │ B   │\n├─────┼─────┤\n│ 1   │ 2   │\n└─────┴─────┘\n",
    );
    Ok(())
}

#[test]
fn table_cell_inline_code_uses_inline_code_color_when_ansi_enabled() -> io::Result<()> {
    let blocks = vec![Block::Table(Table {
        header: vec![vec![Inline::Text(Text::borrowed("H"))]],
        alignments: vec![Alignment::Left],
        rows: vec![vec![vec![Inline::Code(Text::borrowed("mp"))]]],
    })];
    let output = render_ansi(&blocks)?;
    let colors = ansi_rgb_colors(&output);

    assert!(
        colors.contains("42;161;152"),
        "expected inline code color in table output, got {colors:?}",
    );
    Ok(())
}

#[test]
fn table_cell_text_after_inline_code_restores_body_color() -> io::Result<()> {
    let blocks = vec![Block::Table(Table {
        header: vec![vec![Inline::Text(Text::borrowed("H"))]],
        alignments: vec![Alignment::Left],
        rows: vec![vec![vec![
            Inline::Code(Text::borrowed("mp")),
            Inline::Text(Text::borrowed("after")),
        ]]],
    })];
    let output = render_ansi(&blocks)?;

    assert!(
        output.contains("\u{1b}[38;2;131;148;150mafter"),
        "expected body color restored before trailing text, got {output:?}",
    );
    Ok(())
}

#[test]
fn table_cell_strong_renders_bold_when_ansi_enabled() -> io::Result<()> {
    let blocks = vec![Block::Table(Table {
        header: vec![vec![Inline::Strong(vec![Inline::Text(Text::borrowed("H"))])]],
        alignments: vec![Alignment::Left],
        rows: vec![vec![vec![Inline::Text(Text::borrowed("body"))]]],
    })];
    let output = render_ansi(&blocks)?;

    assert!(
        output.contains("\u{1b}[1;38;2;131;148;150mH"),
        "expected bold styling around strong header cell, got {output:?}",
    );
    Ok(())
}

#[test]
fn table_cell_emphasis_and_strikethrough_render_italic_and_strikethrough() -> io::Result<()> {
    let blocks = vec![Block::Table(Table {
        header: vec![vec![Inline::Text(Text::borrowed("H"))]],
        alignments: vec![Alignment::Left],
        rows: vec![
            vec![vec![Inline::Emphasis(vec![Inline::Text(Text::borrowed("em"))])]],
            vec![vec![Inline::Strikethrough(vec![Inline::Text(Text::borrowed("st"))])]],
        ],
    })];
    let output = render_ansi(&blocks)?;

    assert!(
        output.contains("\u{1b}[3;38;2;131;148;150mem"),
        "expected italic styling around emphasis cell, got {output:?}",
    );
    assert!(
        output.contains("\u{1b}[9;38;2;131;148;150mst"),
        "expected strikethrough styling around strikethrough cell, got {output:?}",
    );
    Ok(())
}

#[test]
fn table_cell_link_renders_underline_link_color_and_muted_url() -> io::Result<()> {
    let blocks = vec![Block::Table(Table {
        header: vec![vec![Inline::Text(Text::borrowed("H"))]],
        alignments: vec![Alignment::Left],
        rows: vec![vec![vec![Inline::Link {
            destination: Text::borrowed("example.com"),
            title: None,
            kind: LinkKind::Regular,
            children: vec![Inline::Text(Text::borrowed("site"))],
        }]]],
    })];
    let output = render_ansi(&blocks)?;

    assert!(
        output.contains("\u{1b}[4;38;2;108;113;196msite"),
        "expected underlined link color around link text, got {output:?}",
    );
    assert!(
        output.contains("\u{1b}[2;38;2;88;110;117m(example.com)"),
        "expected muted dim styling around link url, got {output:?}",
    );
    Ok(())
}

#[test]
fn styled_table_output_strips_to_the_same_layout_as_plain_output() -> io::Result<()> {
    let blocks = vec![Block::Table(Table {
        header: vec![
            vec![Inline::Text(Text::borrowed("Command"))],
            vec![Inline::Text(Text::borrowed("Note"))],
        ],
        alignments: vec![Alignment::Left, Alignment::Right],
        rows: vec![
            vec![
                vec![Inline::Code(Text::borrowed("mp"))],
                vec![Inline::Strong(vec![Inline::Text(Text::borrowed("bold"))])],
            ],
            vec![
                vec![Inline::Link {
                    destination: Text::borrowed("example.com"),
                    title: None,
                    kind: LinkKind::Regular,
                    children: vec![Inline::Text(Text::borrowed("site"))],
                }],
                vec![Inline::Emphasis(vec![Inline::Text(Text::borrowed("x"))])],
            ],
        ],
    })];

    assert_eq!(strip_ansi(&render_ansi(&blocks)?), render_plain(&blocks)?);
    Ok(())
}

#[test]
fn styled_link_cell_with_title_keeps_plain_layout() -> io::Result<()> {
    let blocks = vec![Block::Table(Table {
        header: vec![vec![Inline::Text(Text::borrowed("H"))]],
        alignments: vec![Alignment::Left],
        rows: vec![vec![vec![Inline::Link {
            destination: Text::borrowed("https://example.com"),
            title: Some(Text::borrowed("Example")),
            kind: LinkKind::Regular,
            children: vec![Inline::Text(Text::borrowed("link"))],
        }]]],
    })];

    assert_eq!(strip_ansi(&render_ansi(&blocks)?), render_plain(&blocks)?);
    Ok(())
}

#[test]
fn styled_image_cell_with_title_keeps_plain_layout() -> io::Result<()> {
    let blocks = vec![Block::Table(Table {
        header: vec![vec![Inline::Text(Text::borrowed("H"))]],
        alignments: vec![Alignment::Left],
        rows: vec![vec![vec![Inline::Image {
            destination: Text::borrowed("image.png"),
            title: Some(Text::borrowed("Logo")),
            alt: vec![Inline::Text(Text::borrowed("alt"))],
        }]]],
    })];

    assert_eq!(strip_ansi(&render_ansi(&blocks)?), render_plain(&blocks)?);
    Ok(())
}

#[test]
fn ansi_disabled_table_cells_stay_plain() -> io::Result<()> {
    let blocks = vec![Block::Table(Table {
        header: vec![vec![Inline::Text(Text::borrowed("H"))]],
        alignments: vec![Alignment::Left],
        rows: vec![vec![vec![Inline::Code(Text::borrowed("mp"))]]],
    })];
    let output = render_plain(&blocks)?;

    assert!(!output.contains('\u{1b}'), "expected no escape sequences, got {output:?}");
    assert!(output.contains("`mp`"), "expected backtick-wrapped code text, got {output:?}");
    Ok(())
}

#[test]
fn renders_fenced_code_blocks_with_fences() -> io::Result<()> {
    let blocks = vec![Block::CodeBlock(CodeBlock {
        info: Some(Text::borrowed("rust")),
        text: Text::borrowed("fn main() {}\n"),
    })];

    assert_eq!(render_plain(&blocks)?, "```rust\nfn main() {}\n```\n");
    Ok(())
}

#[test]
fn ansi_disabled_keeps_fenced_code_blocks_plain() -> io::Result<()> {
    let blocks = rust_code_blocks("rust", "fn main() {}\n");

    assert_eq!(render_plain(&blocks)?, "```rust\nfn main() {}\n```\n");
    Ok(())
}

#[test]
fn default_code_theme_matches_explicit_solarized_dark() -> io::Result<()> {
    let blocks = rust_code_blocks("rust", "fn main() {}\n");
    let default = render_ansi(&blocks)?;
    let explicit = render_to_string(
        &blocks,
        RenderOptions {
            color: ColorMode::Ansi,
            code_theme: CodeTheme::SolarizedDark,
            ..Default::default()
        },
    )?;

    assert_eq!(default, explicit, "the default code theme must stay Solarized Dark");
    Ok(())
}

#[test]
fn different_code_themes_highlight_the_same_block_differently() -> io::Result<()> {
    let blocks = rust_code_blocks("rust", "fn main() {}\n");
    let dark = render_to_string(
        &blocks,
        RenderOptions {
            color: ColorMode::Ansi,
            code_theme: CodeTheme::SolarizedDark,
            ..Default::default()
        },
    )?;
    let light = render_to_string(
        &blocks,
        RenderOptions {
            color: ColorMode::Ansi,
            code_theme: CodeTheme::SolarizedLight,
            ..Default::default()
        },
    )?;

    assert_ne!(dark, light, "distinct code themes must produce distinct ANSI output");
    Ok(())
}

#[test]
fn highlights_rust_code_without_rewriting_source_text() -> io::Result<()> {
    let blocks = rust_code_blocks("rust", "fn main() {}\n");
    let output = render_ansi(&blocks)?;

    assert_eq!(strip_ansi(&output), "```rust\nfn main() {}\n```\n");
    assert_code_body_has_distinct_syntax_colors(&output)?;
    Ok(())
}

#[test]
fn highlights_rust_code_from_rs_language_alias() -> io::Result<()> {
    let blocks = rust_code_blocks("rs", "fn main() {}\n");
    let output = render_ansi(&blocks)?;

    assert_eq!(strip_ansi(&output), "```rs\nfn main() {}\n```\n");
    assert_code_body_has_distinct_syntax_colors(&output)?;
    Ok(())
}

#[test]
fn unsupported_languages_fall_back_to_single_style_code_body() -> io::Result<()> {
    let blocks = rust_code_blocks("not-a-language", "fn main() {}\n");

    assert_eq!(
        render_ansi(&blocks)?,
        "\u{1b}[2;38;2;88;110;117m```not-a-language\u{1b}[0m\n\
         \u{1b}[38;2;42;161;152mfn main() {}\n\u{1b}[0m\
         \u{1b}[2;38;2;88;110;117m```\u{1b}[0m\n",
    );
    Ok(())
}

#[test]
fn oversized_code_blocks_fall_back_to_single_style_code_body() -> io::Result<()> {
    let oversized = "x".repeat(512 * 1024 + 1);
    let blocks = vec![Block::CodeBlock(CodeBlock {
        info: Some(Text::borrowed("rust")),
        text: Text::owned(oversized.clone()),
    })];
    let output = render_ansi(&blocks)?;

    assert!(output.contains(&format!(
        "\u{1b}[38;2;42;161;152m{oversized}\u{1b}[0m\n\
         \u{1b}[2;38;2;88;110;117m```"
    )));
    Ok(())
}

#[test]
fn nested_code_blocks_keep_blockquote_prefixes_while_highlighting() -> io::Result<()> {
    let blocks = vec![Block::BlockQuote(BlockQuote {
        kind: None,
        blocks: vec![Block::CodeBlock(CodeBlock {
            info: Some(Text::borrowed("rust")),
            text: Text::borrowed("fn main() {}\n"),
        })],
    })];
    let output = render_ansi(&blocks)?;

    assert_eq!(strip_ansi(&output), "│ ```rust\n│ fn main() {}\n│ ```\n");
    assert_code_body_has_distinct_syntax_colors(&output)?;
    Ok(())
}

#[test]
fn renders_synthetic_closing_fence_for_code_blocks() -> io::Result<()> {
    let blocks =
        vec![Block::CodeBlock(CodeBlock { info: None, text: Text::borrowed("abc\n") })];

    assert_eq!(render_plain(&blocks)?, "```\nabc\n```\n");
    Ok(())
}

#[test]
fn renders_html_blocks_without_dropping_raw_content() -> io::Result<()> {
    let blocks = vec![Block::HtmlBlock(Text::borrowed("<div>\nhello\n</div>\n"))];

    assert_eq!(render_plain(&blocks)?, "<div>\nhello\n</div>\n");
    Ok(())
}

#[test]
fn html_block_followed_by_a_paragraph_emits_no_blank_separator() -> io::Result<()> {
    let blocks = vec![Block::HtmlBlock(Text::borrowed("<div>\n")), paragraph("after")];

    assert_eq!(render_plain(&blocks)?, "<div>\nafter\n");
    Ok(())
}

#[test]
fn html_block_then_blank_line_keeps_exactly_one_trailing_newline() -> io::Result<()> {
    let blocks = vec![Block::HtmlBlock(Text::borrowed("x\n")), Block::BlankLine];

    assert_eq!(render_plain(&blocks)?, "x\n");
    Ok(())
}

#[test]
fn renders_gfm_blockquote_kind_as_a_visible_label() -> io::Result<()> {
    let blocks = vec![Block::BlockQuote(BlockQuote {
        kind: Some(BlockQuoteKind::Note),
        blocks: vec![Block::Paragraph(vec![Inline::Text(Text::borrowed("Read this"))])],
    })];

    assert_eq!(render_plain(&blocks)?, "│ NOTE\n│ Read this\n");
    Ok(())
}

#[test]
fn emits_ansi_styling_when_enabled() -> io::Result<()> {
    let blocks = vec![Block::Heading(Heading {
        level: HeadingLevel::H1,
        children: vec![Inline::Text(Text::borrowed("Title"))],
    })];

    assert_eq!(render_ansi(&blocks)?, "\u{1b}[1;4;38;2;181;137;0mTitle\u{1b}[0m\n",);
    Ok(())
}

#[test]
fn resets_ansi_style_before_restoring_parent_inline_style() -> io::Result<()> {
    let blocks = vec![Block::Paragraph(vec![
        Inline::Text(Text::borrowed("a ")),
        Inline::Strong(vec![Inline::Text(Text::borrowed("b"))]),
        Inline::Text(Text::borrowed(" c")),
    ])];

    assert_eq!(
        render_ansi(&blocks)?,
        "\u{1b}[38;2;131;148;150ma \u{1b}[1;38;2;131;148;150mb\u{1b}[0m\u{1b}[38;2;131;148;150m c\u{1b}[0m\n",
    );
    Ok(())
}

#[test]
fn nested_inline_styles_restore_outer_style_after_a_wrapped_child_closes() -> io::Result<()> {
    let blocks = vec![Block::Paragraph(vec![Inline::Emphasis(vec![
        Inline::Text(Text::borrowed("outer ")),
        Inline::Strong(vec![Inline::Text(Text::borrowed("inner"))]),
        Inline::Text(Text::borrowed(" outer")),
    ])])];

    assert_eq!(
        render_ansi(&blocks)?,
        "\u{1b}[38;2;131;148;150m\u{1b}[3;38;2;131;148;150mouter \
         \u{1b}[1;3;38;2;131;148;150minner\u{1b}[0m\u{1b}[3;38;2;131;148;150m outer\
         \u{1b}[0m\u{1b}[38;2;131;148;150m\u{1b}[0m\n",
    );
    Ok(())
}

#[test]
fn writes_to_the_provided_writer() -> io::Result<()> {
    let blocks = vec![Block::Paragraph(vec![Inline::Text(Text::borrowed("stream"))])];
    let mut writer: Vec<u8> = Vec::new();

    let renderer = Renderer::new(RenderOptions::default());
    let mut state = RenderState::default();
    for block in &blocks {
        renderer.render_block(&mut writer, block, &mut state);
    }
    renderer.finish(&mut writer, &state);

    assert!(!writer.is_empty());
    assert_eq!(utf8(writer)?, "stream\n");
    Ok(())
}

#[test]
fn finish_appends_a_newline_when_nonempty_output_lacks_one() -> io::Result<()> {
    let blocks = vec![Block::Heading(Heading {
        level: HeadingLevel::H1,
        children: vec![Inline::Text(Text::borrowed("Title"))],
    })];

    assert_eq!(render_plain(&blocks)?, "Title\n");
    Ok(())
}

#[test]
fn finish_writes_nothing_for_an_empty_document() -> io::Result<()> {
    assert_eq!(render_plain(&[])?, "");
    Ok(())
}

#[test]
fn rendering_only_a_blank_line_produces_no_output() -> io::Result<()> {
    assert_eq!(render_plain(&[Block::BlankLine])?, "");
    Ok(())
}

#[test]
fn leading_blank_line_does_not_emit_a_separator() -> io::Result<()> {
    assert_eq!(render_plain(&[Block::BlankLine, paragraph("a")])?, "a\n");
    Ok(())
}

#[test]
fn trailing_blank_line_keeps_exactly_one_trailing_newline() -> io::Result<()> {
    assert_eq!(render_plain(&[paragraph("a"), Block::BlankLine])?, "a\n");
    Ok(())
}

#[test]
fn blank_line_between_paragraphs_still_renders_a_blank_separator_line() -> io::Result<()> {
    assert_eq!(render_plain(&[paragraph("a"), Block::BlankLine, paragraph("b")])?, "a\n\nb\n",);
    Ok(())
}

#[test]
fn finish_does_not_duplicate_an_existing_trailing_newline() -> io::Result<()> {
    let blocks = vec![Block::List(List {
        kind: ListKind::Unordered,
        items: vec![list_item(None, "item")],
        loose: false,
    })];

    assert_eq!(render_plain(&blocks)?, "• item\n");
    Ok(())
}

#[test]
fn blank_line_inside_a_blockquote_renders_a_bare_bar_without_trailing_space() -> io::Result<()>
{
    let blocks = vec![Block::BlockQuote(BlockQuote {
        kind: None,
        blocks: vec![paragraph("a"), Block::BlankLine, paragraph("b")],
    })];

    assert_eq!(render_plain(&blocks)?, "│ a\n│\n│ b\n");
    Ok(())
}

#[test]
fn renders_an_empty_blockquote_as_a_single_bar_line() -> io::Result<()> {
    let blocks = vec![Block::BlockQuote(BlockQuote { kind: None, blocks: vec![] })];

    assert_eq!(render_plain(&blocks)?, "│\n", "bare bar without a trailing space");
    Ok(())
}

#[test]
fn blockquote_ending_with_a_newline_emits_no_dangling_prefix() -> io::Result<()> {
    let blocks = vec![Block::BlockQuote(BlockQuote {
        kind: None,
        blocks: vec![Block::HtmlBlock(Text::borrowed("<div>\n"))],
    })];

    assert_eq!(render_plain(&blocks)?, "│ <div>\n");
    Ok(())
}

#[test]
fn indented_child_block_emits_no_trailing_whitespace() -> io::Result<()> {
    let blocks = vec![Block::List(List {
        kind: ListKind::Unordered,
        items: vec![ListItem {
            task: None,
            blocks: vec![
                Block::Paragraph(vec![Inline::Text(Text::borrowed("item"))]),
                Block::CodeBlock(CodeBlock { info: None, text: Text::borrowed("code\n") }),
            ],
        }],
        loose: false,
    })];

    let output = render_plain(&blocks)?;

    assert!(
        output.lines().all(|line| line == line.trim_end()),
        "no line may carry trailing whitespace: {output:?}"
    );
    Ok(())
}

#[test]
fn default_render_options_use_the_solarized_dark_palette() {
    assert_eq!(RenderOptions::default().palette, dark_palette());
    assert_eq!(Palette::default(), dark_palette());
}

#[test]
fn default_render_options_have_no_width_limit() {
    assert_eq!(RenderOptions::default().width, None);
}

#[test]
fn paragraphs_wrap_at_word_boundaries_within_the_width_limit() -> io::Result<()> {
    let blocks =
        vec![Block::Paragraph(vec![Inline::Text(Text::borrowed("alpha beta gamma delta"))])];

    let output =
        render_to_string(&blocks, RenderOptions { width: Some(11), ..Default::default() })?;

    assert_eq!(output, "alpha beta\ngamma delta\n");
    Ok(())
}

#[test]
fn paragraphs_without_a_width_limit_keep_source_line_breaks() -> io::Result<()> {
    let blocks = vec![Block::Paragraph(vec![
        Inline::Text(Text::borrowed("alpha")),
        Inline::SoftBreak,
        Inline::Text(Text::borrowed("beta")),
    ])];

    let output = render_plain(&blocks)?;

    assert_eq!(output, "alpha\nbeta\n");
    Ok(())
}

#[test]
fn soft_breaks_reflow_to_spaces_when_a_width_limit_is_set() -> io::Result<()> {
    let blocks = vec![Block::Paragraph(vec![
        Inline::Text(Text::borrowed("alpha beta")),
        Inline::SoftBreak,
        Inline::Text(Text::borrowed("gamma")),
    ])];

    let output =
        render_to_string(&blocks, RenderOptions { width: Some(16), ..Default::default() })?;

    assert_eq!(output, "alpha beta gamma\n");
    Ok(())
}

#[test]
fn hard_breaks_still_break_lines_when_a_width_limit_is_set() -> io::Result<()> {
    let blocks = vec![Block::Paragraph(vec![
        Inline::Text(Text::borrowed("alpha")),
        Inline::HardBreak,
        Inline::Text(Text::borrowed("beta")),
    ])];

    let output =
        render_to_string(&blocks, RenderOptions { width: Some(80), ..Default::default() })?;

    assert_eq!(output, "alpha\nbeta\n");
    Ok(())
}

#[test]
fn headings_wrap_and_keep_their_style_on_continuation_lines() -> io::Result<()> {
    let blocks = vec![Block::Heading(Heading {
        level: HeadingLevel::H1,
        children: vec![Inline::Text(Text::borrowed("alpha beta gamma"))],
    })];

    let output = render_to_string(
        &blocks,
        RenderOptions { color: ColorMode::Ansi, width: Some(11), ..Default::default() },
    )?;

    assert!(output.contains("alpha beta\ngamma"), "heading must wrap: {output:?}");
    let first_newline = output.find('\n');
    let style_reset = output.find("\x1b[0m");
    assert!(
        matches!((first_newline, style_reset), (Some(newline), Some(reset)) if reset > newline),
        "the style must stay open across the wrapped line: {output:?}"
    );
    Ok(())
}

#[test]
fn list_item_paragraphs_wrap_aligned_to_the_content_column() -> io::Result<()> {
    let blocks = vec![Block::List(List {
        kind: ListKind::Unordered,
        items: vec![list_item(None, "alpha beta gamma")],
        loose: false,
    })];

    let output =
        render_to_string(&blocks, RenderOptions { width: Some(12), ..Default::default() })?;

    assert_eq!(output, "• alpha beta\n  gamma\n");
    Ok(())
}

#[test]
fn blockquote_content_wraps_within_the_width_minus_the_quote_prefix() -> io::Result<()> {
    let blocks = vec![Block::BlockQuote(BlockQuote {
        kind: None,
        blocks: vec![Block::Paragraph(vec![Inline::Text(Text::borrowed("alpha beta gamma"))])],
    })];

    let output =
        render_to_string(&blocks, RenderOptions { width: Some(12), ..Default::default() })?;

    assert_eq!(output, "│ alpha beta\n│ gamma\n");
    Ok(())
}

#[test]
fn nested_prefixes_reduce_the_usable_width_cumulatively() -> io::Result<()> {
    let blocks = vec![Block::BlockQuote(BlockQuote {
        kind: None,
        blocks: vec![Block::List(List {
            kind: ListKind::Unordered,
            items: vec![list_item(None, "alpha beta gamma")],
            loose: false,
        })],
    })];

    let output =
        render_to_string(&blocks, RenderOptions { width: Some(14), ..Default::default() })?;

    assert_eq!(output, "│ • alpha beta\n│   gamma\n");
    Ok(())
}

#[test]
fn renderer_uses_the_palette_from_render_options() -> io::Result<()> {
    let sentinel = Rgb { r: 1, g: 2, b: 3 };
    let palette = Palette { heading_colors: [sentinel; 6], ..Palette::default() };
    let blocks = vec![Block::Heading(Heading {
        level: HeadingLevel::H1,
        children: vec![Inline::Text(Text::borrowed("Title"))],
    })];

    let output = render_to_string(
        &blocks,
        RenderOptions { color: ColorMode::Ansi, palette, ..Default::default() },
    )?;

    assert!(
        output.contains("38;2;1;2;3"),
        "the custom heading color must reach the SGR output: {output:?}"
    );
    Ok(())
}

fn render_plain(blocks: &[Block<'_>]) -> io::Result<String> {
    render_to_string(blocks, RenderOptions::default())
}

fn render_ansi(blocks: &[Block<'_>]) -> io::Result<String> {
    render_to_string(blocks, RenderOptions { color: ColorMode::Ansi, ..Default::default() })
}

fn render_to_string(blocks: &[Block<'_>], options: RenderOptions) -> io::Result<String> {
    let renderer = Renderer::new(options);
    let mut output = Vec::new();
    let mut state = RenderState::default();
    for block in blocks {
        renderer.render_block(&mut output, block, &mut state);
    }
    renderer.finish(&mut output, &state);
    utf8(output)
}

fn rust_code_blocks(info: &'static str, text: &'static str) -> Vec<Block<'static>> {
    vec![Block::CodeBlock(CodeBlock {
        info: Some(Text::borrowed(info)),
        text: Text::borrowed(text),
    })]
}

fn assert_code_body_has_distinct_syntax_colors(output: &str) -> io::Result<()> {
    let body_line = output
        .split('\n')
        .nth(1)
        .ok_or_else(|| io::Error::other("rendered code block did not contain a body line"))?;
    let colors = ansi_rgb_colors(body_line);

    assert!(
        colors.len() > 1,
        "expected more than one syntax color in code body, got {colors:?}",
    );
    Ok(())
}

fn ansi_rgb_colors(text: &str) -> BTreeSet<String> {
    let mut colors = BTreeSet::new();
    for sequence in text.split("\u{1b}[").skip(1) {
        if let Some((parameters, _text)) = sequence.split_once('m') {
            if let Some(color) = rgb_color_parameter(parameters) {
                colors.insert(color);
            }
        }
    }
    colors
}

fn rgb_color_parameter(parameters: &str) -> Option<String> {
    let mut parts = parameters.split(';');
    while let Some(part) = parts.next() {
        if part == "38" && parts.next() == Some("2") {
            let red = parts.next()?;
            let green = parts.next()?;
            let blue = parts.next()?;
            return Some(format!("{red};{green};{blue}"));
        }
    }
    None
}

fn strip_ansi(text: &str) -> String {
    let mut output = String::with_capacity(text.len());
    let mut chars = text.chars().peekable();
    while let Some(ch) = chars.next() {
        if ch == '\u{1b}' && chars.next_if_eq(&'[').is_some() {
            for parameter in chars.by_ref() {
                if parameter.is_ascii_alphabetic() {
                    break;
                }
            }
        } else {
            output.push(ch);
        }
    }
    output
}

fn paragraph(text: &'static str) -> Block<'static> {
    Block::Paragraph(vec![Inline::Text(Text::borrowed(text))])
}

fn list_item(task: Option<TaskState>, text: &'static str) -> ListItem<'static> {
    ListItem { task, blocks: vec![Block::Paragraph(vec![Inline::Text(Text::borrowed(text))])] }
}

#[test]
fn highlighting_errors_fall_back_to_plain_code_body() -> io::Result<()> {
    let code_block = CodeBlock {
        info: Some(Text::borrowed("rust")),
        text: Text::borrowed("fn main() {}\n"),
    };
    let mut output = Vec::new();
    mp::write_code_block(
        &mut output,
        RenderOptions { color: ColorMode::Ansi, ..Default::default() },
        &code_block,
        &None,
    );
    output.push(b'\n');

    assert_eq!(
        utf8(output)?,
        "\u{1b}[2;38;2;88;110;117m```rust\u{1b}[0m\n\
         \u{1b}[38;2;42;161;152mfn main() {}\n\u{1b}[0m\
         \u{1b}[2;38;2;88;110;117m```\u{1b}[0m\n",
    );
    Ok(())
}
