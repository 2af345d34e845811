use mp::{
    blocks_from_events, Alignment, AstBuilder, Block, CodeBlock, CodeFence, Heading, HeadingLevel, Inline, LinkKind,
    MarkdownEvent, MdLinkType, NodeEnd, NodeStart, ParseError, Table, Text,
};

fn feed<'a>(
    source: &'a str,
    events: Vec<(MarkdownEvent<'a>, usize, usize)>,
) -> Result<Vec<Block<'a>>, ParseError> {
    let mut builder = AstBuilder::new(source);
    for (event, start, end) in events {
        builder.push_event(event, start, end)?;
    }
    builder.finish()
}

#[test]
fn builder_assembles_blocks_with_a_blank_line_between_separated_blocks() -> Result<(), ParseError> {
    let source = "# Title\n\nHello";
    let blocks = feed(
        source,
        vec![
            (MarkdownEvent::Start(NodeStart::Heading(HeadingLevel::H1)), 0, 8),
            (MarkdownEvent::Text(Text::borrowed("Title")), 2, 7),
            (MarkdownEvent::End(NodeEnd::Heading), 0, 8),
            (MarkdownEvent::Start(NodeStart::Paragraph), 9, 14),
            (MarkdownEvent::Text(Text::borrowed("Hello")), 9, 14),
            (MarkdownEvent::End(NodeEnd::Paragraph), 9, 14),
        ],
    )?;

    assert_eq!(
        blocks,
        vec![
            Block::Heading(Heading {
                level: HeadingLevel::H1,
                children: vec![Inline::Text(Text::borrowed("Title"))],
            }),
            Block::BlankLine,
            Block::Paragraph(vec![Inline::Text(Text::borrowed("Hello"))]),
        ]
    );
    Ok(())
}

#[test]
fn builder_rejects_an_end_that_does_not_match_the_open_node() {
    let result = feed(
        "x",
        vec![
            (MarkdownEvent::Start(NodeStart::Paragraph), 0, 1),
            (MarkdownEvent::End(NodeEnd::Heading), 0, 1),
        ],
    );

    assert!(result.is_err());
}

#[test]
fn builder_rejects_a_document_with_unclosed_nodes() {
    let result = feed("x", vec![(MarkdownEvent::Start(NodeStart::Paragraph), 0, 1)]);

    assert!(result.is_err());
}

#[test]
fn builder_drops_everything_inside_an_ignored_node() -> Result<(), ParseError> {
    let blocks = feed(
        "x",
        vec![
            (MarkdownEvent::Start(NodeStart::Ignored), 0, 1),
            (MarkdownEvent::Start(NodeStart::Paragraph), 0, 1),
            (MarkdownEvent::Text(Text::borrowed("x")), 0, 1),
            (MarkdownEvent::End(NodeEnd::Paragraph), 0, 1),
            (MarkdownEvent::End(NodeEnd::Ignored), 0, 1),
        ],
    )?;

    assert!(blocks.is_empty());
    Ok(())
}

#[test]
fn builder_puts_header_cells_into_the_table_header() -> Result<(), ParseError> {
    let blocks = feed(
        "| H |\n|---|\n| x |",
        vec![
            (MarkdownEvent::Start(NodeStart::Table(vec![Alignment::Left])), 0, 17),
            (MarkdownEvent::Start(NodeStart::TableHead), 0, 6),
            (MarkdownEvent::Start(NodeStart::TableCell), 1, 4),
            (MarkdownEvent::Text(Text::borrowed("H")), 2, 3),
            (MarkdownEvent::End(NodeEnd::TableCell), 1, 4),
            (MarkdownEvent::End(NodeEnd::TableHead), 0, 6),
            (MarkdownEvent::Start(NodeStart::TableRow), 12, 17),
            (MarkdownEvent::Start(NodeStart::TableCell), 13, 16),
            (MarkdownEvent::Text(Text::borrowed("x")), 14, 15),
            (MarkdownEvent::End(NodeEnd::TableCell), 13, 16),
            (MarkdownEvent::End(NodeEnd::TableRow), 12, 17),
            (MarkdownEvent::End(NodeEnd::Table), 0, 17),
        ],
    )?;

    assert_eq!(
        blocks,
        vec![Block::Table(Table {
            header: vec![vec![Inline::Text(Text::borrowed("H"))]],
            alignments: vec![Alignment::Left],
            rows: vec![vec![vec![Inline::Text(Text::borrowed("x"))]]],
        })]
    );
    Ok(())
}

#[test]
fn builder_rejects_a_task_marker_outside_a_list_item() {
    let result = feed(
        "x",
        vec![
            (MarkdownEvent::Start(NodeStart::Paragraph), 0, 1),
            (MarkdownEvent::TaskListMarker(true), 0, 1),
        ],
    );

    assert!(result.is_err());
}

#[test]
fn builder_drops_an_empty_code_fence_info_and_an_empty_link_title() -> Result<(), ParseError> {
    let blocks = feed(
        "```\ncode\n```\n[a](b)",
        vec![
            (MarkdownEvent::Start(NodeStart::CodeBlock(CodeFence::Fenced(Text::borrowed("")))), 0, 13),
            (MarkdownEvent::Text(Text::borrowed("code\n")), 4, 9),
            (MarkdownEvent::End(NodeEnd::CodeBlock), 0, 13),
            (MarkdownEvent::Start(NodeStart::Paragraph), 13, 19),
            (
                MarkdownEvent::Start(NodeStart::Link {
                    link_type: MdLinkType::Inline,
                    destination: Text::borrowed("b"),
                    title: Text::borrowed(""),
                }),
                13,
                19,
            ),
            (MarkdownEvent::Text(Text::borrowed("a")), 14, 15),
            (MarkdownEvent::End(NodeEnd::Link), 13, 19),
            (MarkdownEvent::End(NodeEnd::Paragraph), 13, 19),
        ],
    )?;

    assert_eq!(
        blocks,
        vec![
            Block::CodeBlock(CodeBlock { info: None, text: Text::borrowed("code\n") }),
            Block::Paragraph(vec![Inline::Link {
                destination: Text::borrowed("b"),
                title: None,
                kind: LinkKind::Regular,
                children: vec![Inline::Text(Text::borrowed("a"))],
            }]),
        ]
    );
    Ok(())
}

#[test]
fn builder_shows_autolinks_without_their_destination() -> Result<(), ParseError> {
    let blocks = feed(
        "<https://a.b>",
        vec![
            (MarkdownEvent::Start(NodeStart::Paragraph), 0, 13),
            (
                MarkdownEvent::Start(NodeStart::Link {
                    link_type: MdLinkType::Autolink,
                    destination: Text::borrowed("https://a.b"),
                    title: Text::borrowed(""),
                }),
                0,
                13,
            ),
            (MarkdownEvent::Text(Text::borrowed("https://a.b")), 1, 12),
            (MarkdownEvent::End(NodeEnd::Link), 0, 13),
            (MarkdownEvent::End(NodeEnd::Paragraph), 0, 13),
        ],
    )?;

    assert_eq!(
        blocks,
        vec![Block::Paragraph(vec![Inline::Link {
            destination: Text::borrowed("https://a.b"),
            title: None,
            kind: LinkKind::Autolink,
            children: vec![Inline::Text(Text::borrowed("https://a.b"))],
        }])]
    );
    Ok(())
}

#[test]
fn assembling_stops_at_the_first_refused_event_after_the_blocks_before_it() {
    let output = blocks_from_events(
        "a",
        vec![
            (MarkdownEvent::Start(NodeStart::Paragraph), 0, 1),
            (MarkdownEvent::Text(Text::borrowed("a")), 0, 1),
            (MarkdownEvent::End(NodeEnd::Paragraph), 0, 1),
            (MarkdownEvent::End(NodeEnd::Heading), 0, 1),
            (MarkdownEvent::Start(NodeStart::Paragraph), 0, 1),
        ],
    );

    assert_eq!(output.len(), 2);
    assert_eq!(
        output[0].as_ref().ok(),
        Some(&Block::Paragraph(vec![Inline::Text(Text::borrowed("a"))]))
    );
    assert!(output[1].is_err());
}

#[test]
fn assembling_reports_nodes_left_open_at_the_end() {
    let output = blocks_from_events("a", vec![(MarkdownEvent::Start(NodeStart::Paragraph), 0, 1)]);

    assert_eq!(output.len(), 1);
    assert!(output[0].is_err());
}

#[test]
fn assembling_no_events_yields_no_blocks() {
    assert!(blocks_from_events("", Vec::new()).is_empty());
}

#[test]
fn appending_a_block_after_a_blank_gap_adds_a_blank_line_first() -> Result<(), ParseError> {
    let mut builder = AstBuilder::new("---\n\n---");
    builder.append_block(Block::ThematicBreak, 0, 4)?;
    builder.append_block(Block::ThematicBreak, 5, 8)?;

    assert_eq!(builder.finish()?, vec![Block::ThematicBreak, Block::BlankLine, Block::ThematicBreak]);
    Ok(())
}

#[test]
fn appending_a_block_outside_a_block_container_fails() {
    let mut builder = AstBuilder::new("x");
    assert!(builder.push_event(MarkdownEvent::Start(NodeStart::Paragraph), 0, 1).is_ok());

    assert!(builder.append_block(Block::ThematicBreak, 0, 1).is_err());
}
