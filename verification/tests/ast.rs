use mp::{
    Alignment, Block, BlockQuote, CodeBlock, Document, Heading, HeadingLevel, Inline, LinkKind, List,
    ListItem, ListKind, Table, Text,
};

#[test]
fn represents_block_nodes() {
    let document_blocks = [
        Block::Paragraph(vec![Inline::Text(Text::borrowed("paragraph"))]),
        Block::Heading(Heading {
            level: HeadingLevel::H2,
            children: vec![Inline::Text(Text::borrowed("heading"))],
        }),
        Block::List(List {
            kind: ListKind::Unordered,
            items: vec![ListItem {
                task: None,
                blocks: vec![Block::Paragraph(vec![Inline::Text(Text::borrowed("item"))])],
            }],
            loose: false,
        }),
        Block::BlockQuote(BlockQuote {
            kind: None,
            blocks: vec![Block::Paragraph(vec![Inline::Text(Text::borrowed("quote"))])],
        }),
        Block::Table(Table {
            header: vec![vec![Inline::Text(Text::borrowed("name"))]],
            alignments: vec![Alignment::Left],
            rows: vec![vec![vec![Inline::Text(Text::borrowed("mp"))]]],
        }),
        Block::CodeBlock(CodeBlock {
            info: Some(Text::borrowed("rust")),
            text: Text::borrowed("fn main() {}\n"),
        }),
        Block::HtmlBlock(Text::borrowed("<div>raw</div>\n")),
        Block::ThematicBreak,
        Block::BlankLine,
    ];

    assert_eq!(document_blocks.len(), 9);
}

#[test]
fn preserves_fenced_code_block_info_and_literal_content() {
    let block = CodeBlock {
        info: Some(Text::borrowed("mermaid")),
        text: Text::borrowed("graph TD;\nA-->B;\n"),
    };

    assert_eq!(block.info, Some(Text::borrowed("mermaid")));
    assert_eq!(block.text, Text::borrowed("graph TD;\nA-->B;\n"));
}

#[test]
fn represents_an_empty_document() {
    let document = Document::default();

    assert_eq!(document.blocks, Vec::<Block<'_>>::new());
}

#[test]
fn represents_inline_nodes() {
    let inlines = vec![
        Inline::Text(Text::borrowed("text")),
        Inline::Emphasis(vec![Inline::Text(Text::borrowed("em"))]),
        Inline::Strong(vec![Inline::Text(Text::borrowed("strong"))]),
        Inline::Strikethrough(vec![Inline::Text(Text::borrowed("strike"))]),
        Inline::Code(Text::borrowed("code")),
        Inline::Link {
            destination: Text::borrowed("https://example.com"),
            title: Some(Text::borrowed("Example")),
            kind: LinkKind::Regular,
            children: vec![Inline::Text(Text::borrowed("link"))],
        },
        Inline::Image {
            destination: Text::borrowed("image.png"),
            title: Some(Text::borrowed("Image")),
            alt: vec![Inline::Text(Text::borrowed("alt"))],
        },
        Inline::HardBreak,
        Inline::SoftBreak,
    ];

    assert_eq!(inlines.len(), 9);
}

#[test]
fn textual_fields_can_borrow_from_the_input_markdown() {
    let input = String::from("borrowed text");
    let inline = Inline::Text(Text::borrowed(input.as_str()));

    assert_eq!(inline, Inline::Text(Text::borrowed("borrowed text")));
}

#[test]
fn heading_depths_run_from_one_to_six() {
    let levels = [
        HeadingLevel::H1,
        HeadingLevel::H2,
        HeadingLevel::H3,
        HeadingLevel::H4,
        HeadingLevel::H5,
        HeadingLevel::H6,
    ];
    let depths: Vec<u8> = levels.iter().map(|level| level.depth()).collect();

    assert_eq!(depths, vec![1, 2, 3, 4, 5, 6]);
    assert_eq!(HeadingLevel::COUNT, 6);
}
