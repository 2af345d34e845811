use mp::{
    Block, BlockQuote, CodeBlock, ColorMode, Heading, HeadingLevel, Inline, RenderOptions, RenderState,
    Renderer, Text,
};

fn render(blocks: &[Block<'_>], options: RenderOptions) -> Vec<u8> {
    let renderer = Renderer::new(options);
    let mut output = Vec::new();
    let mut state = RenderState::default();
    for block in blocks {
        renderer.render_block(&mut output, block, &mut state);
    }
    renderer.finish(&mut output, &state);
    output
}

fn paragraph(text: &'static str) -> Block<'static> {
    Block::Paragraph(vec![Inline::Text(Text::borrowed(text))])
}

#[test]
fn every_non_empty_render_ends_with_a_newline() {
    let documents: Vec<Vec<Block<'static>>> = vec![
        vec![paragraph("a")],
        vec![Block::HtmlBlock(Text::borrowed("<p>x</p>"))],
        vec![Block::BlockQuote(BlockQuote { kind: None, blocks: vec![] })],
        vec![paragraph("a"), Block::BlankLine, Block::ThematicBreak],
        vec![Block::CodeBlock(CodeBlock { info: None, text: Text::borrowed("x") })],
    ];
    for (index, blocks) in documents.iter().enumerate() {
        let output = render(blocks, RenderOptions::default());
        assert_eq!(output.last(), Some(&b'\n'), "document {index}");
    }
}

#[test]
fn a_raw_html_block_with_trailing_newlines_ends_the_output_with_one() {
    let output = render(&[Block::HtmlBlock(Text::borrowed("x\n\n\n"))], RenderOptions::default());

    assert_eq!(output, b"x\n");
}

#[test]
fn a_raw_html_block_keeps_no_trailing_blank_lines_before_the_next_block() {
    let output = render(
        &[Block::HtmlBlock(Text::borrowed("<div>\n\n")), paragraph("after")],
        RenderOptions::default(),
    );

    assert_eq!(output, b"<div>\nafter\n");
}

#[test]
fn a_paragraph_ending_in_line_breaks_ends_the_output_with_one_newline() {
    let blocks = vec![Block::Paragraph(vec![
        Inline::Text(Text::borrowed("a")),
        Inline::HardBreak,
        Inline::HardBreak,
    ])];
    let output = render(&blocks, RenderOptions::default());

    assert_eq!(output.last(), Some(&b'\n'));
    assert!(!output.ends_with(b"\n\n"));
}

#[test]
fn documents_of_blank_lines_render_to_nothing() {
    let output = render(&[Block::BlankLine, Block::BlankLine], RenderOptions::default());

    assert!(output.is_empty());
}

#[test]
fn code_blocks_ignore_the_width_limit() {
    let blocks = vec![Block::CodeBlock(CodeBlock {
        info: Some(Text::borrowed("text")),
        text: Text::borrowed("a very long line that would otherwise wrap\n"),
    })];

    let unlimited = render(&blocks, RenderOptions::default());
    let narrow = render(&blocks, RenderOptions { width: Some(8), ..Default::default() });

    assert_eq!(unlimited, narrow);
}

#[test]
fn plain_mode_writes_no_escape_sequences() {
    let blocks = vec![
        Block::Heading(Heading {
            level: HeadingLevel::H1,
            children: vec![Inline::Strong(vec![Inline::Text(Text::borrowed("Title"))])],
        }),
        paragraph("body"),
        Block::ThematicBreak,
    ];

    let plain = render(&blocks, RenderOptions { color: ColorMode::Plain, ..Default::default() });
    let ansi = render(&blocks, RenderOptions { color: ColorMode::Ansi, ..Default::default() });

    assert!(!plain.contains(&0x1b));
    assert!(ansi.contains(&0x1b));
}

#[test]
fn rendering_block_by_block_matches_rendering_the_stream_whole() {
    let blocks = vec![paragraph("one"), Block::BlankLine, paragraph("two")];
    let whole = render(&blocks, RenderOptions::default());

    let renderer = Renderer::new(RenderOptions::default());
    let mut state = RenderState::default();
    let mut pieces = Vec::new();
    for block in &blocks {
        let mut piece = Vec::new();
        renderer.render_block(&mut piece, block, &mut state);
        pieces.extend(piece);
    }
    renderer.finish(&mut pieces, &state);

    assert_eq!(whole, pieces);
    assert_eq!(whole, b"one\n\ntwo\n");
}

#[test]
fn wrapping_turns_tabs_between_words_into_spaces() {
    let wrapped = mp::word_wrap(b"alpha\tbeta\tgamma", 11);

    assert!(!wrapped.contains(&b'\t'));
    assert_eq!(wrapped, b"alpha beta\ngamma".to_vec());
}

#[test]
fn wrapping_keeps_every_non_blank_byte_in_order() {
    let input = b"one two  three\tfour\nfive sixteen-letters-long";
    let wrapped = mp::word_wrap(input, 7);
    let strip = |bytes: &[u8]| -> Vec<u8> {
        bytes.iter().copied().filter(|b| *b != b' ' && *b != b'\t' && *b != b'\n').collect()
    };

    assert_eq!(strip(&wrapped), strip(input));
}

#[test]
fn every_wrapped_line_fits_the_width() {
    let wrapped = mp::word_wrap(b"the quick brown fox jumps over the lazy dog", 10);
    let text = String::from_utf8(wrapped).unwrap();

    assert_eq!(text, "the quick\nbrown fox\njumps over\nthe lazy\ndog");
    for line in text.split('\n') {
        assert!(mp::display_width(line) <= 10, "{line:?}");
    }
}

#[test]
fn a_word_wider_than_the_limit_is_split_at_clusters() {
    let wrapped = mp::word_wrap("abcdefghij 日本語".as_bytes(), 4);

    assert_eq!(String::from_utf8(wrapped).unwrap(), "abcd\nefgh\nij\n日本\n語");
}

#[test]
fn a_prefixing_writer_gives_the_same_output_however_the_input_is_split() {
    let input = b"a\nbc\n\nd";
    let mut whole = mp::LinePrefixWriter::new(
        mp::LinePrefix { normal: b"> ".to_vec(), blank: b">".to_vec() },
        false,
    );
    whole.write(input);
    for split in 0..=input.len() {
        let mut pieces = mp::LinePrefixWriter::new(
            mp::LinePrefix { normal: b"> ".to_vec(), blank: b">".to_vec() },
            false,
        );
        pieces.write(&input[..split]);
        pieces.write(&input[split..]);
        assert_eq!(pieces.into_output(), b"> a\n> bc\n>\n> d".to_vec(), "split at {split}");
    }
    assert_eq!(whole.into_output(), b"> a\n> bc\n>\n> d".to_vec());
}

#[test]
fn every_line_of_a_table_takes_the_same_columns() {
    let cell = |text: &'static str| vec![Inline::Text(Text::borrowed(text))];
    let table = mp::Table {
        alignments: vec![mp::Alignment::Left, mp::Alignment::Right],
        header: vec![cell("Crate"), cell("Responsibility")],
        rows: vec![vec![cell("mp-ast"), cell("document model shared by every crate")]],
    };
    let output = render(&[Block::Table(table)], RenderOptions { width: Some(24), ..Default::default() });
    let text = String::from_utf8(output).unwrap();
    let widths: Vec<usize> = text.lines().map(mp::display_width).collect();

    assert!(widths.len() > 3);
    assert!(widths.iter().all(|width| *width == widths[0]), "{widths:?}");
    assert!(widths[0] <= 24);
}
