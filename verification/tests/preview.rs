use std::io;

use mp::{preview, render_stream, Block, Inline, PreviewError, RenderOptions, Renderer, Text};

fn paragraph(text: &'static str) -> Block<'static> {
    Block::Paragraph(vec![Inline::Text(Text::borrowed(text))])
}

fn utf8(bytes: Vec<u8>) -> Result<String, PreviewError> {
    String::from_utf8(bytes)
        .map_err(|error| PreviewError::Write(io::Error::new(io::ErrorKind::InvalidData, error)))
}

#[test]
fn preview_renders_markdown_text_to_the_writer() -> Result<(), PreviewError> {
    let mut output = Vec::new();
    preview("# Title\n\nHello\n", RenderOptions::default(), &mut output)?;

    let rendered = utf8(output)?;
    assert_eq!(rendered, "Title\n\nHello\n");
    Ok(())
}

#[test]
fn preview_error_exposes_the_underlying_cause_via_source() {
    let error = PreviewError::Write(io::Error::other("disk full"));

    assert!(!error.message().is_empty());
    let source = error.write_source();
    assert!(source.is_some_and(|cause| cause.to_string().contains("disk full")));
}

#[test]
fn stream_errors_after_partial_output_still_terminate_with_a_newline() -> Result<(), PreviewError> {
    let renderer = Renderer::new(RenderOptions::default());
    let blocks = vec![Ok(paragraph("hello")), Err(PreviewError::Write(io::Error::other("boom")))];
    let mut output = Vec::new();
    let result = render_stream(&renderer, blocks, &mut output);

    assert!(matches!(result, Err(PreviewError::Write(_))));
    assert_eq!(utf8(output)?, "hello\n");
    Ok(())
}

#[test]
fn stream_errors_before_any_output_write_nothing() -> Result<(), PreviewError> {
    let renderer = Renderer::new(RenderOptions::default());
    let blocks: Vec<Result<Block<'_>, PreviewError>> =
        vec![Err(PreviewError::Write(io::Error::other("boom")))];
    let mut output = Vec::new();
    let result = render_stream(&renderer, blocks, &mut output);

    assert!(matches!(result, Err(PreviewError::Write(_))));
    assert_eq!(utf8(output)?, "");
    Ok(())
}

#[test]
fn blocks_after_a_stream_error_are_not_rendered() -> Result<(), PreviewError> {
    let renderer = Renderer::new(RenderOptions::default());
    let blocks = vec![
        Ok(paragraph("first")),
        Err(PreviewError::Write(io::Error::other("boom"))),
        Ok(paragraph("never")),
    ];
    let mut output = Vec::new();
    let result = render_stream(&renderer, blocks, &mut output);

    assert!(result.is_err());
    assert_eq!(utf8(output)?, "first\n");
    Ok(())
}

#[test]
fn preview_of_blank_input_writes_nothing() -> Result<(), PreviewError> {
    let mut output = Vec::new();
    preview("", RenderOptions::default(), &mut output)?;
    preview("\n\n\n", RenderOptions::default(), &mut output)?;

    assert!(output.is_empty());
    Ok(())
}

#[test]
fn preview_messages_name_the_failure() {
    let parse = PreviewError::Parse(mp::ParseError::new("markdown list ended out of order"));

    assert_eq!(parse.message(), "unable to parse the Markdown document");
    assert!(parse.write_source().is_none());
    assert_eq!(
        parse.parse_source().map(|error| error.message()),
        Some("markdown list ended out of order")
    );
}
