use mp::{write_repeated_str, write_spaces, LinePrefix, LinePrefixWriter, WidthMeasuringWriter};

fn quote_prefix() -> LinePrefix {
    LinePrefix { normal: b"> ".to_vec(), blank: b"> ".to_vec() }
}

#[test]
fn width_measuring_writer_measures_ascii_and_fullwidth_text() {
    let mut counter = WidthMeasuringWriter::default();

    counter.write("a日b".as_bytes());

    assert_eq!(counter.width(), 4);
}

#[test]
fn width_measuring_writer_handles_utf8_split_across_writes() {
    let mut counter = WidthMeasuringWriter::default();
    let bytes = "日本語".as_bytes();

    // Split mid-scalar: the first write ends inside the second character.
    counter.write(&bytes[..4]);
    counter.write(&bytes[4..]);

    assert_eq!(counter.width(), 6);
}

#[test]
fn line_prefix_writer_prefixes_all_lines_with_write_all() {
    let mut prefixed = LinePrefixWriter::new(quote_prefix(), false);

    prefixed.write(b"a\nb");
    let output = prefixed.into_output();

    assert_eq!(String::from_utf8_lossy(&output), "> a\n> b");
}

#[test]
fn appends_no_prefix_after_a_trailing_newline() {
    let mut prefixed = LinePrefixWriter::new(quote_prefix(), false);

    prefixed.write(b"a\n");
    let output = prefixed.into_output();

    assert_eq!(String::from_utf8_lossy(&output), "> a\n");
}

#[test]
fn hanging_writer_skips_the_prefix_on_the_first_line_only() {
    let mut prefixed =
        LinePrefixWriter::new(LinePrefix { normal: b"  ".to_vec(), blank: b"  ".to_vec() }, true);

    prefixed.write(b"a\nb\nc");
    let output = prefixed.into_output();

    assert_eq!(String::from_utf8_lossy(&output), "a\n  b\n  c");
}

#[test]
fn writes_nothing_when_unused() {
    let prefixed = LinePrefixWriter::new(quote_prefix(), false);

    assert!(!prefixed.wrote_anything());
    let output = prefixed.into_output();
    assert!(output.is_empty(), "an unused writer must not emit an orphaned prefix");
}

#[test]
fn writes_repeated_text_in_chunks_without_changing_output() {
    let mut output = Vec::new();

    write_repeated_str(&mut output, "─", 100);

    assert_eq!(String::from_utf8_lossy(&output), "─".repeat(100));
}

#[test]
fn writes_large_repeated_text_that_does_not_fit_the_stack_buffer() {
    let mut output = Vec::new();
    let text = "x".repeat(300);

    write_repeated_str(&mut output, &text, 2);

    assert_eq!(String::from_utf8_lossy(&output), text.repeat(2));
}

#[test]
fn blank_lines_get_the_blank_prefix() {
    let mut prefixed =
        LinePrefixWriter::new(LinePrefix { normal: b"| ".to_vec(), blank: b"|".to_vec() }, false);

    prefixed.write(b"a\n\nb");
    assert!(prefixed.wrote_anything());
    let output = prefixed.into_output();

    assert_eq!(String::from_utf8_lossy(&output), "| a\n|\n| b");
}

#[test]
fn writes_runs_of_spaces() {
    let mut output = b"x".to_vec();

    write_spaces(&mut output, 70);

    assert_eq!(output.len(), 71);
    assert!(output[1..].iter().all(|byte| *byte == b' '));
}
