use std::io;

use mp::{display_width, visible_width, WordWrapWriter};



#[test]
fn passes_text_within_the_width_limit_through_unchanged() -> io::Result<()> {
    let mut wrapper = WordWrapWriter::new(80);

    wrapper.write(b"hello world");
    let output = wrapper.finish();

    assert_eq!(String::from_utf8_lossy(&output), "hello world");
    Ok(())
}

#[test]
fn wraps_at_the_last_space_before_the_limit() -> io::Result<()> {
    let mut wrapper = WordWrapWriter::new(11);

    wrapper.write(b"hello world again");
    let output = wrapper.finish();

    assert_eq!(String::from_utf8_lossy(&output), "hello world\nagain");
    Ok(())
}

#[test]
fn preserves_interior_space_runs_that_fit_on_the_line() -> io::Result<()> {
    let mut wrapper = WordWrapWriter::new(80);

    // Inline code spans rely on interior spaces surviving verbatim.
    wrapper.write(b"a  b   c");
    let output = wrapper.finish();

    assert_eq!(String::from_utf8_lossy(&output), "a  b   c");
    Ok(())
}

#[test]
fn drops_the_separator_only_at_the_wrap_point() -> io::Result<()> {
    let mut wrapper = WordWrapWriter::new(6);

    // The interior run of spaces is kept while it fits, but the separator
    // before the word that overflows the line is dropped at the wrap.
    wrapper.write(b"aa  bb cc");
    let output = wrapper.finish();

    assert_eq!(String::from_utf8_lossy(&output), "aa  bb\ncc");
    Ok(())
}

#[test]
fn hard_breaks_a_word_wider_than_the_limit_at_a_grapheme_boundary() -> io::Result<()> {
    let mut wrapper = WordWrapWriter::new(5);

    wrapper.write(b"abcdefgh end");
    let output = wrapper.finish();

    assert_eq!(String::from_utf8_lossy(&output), "abcde\nfgh\nend");
    Ok(())
}

#[test]
fn counts_fullwidth_characters_as_two_columns() -> io::Result<()> {
    let mut wrapper = WordWrapWriter::new(5);

    wrapper.write("日本 語学".as_bytes());
    let output = wrapper.finish();

    assert_eq!(String::from_utf8_lossy(&output), "日本\n語学");
    Ok(())
}

#[test]
fn keeps_a_zwj_emoji_cluster_whole_when_it_fits() -> io::Result<()> {
    let mut wrapper = WordWrapWriter::new(3);

    wrapper.write("👩\u{200d}💻".as_bytes());
    let output = wrapper.finish();

    assert_eq!(String::from_utf8_lossy(&output), "👩\u{200d}💻");
    Ok(())
}

#[test]
fn counts_a_tab_as_a_single_column_and_emits_it_as_a_space() -> io::Result<()> {
    let mut wrapper = WordWrapWriter::new(5);

    wrapper.write(b"ab\tcd\tef");
    let output = wrapper.finish();

    // "ab cd" fills 5 columns, so the next word wraps; tabs render as spaces.
    assert_eq!(String::from_utf8_lossy(&output), "ab cd\nef");
    Ok(())
}

#[test]
fn passes_ansi_escape_sequences_through_as_zero_width() -> io::Result<()> {
    let mut wrapper = WordWrapWriter::new(5);

    wrapper.write(b"\x1b[31mhello\x1b[0m world");
    let output = wrapper.finish();

    assert_eq!(String::from_utf8_lossy(&output), "\x1b[31mhello\x1b[0m\nworld");
    Ok(())
}

#[test]
fn resets_the_line_budget_after_an_explicit_newline() -> io::Result<()> {
    let mut wrapper = WordWrapWriter::new(6);

    wrapper.write(b"abcdef\ngh ij");
    let output = wrapper.finish();

    assert_eq!(String::from_utf8_lossy(&output), "abcdef\ngh ij");
    Ok(())
}

#[test]
fn keeps_width_accounting_when_a_character_is_split_across_writes() -> io::Result<()> {
    let mut wrapper = WordWrapWriter::new(2);
    let bytes = "日本".as_bytes();

    // Split mid-scalar: the first write ends inside the first character.
    wrapper.write(&bytes[..2]);
    wrapper.write(&bytes[2..]);
    let output = wrapper.finish();

    assert_eq!(String::from_utf8_lossy(&output), "日\n本");
    Ok(())
}

#[test]
fn display_width_is_grapheme_and_tab_aware() {
    assert_eq!(display_width("abc"), 3);
    assert_eq!(display_width("日本語"), 6);
    assert_eq!(display_width("e\u{301}"), 1);
    assert_eq!(display_width("👩\u{200d}💻"), 2);
    assert_eq!(display_width("a\tb"), 3);
    assert_eq!(display_width("\t"), 1);
}

#[test]
fn visible_width_ignores_escape_sequences_and_matches_display_width() {
    assert_eq!(visible_width(b"\x1b[31mhello\x1b[0m"), 5);
    assert_eq!(visible_width("👩\u{200d}💻".as_bytes()), 2);
}

#[test]
fn a_word_wider_than_the_limit_after_other_words_starts_a_new_line() {
    let mut wrapper = WordWrapWriter::new(4);

    wrapper.write(b"ab cdefgh");
    let output = wrapper.finish();

    assert_eq!(String::from_utf8_lossy(&output), "ab\ncdef\ngh");
}

#[test]
fn separators_at_a_line_edge_are_dropped() {
    let mut wrapper = WordWrapWriter::new(3);

    wrapper.write(b"  ab  ");
    let output = wrapper.finish();

    assert_eq!(String::from_utf8_lossy(&output), "ab");
}
