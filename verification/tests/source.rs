use mp::{gap_has_blank_line, gap_has_blockquote_blank_line, trim_trailing_blank_gap_end};

#[test]
fn detects_blank_lines_in_plain_and_blockquote_gaps() {
    assert!(gap_has_blank_line("\n\n"));
    assert!(gap_has_blockquote_blank_line(">\n"));
}

#[test]
fn treats_single_newline_followed_by_only_whitespace_as_blank_line() {
    assert!(gap_has_blank_line("\n  "));
    assert!(gap_has_blank_line("\r\n\t"));
}

#[test]
fn keeps_single_newline_followed_by_non_whitespace_as_no_blank_line() {
    assert!(!gap_has_blank_line("\nx"));
    assert!(!gap_has_blank_line("\n> b"));
}

#[test]
fn quote_marker_lines_count_as_blank_only_when_nothing_follows_the_marker() {
    assert!(gap_has_blockquote_blank_line("\n  >  \n"));
    assert!(gap_has_blockquote_blank_line("> \u{a0}"));
    assert!(!gap_has_blockquote_blank_line("\n> b"));
    assert!(!gap_has_blockquote_blank_line("x >\n"));
}

#[test]
fn trims_the_trailing_blank_gap_of_a_block_range() {
    let source = b"para\n\nnext\r\n\r\nend";
    assert_eq!(trim_trailing_blank_gap_end(source, 0, 6), 5);
    assert_eq!(trim_trailing_blank_gap_end(source, 6, 14), 12);
    assert_eq!(trim_trailing_blank_gap_end(source, 0, 4), 4);
}
