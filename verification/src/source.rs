//! Reading the source text between blocks: blank-line gaps and block ends.

use vstd::prelude::*;
use vstd::string::{StrSliceExecFns, StringSliceAdditionalSpecFns};

verus! {

/// The number of newline bytes in `bytes`.
pub open spec fn newline_count(bytes: Seq<u8>) -> nat
    decreases bytes.len(),
{
    if bytes.len() == 0 {
        0
    } else {
        newline_count(bytes.drop_last()) + if bytes.last() == 10u8 {
            1nat
        } else {
            0nat
        }
    }
}

/// Whether `byte` is a newline, carriage return, space or tab.
pub open spec fn is_gap_space(byte: u8) -> bool {
    byte == 10u8 || byte == 13u8 || byte == 32u8 || byte == 9u8
}

/// Whether the gap between two blocks holds a blank line: two newlines, or a single
/// newline with nothing but whitespace around it (the parser starts the next block
/// after its indentation, so a blank line can collapse to that).
pub open spec fn spec_gap_has_blank_line(gap: Seq<u8>) -> bool {
    newline_count(gap) >= 2 || (newline_count(gap) == 1 && forall|i: int|
        0 <= i < gap.len() ==> is_gap_space(#[trigger] gap[i]))
}

/// Returns whether the gap between two blocks holds a blank line.
pub fn gap_has_blank_line(gap: &str) -> (r: bool)
    ensures
        r == spec_gap_has_blank_line(gap.spec_bytes()),
{
    blank_line_in_gap(gap.as_bytes())
}

/// Returns whether the bytes of a gap between two blocks hold a blank line.
pub fn blank_line_in_gap(gap: &[u8]) -> (r: bool)
    ensures
        r == spec_gap_has_blank_line(gap@),
{
    let mut newlines: usize = 0;
    let mut all_space = true;
    let mut index: usize = 0;
    while index < gap.len()
        invariant
            index <= gap@.len(),
            newlines == newline_count(gap@.take(index as int)),
            newlines <= index,
            all_space == (forall|i: int| 0 <= i < index ==> is_gap_space(#[trigger] gap@[i])),
        decreases gap@.len() - index,
    {
        let byte = gap[index];
        assert(gap@.take(index + 1).drop_last() =~= gap@.take(index as int));
        if byte == 10 {
            newlines += 1;
        }
        if !(byte == 10 || byte == 13 || byte == 32 || byte == 9) {
            all_space = false;
        }
        index += 1;
    }
    assert(gap@.take(gap@.len() as int) =~= gap@);
    newlines >= 2 || (newlines == 1 && all_space)
}

/// Whether `bytes` ends with `suffix`.
pub open spec fn ends_with(bytes: Seq<u8>, suffix: Seq<u8>) -> bool {
    bytes.len() >= suffix.len() && bytes.subrange(bytes.len() - suffix.len(), bytes.len() as int)
        == suffix
}

/// Where a block's trailing blank gap starts: before the last line break of a text
/// ending in a blank line (`\r\n\r\n` gives back two bytes, `\n\n` one), else its end.
pub open spec fn spec_trimmed_end(text: Seq<u8>, end: usize) -> usize {
    if ends_with(text, seq![13u8, 10u8, 13u8, 10u8]) {
        if end >= 2 {
            (end - 2) as usize
        } else {
            0
        }
    } else if ends_with(text, seq![10u8, 10u8]) {
        if end >= 1 {
            (end - 1) as usize
        } else {
            0
        }
    } else {
        end
    }
}

/// Returns the end of the block at `start..end` of `source` without its trailing
/// blank gap.
pub fn trim_trailing_blank_gap_end(source: &[u8], start: usize, end: usize) -> (r: usize)
    requires
        start <= end <= source@.len(),
    ensures
        r == spec_trimmed_end(source@.subrange(start as int, end as int), end),
{
    let ghost text = source@.subrange(start as int, end as int);
    let length = end - start;
    if length >= 4 && source[end - 4] == 13 && source[end - 3] == 10 && source[end - 2] == 13
        && source[end - 1] == 10 {
        assert(text.subrange(text.len() - 4, text.len() as int) =~= seq![13u8, 10u8, 13u8, 10u8]);
        return end - 2;
    }
    proof {
        if ends_with(text, seq![13u8, 10u8, 13u8, 10u8]) {
            let tail = text.subrange(text.len() - 4, text.len() as int);
            assert(tail[0] == source@[end - 4]);
            assert(tail[1] == source@[end - 3]);
            assert(tail[2] == source@[end - 2]);
            assert(tail[3] == source@[end - 1]);
        }
    }
    if length >= 2 && source[end - 2] == 10 && source[end - 1] == 10 {
        assert(text.subrange(text.len() - 2, text.len() as int) =~= seq![10u8, 10u8]);
        return end - 1;
    }
    proof {
        if ends_with(text, seq![10u8, 10u8]) {
            let tail = text.subrange(text.len() - 2, text.len() as int);
            assert(tail[0] == source@[end - 2]);
            assert(tail[1] == source@[end - 1]);
        }
    }
    end
}

/// Unicode white space, as `char::is_whitespace` defines it.
pub open spec fn is_unicode_space(c: char) -> bool {
    ('\t' <= c && c <= '\r') || c == ' ' || c == '\u{85}' || c == '\u{a0}' || c == '\u{1680}' || (
    '\u{2000}' <= c && c <= '\u{200a}') || c == '\u{2028}' || c == '\u{2029}' || c == '\u{202f}'
        || c == '\u{205f}' || c == '\u{3000}'
}

fn is_unicode_space_char(c: char) -> (r: bool)
    ensures
        r == is_unicode_space(c),
{
    ('\t' <= c && c <= '\r') || c == ' ' || c == '\u{85}' || c == '\u{a0}' || c == '\u{1680}' || (
    '\u{2000}' <= c && c <= '\u{200a}') || c == '\u{2028}' || c == '\u{2029}' || c == '\u{202f}'
        || c == '\u{205f}' || c == '\u{3000}'
}

/// How far a line has matched the shape of a blank quote line: `>` after optional
/// spaces and tabs, then only white space.
#[derive(Debug, Clone, Copy, PartialEq, Eq, Structural)]
pub enum QuoteLineScan {
    /// Only spaces and tabs so far.
    Indent,
    /// The marker and then only white space.
    Marker,
    /// Anything else.
    Content,
}

/// The scan after one more character of a line.
pub open spec fn quote_scan_step(scan: QuoteLineScan, c: char) -> QuoteLineScan {
    match scan {
        QuoteLineScan::Indent => if c == ' ' || c == '\t' {
            QuoteLineScan::Indent
        } else if c == '>' {
            QuoteLineScan::Marker
        } else {
            QuoteLineScan::Content
        },
        QuoteLineScan::Marker => if is_unicode_space(c) {
            QuoteLineScan::Marker
        } else {
            QuoteLineScan::Content
        },
        QuoteLineScan::Content => QuoteLineScan::Content,
    }
}

/// Scans the lines of `text`: whether a finished line was a blank quote line, and
/// how far the current line has matched.
pub open spec fn quote_scan(text: Seq<char>) -> (bool, QuoteLineScan)
    decreases text.len(),
{
    if text.len() == 0 {
        (false, QuoteLineScan::Indent)
    } else {
        let (found, scan) = quote_scan(text.drop_last());
        if text.last() == '\n' {
            (found || scan == QuoteLineScan::Marker, QuoteLineScan::Indent)
        } else {
            (found, quote_scan_step(scan, text.last()))
        }
    }
}

/// Whether some line of `text` is a blank quote line: `>` after optional spaces and
/// tabs, followed by nothing but white space.
pub open spec fn has_blank_quote_line(text: Seq<char>) -> bool {
    quote_scan(text).0 || quote_scan(text).1 == QuoteLineScan::Marker
}

/// Returns whether the gap between blocks inside a quote holds a blank line: a
/// plain blank line, or a line holding only the quote marker.
pub fn gap_has_blockquote_blank_line(gap: &str) -> (r: bool)
    ensures
        r == (spec_gap_has_blank_line(gap.spec_bytes()) || has_blank_quote_line(gap@)),
{
    if blank_line_in_gap(gap.as_bytes()) {
        return true;
    }
    let length = gap.unicode_len();
    let mut found = false;
    let mut scan = QuoteLineScan::Indent;
    let mut index: usize = 0;
    while index < length
        invariant
            index <= length == gap@.len(),
            (found, scan) == quote_scan(gap@.take(index as int)),
        decreases length - index,
    {
        let c = gap.get_char(index);
        assert(gap@.take(index + 1).drop_last() =~= gap@.take(index as int));
        if c == '\n' {
            found = found || scan == QuoteLineScan::Marker;
            scan = QuoteLineScan::Indent;
        } else {
            scan = match scan {
                QuoteLineScan::Indent => if c == ' ' || c == '\t' {
                    QuoteLineScan::Indent
                } else if c == '>' {
                    QuoteLineScan::Marker
                } else {
                    QuoteLineScan::Content
                },
                QuoteLineScan::Marker => if is_unicode_space_char(c) {
                    QuoteLineScan::Marker
                } else {
                    QuoteLineScan::Content
                },
                QuoteLineScan::Content => QuoteLineScan::Content,
            };
        }
        index += 1;
    }
    assert(gap@.take(length as int) =~= gap@);
    found || scan == QuoteLineScan::Marker
}

} // verus!
