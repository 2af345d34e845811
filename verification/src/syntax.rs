//! Syntax highlighting of fenced code blocks through syntect and the syntax and
//! theme sets bundled with two-face.

use vstd::prelude::*;
use vstd::string::{StrSliceExecFns, StringSliceAdditionalSpecFns};
use vstd::utf8::encode_utf8;

use syntect::easy::HighlightLines;
use syntect::util::LinesWithEndings;
use two_face::theme::EmbeddedThemeName::{SolarizedDark, SolarizedLight};

use crate::options::CodeTheme;
use crate::style::{plain_style, TextStyle, BOLD, DIM, ITALIC, STRIKETHROUGH, UNDERLINE};
use crate::theme::Rgb;

verus! {

/// Largest code block, in bytes, that is highlighted.
pub const MAX_CODE_BLOCK_BYTES: usize = 524288;

/// Largest code block, in lines, that is highlighted.
pub const MAX_CODE_BLOCK_LINES: usize = 10000;

/// A highlighter's style for a piece of code: its foreground color and its font
/// style bits (bold 1, underline 2, italic 4).
#[derive(Debug, Clone, Copy, PartialEq, Eq, Structural)]
pub struct SyntaxStyle {
    /// Foreground color.
    pub fg: Rgb,
    /// Font style bits.
    pub font_style: u8,
}

/// Whether `c` is ASCII whitespace (space, tab, line feed, form feed, carriage return).
pub open spec fn is_ascii_space(c: char) -> bool {
    c == ' ' || c == '\t' || c == '\n' || c == '\x0C' || c == '\r'
}

/// The first index at or after `i` whose character is not ASCII whitespace.
pub open spec fn skip_spaces(s: Seq<char>, i: int) -> int
    decreases s.len() - i,
{
    if i < 0 || i >= s.len() {
        i
    } else if is_ascii_space(s[i]) {
        skip_spaces(s, i + 1)
    } else {
        i
    }
}

/// The first index at or after `i` whose character is ASCII whitespace.
pub open spec fn find_space(s: Seq<char>, i: int) -> int
    decreases s.len() - i,
{
    if i < 0 || i >= s.len() {
        i
    } else if is_ascii_space(s[i]) {
        i
    } else {
        find_space(s, i + 1)
    }
}

/// The first index in `[i, end)` holding a comma, or `end`.
pub open spec fn find_comma(s: Seq<char>, i: int, end: int) -> int
    decreases end - i,
{
    if i >= end {
        end
    } else if s[i] == ',' {
        i
    } else {
        find_comma(s, i + 1, end)
    }
}

/// The language token of an info string: its first whitespace-separated word, cut
/// at the first comma (`rust,no_run` names `rust`); none when that is empty.
pub open spec fn spec_language_token(info: Seq<char>) -> Option<Seq<char>> {
    let start = skip_spaces(info, 0);
    let end = find_comma(info, start, find_space(info, start));
    if start < end {
        Some(info.subrange(start, end))
    } else {
        None
    }
}

proof fn lemma_skip_spaces_bounds(s: Seq<char>, i: int)
    requires
        0 <= i <= s.len(),
    ensures
        i <= skip_spaces(s, i) <= s.len(),
    decreases s.len() - i,
{
    if i < s.len() && is_ascii_space(s[i]) {
        lemma_skip_spaces_bounds(s, i + 1);
    }
}

proof fn lemma_find_space_bounds(s: Seq<char>, i: int)
    requires
        0 <= i <= s.len(),
    ensures
        i <= find_space(s, i) <= s.len(),
    decreases s.len() - i,
{
    if i < s.len() && !is_ascii_space(s[i]) {
        lemma_find_space_bounds(s, i + 1);
    }
}

proof fn lemma_find_comma_bounds(s: Seq<char>, i: int, end: int)
    requires
        i <= end,
    ensures
        i <= find_comma(s, i, end) <= end,
    decreases end - i,
{
    if i < end && s[i] != ',' {
        lemma_find_comma_bounds(s, i + 1, end);
    }
}

fn is_space_char(c: char) -> (r: bool)
    ensures
        r == is_ascii_space(c),
{
    c == ' ' || c == '\t' || c == '\n' || c == '\x0C' || c == '\r'
}

/// Returns the language token of a fenced code block's info string.
pub fn language_token(info: &str) -> (r: Option<&str>)
    ensures
        match r {
            Some(token) => spec_language_token(info@) == Some(token@),
            None => spec_language_token(info@) is None,
        },
{
    let ghost s = info@;
    let len: usize = info.unicode_len();
    let mut start: usize = 0;
    while start < len
        invariant
            start <= len == s.len(),
            s == info@,
            skip_spaces(s, start as int) == skip_spaces(s, 0),
        ensures
            start <= len,
            skip_spaces(s, start as int) == start,
            skip_spaces(s, 0) == start,
        decreases len - start,
    {
        if !is_space_char(info.get_char(start)) {
            break;
        }
        start += 1;
    }
    let mut end: usize = start;
    while end < len
        invariant
            start <= end <= len == s.len(),
            s == info@,
            find_space(s, end as int) == find_space(s, start as int),
        ensures
            start <= end <= len,
            find_space(s, start as int) == end,
        decreases len - end,
    {
        if is_space_char(info.get_char(end)) {
            break;
        }
        end += 1;
    }
    let mut cut: usize = start;
    while cut < end
        invariant
            start <= cut <= end <= len == s.len(),
            s == info@,
            find_comma(s, cut as int, end as int) == find_comma(s, start as int, end as int),
        ensures
            start <= cut <= end,
            find_comma(s, start as int, end as int) == cut,
        decreases end - cut,
    {
        if info.get_char(cut) == ',' {
            break;
        }
        cut += 1;
    }
    if start < cut {
        Some(info.substring_char(start, cut))
    } else {
        None
    }
}

/// The number of lines of `source`, each ending after a newline or at the end
/// of the text.
pub open spec fn line_count(bytes: Seq<u8>) -> nat
    decreases bytes.len(),
{
    if bytes.len() == 0 {
        0
    } else if bytes.len() == 1 || bytes[bytes.len() - 2] == 10u8 {
        line_count(bytes.drop_last()) + 1
    } else {
        line_count(bytes.drop_last())
    }
}

/// Whether a code block is small enough to highlight: at most
/// `MAX_CODE_BLOCK_BYTES` bytes and `MAX_CODE_BLOCK_LINES` lines.
pub open spec fn within_highlight_limits(bytes: Seq<u8>) -> bool {
    bytes.len() <= MAX_CODE_BLOCK_BYTES && line_count(bytes) <= MAX_CODE_BLOCK_LINES
}

proof fn lemma_line_count_monotone(bytes: Seq<u8>, k: int)
    requires
        0 <= k <= bytes.len(),
    ensures
        line_count(bytes.take(k)) <= line_count(bytes),
    decreases bytes.len() - k,
{
    if k < bytes.len() {
        assert(bytes.take(k + 1).drop_last() =~= bytes.take(k));
        lemma_line_count_monotone(bytes, k + 1);
    } else {
        assert(bytes.take(k) =~= bytes);
    }
}

/// Returns whether a code block is small enough to highlight.
pub fn is_within_highlight_limits(source: &str) -> (r: bool)
    ensures
        r == within_highlight_limits(source.spec_bytes()),
{
    let bytes = source.as_bytes();
    if bytes.len() > MAX_CODE_BLOCK_BYTES {
        return false;
    }
    let mut lines: usize = 0;
    let mut index: usize = 0;
    while index < bytes.len()
        invariant
            index <= bytes@.len() <= MAX_CODE_BLOCK_BYTES,
            lines == line_count(bytes@.take(index as int)),
            lines <= MAX_CODE_BLOCK_LINES,
            bytes@ == source.spec_bytes(),
        decreases bytes@.len() - index,
    {
        assert(bytes@.take(index + 1).drop_last() =~= bytes@.take(index as int));
        if index == 0 || bytes[index - 1] == 10 {
            lines += 1;
            if lines > MAX_CODE_BLOCK_LINES {
                proof {
                    lemma_line_count_monotone(bytes@, index + 1);
                }
                return false;
            }
        }
        index += 1;
    }
    assert(bytes@.take(bytes@.len() as int) =~= bytes@);
    true
}

/// What the highlighter makes of `source`, line by line, in the language named by
/// `token` under `theme`: nothing when no syntax matches the token, else for each
/// line its pieces with their styles, or nothing for a line whose highlighting
/// failed.
pub uninterp spec fn spec_highlight_lines(token: Seq<char>, source: Seq<char>, theme: CodeTheme) -> Option<
    Seq<Option<Seq<(SyntaxStyle, Seq<char>)>>>,
>;

/// Highlighted lines as values.
pub open spec fn lines_view(lines: Seq<Option<Vec<(SyntaxStyle, String)>>>) -> Seq<Option<Seq<(SyntaxStyle, Seq<char>)>>> {
    lines.map_values(
        |line: Option<Vec<(SyntaxStyle, String)>>|
            match line {
                Some(pieces) => Some(pieces@.map_values(|p: (SyntaxStyle, String)| (p.0, p.1@))),
                None => None,
            },
    )
}

/// Highlights `source` with syntect, in the syntax that two-face's bundled syntax
/// set (`two_face::syntax::extra_newlines`) finds for `token`
/// (`SyntaxSet::find_syntax_by_token`) and two-face's bundled Solarized theme of
/// the same name as `theme` (`two_face::theme::extra`, `get`): one
/// `HighlightLines::highlight_line` call per line of `LinesWithEndings`, each
/// line's pieces or nothing where that call failed. The highlighter carries its
/// parse state from line to line. The contract claims only that the result is a
/// function of the three arguments; what the pieces are is the highlighter's
/// business.
#[verifier::external_body]
fn highlight_lines(token: &str, source: &str, theme: CodeTheme) -> (r: Option<Vec<Option<Vec<(SyntaxStyle, String)>>>>)
    ensures
        match r {
            Some(lines) => spec_highlight_lines(token@, source@, theme) == Some(lines_view(lines@)),
            None => spec_highlight_lines(token@, source@, theme) is None,
        },
{
    let name = match theme { CodeTheme::SolarizedDark => SolarizedDark, CodeTheme::SolarizedLight => SolarizedLight };
    let syntaxes = two_face::syntax::extra_newlines();
    let themes = two_face::theme::extra();
    let mut highlighter = HighlightLines::new(syntaxes.find_syntax_by_token(token)?, themes.get(name));
    let mut lines = Vec::new();
    for line in LinesWithEndings::from(source) {
        lines.push(highlighter.highlight_line(line, &syntaxes).ok().map(|pieces| pieces.iter().map(|(s, t)| (SyntaxStyle { fg: Rgb { r: s.foreground.r, g: s.foreground.g, b: s.foreground.b }, font_style: s.font_style.bits() }, t.to_string())).collect()));
    }
    Some(lines)
}

/// The name of the syntax two-face's bundled set finds for a language token.
pub uninterp spec fn spec_syntax_name(token: Seq<char>) -> Option<Seq<char>>;

/// Looks `token` up with `SyntaxSet::find_syntax_by_token` in two-face's bundled
/// syntax set and returns the syntax's name; the contract claims only that the
/// result is a function of the token.
#[verifier::external_body]
fn syntax_name(token: &str) -> (r: Option<String>)
    ensures
        match r {
            Some(name) => spec_syntax_name(token@) == Some(name@),
            None => spec_syntax_name(token@) is None,
        },
{
    two_face::syntax::extra_newlines().find_syntax_by_token(token).map(|syntax| syntax.name.clone())
}

/// The name recorded in the bundled theme that stands for a code theme.
pub uninterp spec fn spec_theme_name(theme: CodeTheme) -> Option<Seq<char>>;

/// Returns the `name` of the two-face bundled theme for `theme`
/// (`EmbeddedLazyThemeSet::get`); the contract claims only that the result is a
/// function of the theme.
#[verifier::external_body]
fn bundled_theme_name(theme: CodeTheme) -> (r: Option<String>)
    ensures
        match r {
            Some(name) => spec_theme_name(theme) == Some(name@),
            None => spec_theme_name(theme) is None,
        },
{
    let name = match theme { CodeTheme::SolarizedDark => SolarizedDark, CodeTheme::SolarizedLight => SolarizedLight };
    two_face::theme::extra().get(name).name.clone()
}

/// Returns the name of the syntax selected for a code block's info string.
pub fn syntax_name_for_info(info: &str) -> (r: Option<String>)
    ensures
        match spec_language_token(info@) {
            Some(token) => match r {
                Some(name) => spec_syntax_name(token) == Some(name@),
                None => spec_syntax_name(token) is None,
            },
            None => r is None,
        },
{
    match language_token(info) {
        Some(token) => syntax_name(token),
        None => None,
    }
}

/// Returns the name of the bundled theme used for `theme`.
pub fn theme_name(theme: CodeTheme) -> (r: Option<String>)
    ensures
        match r {
            Some(name) => spec_theme_name(theme) == Some(name@),
            None => spec_theme_name(theme) is None,
        },
{
    bundled_theme_name(theme)
}

/// The text style of a highlighted piece: its color, plus bold, italic and
/// underline as its font style bits say.
pub open spec fn spec_text_style(style: SyntaxStyle) -> TextStyle {
    let base = plain_style().with_fg(style.fg);
    let bold = if style.font_style & 1 != 0 {
        base.with(BOLD)
    } else {
        base
    };
    let italic = if style.font_style & 4 != 0 {
        bold.with(ITALIC)
    } else {
        bold
    };
    if style.font_style & 2 != 0 {
        italic.with(UNDERLINE)
    } else {
        italic
    }
}

/// A highlighted piece keeps its color, and its font style bits, as syntect's
/// `FontStyle` defines them (bold 1, underline 2, italic 4), decide its attributes
/// one for one: bold exactly when the bold bit is set, italic exactly when the
/// italic bit is, underlined exactly when the underline bit is; it is never dim or
/// struck through.
pub proof fn lemma_text_style_follows_font_style(style: SyntaxStyle)
    ensures
        spec_text_style(style).fg == Some(style.fg),
        spec_text_style(style).has(BOLD) == (style.font_style & 1 != 0),
        spec_text_style(style).has(ITALIC) == (style.font_style & 4 != 0),
        spec_text_style(style).has(UNDERLINE) == (style.font_style & 2 != 0),
        !spec_text_style(style).has(DIM),
        !spec_text_style(style).has(STRIKETHROUGH),
{
    let fs = style.font_style;
    let f1: u8 = if fs & 1 != 0 {
        0u8 | 1u8
    } else {
        0u8
    };
    let f2: u8 = if fs & 4 != 0 {
        f1 | 4u8
    } else {
        f1
    };
    let f3: u8 = if fs & 2 != 0 {
        f2 | 8u8
    } else {
        f2
    };
    assert(spec_text_style(style).flags == f3);
    assert((f3 & 1 != 0) == (fs & 1 != 0) && (f3 & 4 != 0) == (fs & 4 != 0) && (f3 & 8 != 0) == (fs & 2
        != 0) && f3 & 2 == 0 && f3 & 16 == 0) by (bit_vector)
        requires
            f1 == (if fs & 1 != 0 {
                0u8 | 1u8
            } else {
                0u8
            }),
            f2 == (if fs & 4 != 0 {
                f1 | 4u8
            } else {
                f1
            }),
            f3 == (if fs & 2 != 0 {
                f2 | 8u8
            } else {
                f2
            }),
    ;
}

/// Converts a highlighter style to a text style.
pub fn text_style(style: SyntaxStyle) -> (r: TextStyle)
    ensures
        r == spec_text_style(style),
{
    let mut result = TextStyle::default().fg(style.fg);
    if style.font_style & 1 != 0 {
        result = result.bold();
    }
    if style.font_style & 4 != 0 {
        result = result.italic();
    }
    if style.font_style & 2 != 0 {
        result = result.underline();
    }
    result
}

/// The non-empty highlighted pieces with their text styles.
pub open spec fn styled_pieces(pieces: Seq<(SyntaxStyle, Seq<char>)>) -> Seq<(TextStyle, Seq<char>)>
    decreases pieces.len(),
{
    if pieces.len() == 0 {
        Seq::empty()
    } else {
        let rest = styled_pieces(pieces.drop_last());
        if pieces.last().1.len() == 0 {
            rest
        } else {
            rest.push((spec_text_style(pieces.last().0), pieces.last().1))
        }
    }
}

/// The styled ranges of highlighted lines: nothing when any line failed, else
/// each line's non-empty pieces in order, with their text styles.
pub open spec fn collected(lines: Seq<Option<Seq<(SyntaxStyle, Seq<char>)>>>) -> Option<Seq<(TextStyle, Seq<char>)>>
    decreases lines.len(),
{
    if lines.len() == 0 {
        Some(Seq::empty())
    } else {
        match (collected(lines.drop_last()), lines.last()) {
            (Some(ranges), Some(pieces)) => Some(ranges + styled_pieces(pieces)),
            _ => None,
        }
    }
}

/// Once a line has failed, the lines after it change nothing.
proof fn lemma_collected_failed(lines: Seq<Option<Seq<(SyntaxStyle, Seq<char>)>>>, k: int)
    requires
        0 <= k <= lines.len(),
        collected(lines.take(k)) is None,
    ensures
        collected(lines) is None,
    decreases lines.len() - k,
{
    if k < lines.len() {
        assert(lines.take(k + 1).drop_last() =~= lines.take(k));
        lemma_collected_failed(lines, k + 1);
    } else {
        assert(lines.take(k) =~= lines);
    }
}

/// Collects the styled ranges of highlighted lines: none when any line failed,
/// else every line's non-empty pieces in order, each with its text style.
pub fn collect_highlighted_ranges(lines: Vec<Option<Vec<(SyntaxStyle, String)>>>) -> (r: Option<Vec<(TextStyle, String)>>)
    ensures
        match r {
            Some(ranges) => collected(lines_view(lines@)) == Some(ranges_view(ranges@)),
            None => collected(lines_view(lines@)) is None,
        },
{
    let ghost all = lines_view(lines@);
    let mut ranges: Vec<(TextStyle, String)> = Vec::new();
    let mut index: usize = 0;
    assert(all.take(0) =~= Seq::<Option<Seq<(SyntaxStyle, Seq<char>)>>>::empty());
    while index < lines.len()
        invariant
            index <= lines@.len(),
            all == lines_view(lines@),
            collected(all.take(index as int)) == Some(ranges_view(ranges@)),
        decreases lines@.len() - index,
    {
        assert(all.take(index + 1).drop_last() =~= all.take(index as int));
        assert(all.take(index + 1).last() == all[index as int]);
        match &lines[index] {
            None => {
                proof {
                    lemma_collected_failed(all, index + 1);
                }
                return None;
            },
            Some(pieces) => {
                let ghost raw = pieces@.map_values(|p: (SyntaxStyle, String)| (p.0, p.1@));
                let ghost before = ranges_view(ranges@);
                assert(all[index as int] == Some(raw));
                let mut j: usize = 0;
                assert(raw.take(0) =~= Seq::<(SyntaxStyle, Seq<char>)>::empty());
                while j < pieces.len()
                    invariant
                        j <= pieces@.len(),
                        raw == pieces@.map_values(|p: (SyntaxStyle, String)| (p.0, p.1@)),
                        ranges_view(ranges@) == before + styled_pieces(raw.take(j as int)),
                    decreases pieces@.len() - j,
                {
                    let ghost prior = ranges_view(ranges@);
                    assert(raw.take(j + 1).drop_last() =~= raw.take(j as int));
                    let (style, text) = &pieces[j];
                    if !text.as_str().is_empty() {
                        let copy = text.clone();
                        ranges.push((text_style(*style), copy));
                        assert(ranges_view(ranges@) =~= prior.push((spec_text_style(*style), text@)));
                    } else {
                        assert(ranges_view(ranges@) =~= prior);
                    }
                    j += 1;
                }
                assert(raw.take(raw.len() as int) =~= raw);
            },
        }
        index += 1;
    }
    assert(all.take(all.len() as int) =~= all);
    Some(ranges)
}

/// The styled ranges of a code block, when its info string names a language the
/// highlighter knows, it is within the limits, and highlighting succeeds.
pub open spec fn spec_highlighted_ranges(info: Option<Seq<char>>, source: Seq<char>, theme: CodeTheme) -> Option<
    Seq<(TextStyle, Seq<char>)>,
> {
    match info {
        None => None,
        Some(info) => match spec_language_token(info) {
            None => None,
            Some(token) => if within_highlight_limits(encode_utf8(source)) {
                match spec_highlight_lines(token, source, theme) {
                    Some(lines) => collected(lines),
                    None => None,
                }
            } else {
                None
            },
        },
    }
}

/// The ranges of a vector of styled pieces.
pub open spec fn ranges_view(ranges: Seq<(TextStyle, String)>) -> Seq<(TextStyle, Seq<char>)> {
    ranges.map_values(|p: (TextStyle, String)| (p.0, p.1@))
}

/// Returns the styled ranges of a code block, or `None` when it is not highlighted.
pub fn highlighted_ranges(info: Option<&str>, source: &str, theme: CodeTheme) -> (r: Option<Vec<(TextStyle, String)>>)
    ensures
        match r {
            Some(ranges) => spec_highlighted_ranges(
                match info {
                    Some(i) => Some(i@),
                    None => None,
                },
                source@,
                theme,
            ) == Some(ranges_view(ranges@)),
            None => spec_highlighted_ranges(
                match info {
                    Some(i) => Some(i@),
                    None => None,
                },
                source@,
                theme,
            ) is None,
        },
{
    let info = match info {
        Some(info) => info,
        None => return None,
    };
    let token = match language_token(info) {
        Some(token) => token,
        None => return None,
    };
    if !is_within_highlight_limits(source) {
        return None;
    }
    match highlight_lines(token, source, theme) {
        Some(lines) => collect_highlighted_ranges(lines),
        None => None,
    }
}

} // verus!
