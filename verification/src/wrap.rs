//! Word wrapping and the shared display-width primitives.

use unicode_segmentation::UnicodeSegmentation;
use unicode_width::UnicodeWidthStr;
use vstd::prelude::*;
use vstd::string::StringSliceAdditionalSpecFns;
use vstd::utf8::{decode_utf8, encode_utf8};

use crate::bytes::{append_bytes, spaces};
use crate::utf8::{utf8_complete_prefix, utf8_complete_prefix_spec};
use crate::writer::write_spaces;

verus! {

broadcast use {vstd::utf8::encode_utf8_decode_utf8, vstd::utf8::decode_utf8_encode_utf8};

/// The display width that `unicode_width` assigns to a string.
pub uninterp spec fn spec_display_width(text: Seq<char>) -> usize;

/// The first extended grapheme cluster of a non-empty string, as
/// `unicode_segmentation` segments it.
pub uninterp spec fn spec_first_grapheme(text: Seq<char>) -> Seq<char>;

/// `unicode_width::UnicodeWidthStr::width`: the display width of `text` in columns,
/// as a function of the text alone; the empty string has width 0 (the crate folds
/// per-character widths starting from 0). Which width each character or sequence
/// gets is left to the crate and not stated here.
#[verifier::external_body]
fn unicode_str_width(text: &str) -> (r: usize)
    ensures
        r == spec_display_width(text@),
        text@.len() == 0 ==> r == 0,
{
    text.width()
}

/// `unicode_segmentation::UnicodeSegmentation::graphemes(text, true).next()`: the
/// first extended grapheme cluster of `text`, or `None` when `text` is empty. The
/// clusters partition the string in order, so the first one is a non-empty prefix.
/// Where the cluster ends is left to the crate and not stated here.
#[verifier::external_body]
fn first_grapheme(text: &str) -> (r: Option<&str>)
    ensures
        r.is_none() <==> text@.len() == 0,
        r matches Some(cluster) ==> {
            &&& cluster@ == spec_first_grapheme(text@)
            &&& 0 < cluster.spec_bytes().len() <= text.spec_bytes().len()
            &&& cluster.spec_bytes() == text.spec_bytes().take(cluster.spec_bytes().len() as int)
        },
{
    text.graphemes(true).next()
}

/// Returns the unicode display width of a string, as unicode-width measures it (a
/// ZWJ emoji sequence counts once rather than per scalar).
pub fn display_width(text: &str) -> (r: usize)
    ensures
        r == spec_display_width(text@),
{
    unicode_str_width(text)
}

/// The escape byte that starts an ANSI sequence.
pub const ESCAPE: u8 = 0x1b;

/// The width of the UTF-8-complete prefix of `bytes`.
pub open spec fn bytes_width(bytes: Seq<u8>) -> int {
    spec_display_width(decode_utf8(utf8_complete_prefix_spec(bytes))) as int
}

/// Index just past the final byte (`@`..=`~`) of a CSI sequence, searching from `k`;
/// the whole length when there is none.
pub open spec fn csi_end(bytes: Seq<u8>, k: int) -> int
    decreases bytes.len() - k,
{
    if k >= bytes.len() {
        bytes.len() as int
    } else if 0x40 <= bytes[k] <= 0x7e {
        k + 1
    } else {
        csi_end(bytes, k + 1)
    }
}

/// The byte length of the ANSI escape sequence at the start of `bytes`: `ESC [`,
/// parameter and intermediate bytes, then one final byte in `@`..=`~`; an incomplete
/// sequence takes the whole remainder, and an escape not followed by `[` takes two
/// bytes (or the one that is left).
pub open spec fn escape_len(bytes: Seq<u8>) -> int {
    if bytes.len() < 2 || bytes[1] != 0x5b {
        if bytes.len() < 2 {
            bytes.len() as int
        } else {
            2
        }
    } else {
        csi_end(bytes, 2)
    }
}

proof fn lemma_csi_end_bounds(bytes: Seq<u8>, k: int)
    requires
        0 <= k <= bytes.len(),
    ensures
        k <= csi_end(bytes, k) <= bytes.len(),
        k < bytes.len() ==> k < csi_end(bytes, k),
    decreases bytes.len() - k,
{
    if k < bytes.len() && !(0x40 <= bytes[k] <= 0x7e) {
        lemma_csi_end_bounds(bytes, k + 1);
    }
}

/// An escape sequence at the start of non-empty bytes is at least one byte long
/// and no longer than the bytes.
pub proof fn lemma_escape_len_bounds(bytes: Seq<u8>)
    requires
        bytes.len() > 0,
    ensures
        1 <= escape_len(bytes) <= bytes.len(),
{
    if bytes.len() >= 2 && bytes[1] == 0x5b {
        lemma_csi_end_bounds(bytes, 2);
    }
}

/// Index of the first escape byte at or after `k`, or the length when there is none.
pub open spec fn next_escape(bytes: Seq<u8>, k: int) -> int
    decreases bytes.len() - k,
{
    if k >= bytes.len() {
        bytes.len() as int
    } else if bytes[k] == ESCAPE {
        k
    } else {
        next_escape(bytes, k + 1)
    }
}

proof fn lemma_next_escape_bounds(bytes: Seq<u8>, k: int)
    requires
        0 <= k <= bytes.len(),
    ensures
        k <= next_escape(bytes, k) <= bytes.len(),
        forall|i: int| k <= i < next_escape(bytes, k) ==> bytes[i] != ESCAPE,
        next_escape(bytes, k) < bytes.len() ==> bytes[next_escape(bytes, k)] == ESCAPE,
    decreases bytes.len() - k,
{
    if k < bytes.len() && bytes[k] != ESCAPE {
        lemma_next_escape_bounds(bytes, k + 1);
    }
}

/// The display width of `bytes` with escape sequences counted as zero and any
/// trailing incomplete UTF-8 sequence of a text run ignored, as an unbounded sum.
pub open spec fn visible_total(bytes: Seq<u8>) -> int
    decreases bytes.len(),
{
    if bytes.len() == 0 {
        0
    } else if bytes[0] == ESCAPE {
        let n = escape_len(bytes);
        if 1 <= n <= bytes.len() {
            visible_total(bytes.skip(n))
        } else {
            0
        }
    } else {
        let run = next_escape(bytes, 0);
        if 1 <= run <= bytes.len() {
            bytes_width(bytes.take(run)) + visible_total(bytes.skip(run))
        } else {
            0
        }
    }
}

/// The visible width of `bytes`, saturated at `usize::MAX`.
pub open spec fn visible_width_spec(bytes: Seq<u8>) -> usize {
    if visible_total(bytes) <= usize::MAX {
        visible_total(bytes) as usize
    } else {
        usize::MAX
    }
}

/// Visible widths are never negative.
pub proof fn lemma_visible_total_nonneg(bytes: Seq<u8>)
    ensures
        visible_total(bytes) >= 0,
    decreases bytes.len(),
{
    if bytes.len() > 0 {
        if bytes[0] == ESCAPE {
            lemma_escape_len_bounds(bytes);
            lemma_visible_total_nonneg(bytes.skip(escape_len(bytes)));
        } else {
            lemma_next_escape_bounds(bytes, 0);
            let run = next_escape(bytes, 0);
            if 1 <= run <= bytes.len() {
                lemma_visible_total_nonneg(bytes.skip(run));
            }
        }
    }
}

/// Returns the byte length of the ANSI escape sequence at the start of `bytes`.
fn escape_sequence_len(bytes: &[u8]) -> (r: usize)
    ensures
        r == escape_len(bytes@),
{
    if bytes.len() < 2 || bytes[1] != 0x5b {
        if bytes.len() < 2 {
            bytes.len()
        } else {
            2
        }
    } else {
        let mut index: usize = 2;
        while index < bytes.len()
            invariant
                2 <= index <= bytes@.len(),
                bytes@[1] == 0x5b,
                csi_end(bytes@, index as int) == csi_end(bytes@, 2),
            decreases bytes@.len() - index,
        {
            if 0x40 <= bytes[index] && bytes[index] <= 0x7e {
                assert(csi_end(bytes@, index as int) == index + 1);
                return index + 1;
            }
            index += 1;
        }
        bytes.len()
    }
}

/// Index of the first escape byte of `bytes` at or after `start`.
fn find_escape(bytes: &[u8], start: usize) -> (r: usize)
    requires
        start <= bytes@.len(),
    ensures
        r == next_escape(bytes@, start as int),
{
    let mut index = start;
    while index < bytes.len()
        invariant
            start <= index <= bytes@.len(),
            next_escape(bytes@, index as int) == next_escape(bytes@, start as int),
        decreases bytes@.len() - index,
    {
        if bytes[index] == ESCAPE {
            return index;
        }
        index += 1;
    }
    index
}

/// The display width of the UTF-8-complete prefix of `bytes`.
fn complete_prefix_width(bytes: &[u8]) -> (r: usize)
    ensures
        r == bytes_width(bytes@),
{
    let text = utf8_complete_prefix(bytes);
    display_width(text)
}

/// Returns the display width of `bytes`, ignoring any trailing incomplete UTF-8
/// sequence of a text run. ANSI escape sequences count as zero width.
pub fn visible_width(bytes: &[u8]) -> (r: usize)
    ensures
        r == visible_width_spec(bytes@),
{
    let mut pos: usize = 0;
    let mut width: usize = 0;
    let ghost mut total: int = 0;
    assert(bytes@.skip(0) =~= bytes@);
    while pos < bytes.len()
        invariant
            pos <= bytes@.len(),
            0 <= total,
            width == (if total <= usize::MAX { total } else { usize::MAX as int }),
            total + visible_total(bytes@.skip(pos as int)) == visible_total(bytes@),
        decreases bytes@.len() - pos,
    {
        let rest = &bytes[pos..bytes.len()];
        assert(rest@ == bytes@.skip(pos as int));
        if rest[0] == ESCAPE {
            let n = escape_sequence_len(rest);
            proof {
                lemma_escape_len_bounds(rest@);
                assert(rest@.skip(n as int) =~= bytes@.skip(pos + n));
            }
            pos = pos + n;
        } else {
            let run = find_escape(rest, 0);
            proof {
                lemma_next_escape_bounds(rest@, 0);
                assert(rest@.skip(run as int) =~= bytes@.skip(pos + run));
            }
            let run_width = complete_prefix_width(&rest[0..run]);
            assert(rest@.subrange(0, run as int) == rest@.take(run as int));
            proof {
                total = total + run_width;
            }
            width = width.saturating_add(run_width);
            pos = pos + run;
        }
    }
    assert(bytes@.skip(pos as int).len() == 0);
    proof {
        lemma_visible_total_nonneg(bytes@);
    }
    width
}

/// The next segment of `bytes` as (byte length, display width): an ANSI escape
/// sequence (zero width), a single grapheme cluster, or the whole remainder when no
/// cluster can be decoded (counted as zero width).
pub open spec fn segment_spec(bytes: Seq<u8>) -> (int, int) {
    if bytes.len() > 0 && bytes[0] == ESCAPE {
        (escape_len(bytes), 0)
    } else {
        let text = decode_utf8(utf8_complete_prefix_spec(bytes));
        if text.len() == 0 {
            (if bytes.len() > 1 { bytes.len() as int } else { 1 }, 0)
        } else {
            let cluster = spec_first_grapheme(text);
            (encode_utf8(cluster).len() as int, spec_display_width(cluster) as int)
        }
    }
}

/// Returns the byte length and display width of the next segment of `bytes`.
fn next_segment(bytes: &[u8]) -> (r: (usize, usize))
    requires
        bytes@.len() > 0,
    ensures
        r.0 as int == segment_spec(bytes@).0,
        r.1 as int == segment_spec(bytes@).1,
        1 <= r.0 <= bytes@.len(),
{
    if bytes[0] == ESCAPE {
        proof {
            lemma_escape_len_bounds(bytes@);
        }
        return (escape_sequence_len(bytes), 0);
    }
    let text = utf8_complete_prefix(bytes);
    proof {
        crate::utf8::lemma_longest_valid_prefix_len_bound(bytes@, bytes@.len());
        assert(text@ == decode_utf8(utf8_complete_prefix_spec(bytes@)));
    }
    match first_grapheme(text) {
        Some(cluster) => (cluster.len(), display_width(cluster)),
        None => (if bytes.len() > 1 { bytes.len() } else { 1 }, 0),
    }
}

/// The state of a word-wrapping writer.
pub struct WrapState {
    /// Bytes emitted so far.
    pub out: Seq<u8>,
    /// Display width of the current output line.
    pub line_width: int,
    /// Pending non-separator bytes of the current word.
    pub word: Seq<u8>,
    /// Separator columns accumulated since the last word was placed.
    pub gap: int,
}

/// The state of a fresh word-wrapping writer.
pub open spec fn wrap_init() -> WrapState {
    WrapState { out: Seq::empty(), line_width: 0, word: Seq::empty(), gap: 0 }
}

/// Writes `rest` split at segment boundaries, breaking to a new line whenever the
/// next visible segment would not fit on a non-empty line. Returns the output and the
/// final line width.
pub open spec fn chunk_word(out: Seq<u8>, line_width: int, rest: Seq<u8>, width: int) -> (
    Seq<u8>,
    int,
)
    decreases rest.len(),
{
    if rest.len() == 0 {
        (out, line_width)
    } else {
        let (consumed, segment_width) = segment_spec(rest);
        if 1 <= consumed <= rest.len() {
            let broken = segment_width > 0 && line_width > 0 && line_width + segment_width > width;
            let out1 = if broken {
                out.push(10u8)
            } else {
                out
            };
            let line1 = if broken {
                0
            } else {
                line_width
            };
            chunk_word(out1 + rest.take(consumed), line1 + segment_width, rest.skip(consumed), width)
        } else {
            (out + rest, line_width)
        }
    }
}

/// Emits the pending word, preceded by the pending separator when it fits on the
/// current line or by a newline when it does not; a word wider than the whole limit
/// is split at segment boundaries. A separator at a line edge is dropped.
pub open spec fn place_word(s: WrapState, width: int) -> WrapState {
    if s.word.len() == 0 {
        s
    } else {
        let word_width = visible_width_spec(s.word) as int;
        let (out1, line1) = if s.line_width == 0 {
            (s.out, 0)
        } else if s.line_width + s.gap + word_width > width {
            (s.out.push(10u8), 0)
        } else {
            (s.out + spaces(s.gap as nat), s.line_width + s.gap)
        };
        let (out2, line2) = if line1 + word_width > width {
            chunk_word(out1, line1, s.word, width)
        } else {
            (out1 + s.word, line1 + word_width)
        };
        WrapState { out: out2, line_width: line2, word: Seq::empty(), gap: 0 }
    }
}

/// Feeds one byte to the wrapping writer: a newline places the word and ends the
/// line, a space or tab places the word and adds one separator column, and any
/// other byte extends the pending word.
pub open spec fn wrap_byte(s: WrapState, byte: u8, width: int) -> WrapState {
    if byte == 10 {
        let placed = place_word(s, width);
        WrapState { out: placed.out.push(10u8), line_width: 0, word: Seq::empty(), gap: 0 }
    } else if byte == 32 || byte == 9 {
        let placed = place_word(s, width);
        WrapState { gap: placed.gap + 1, ..placed }
    } else {
        WrapState { word: s.word.push(byte), ..s }
    }
}

/// Feeds `input` to the wrapping writer byte by byte.
pub open spec fn wrap_bytes(s: WrapState, input: Seq<u8>, width: int) -> WrapState
    decreases input.len(),
{
    if input.len() == 0 {
        s
    } else {
        wrap_bytes(wrap_byte(s, input[0], width), input.drop_first(), width)
    }
}

/// The complete output of wrapping `input` at `width` columns.
pub open spec fn word_wrap_spec(input: Seq<u8>, width: int) -> Seq<u8> {
    place_word(wrap_bytes(wrap_init(), input, width), width).out
}

proof fn lemma_wrap_bytes_push(s: WrapState, input: Seq<u8>, byte: u8, width: int)
    ensures
        wrap_bytes(s, input.push(byte), width) == wrap_byte(wrap_bytes(s, input, width), byte, width),
    decreases input.len(),
{
    if input.len() == 0 {
        assert(input.push(byte).drop_first() =~= Seq::<u8>::empty());
        assert(input.push(byte)[0] == byte);
        assert(wrap_bytes(wrap_byte(s, byte, width), Seq::<u8>::empty(), width) == wrap_byte(s, byte, width));
    } else {
        assert(input.push(byte).drop_first() =~= input.drop_first().push(byte));
        assert(input.push(byte)[0] == input[0]);
        lemma_wrap_bytes_push(wrap_byte(s, input[0], width), input.drop_first(), byte, width);
    }
}

/// Whether `bytes` holds no byte `b`.
pub open spec fn lacks(bytes: Seq<u8>, b: u8) -> bool {
    forall|i: int| 0 <= i < bytes.len() ==> bytes[i] != b
}

proof fn lemma_lacks_concat(a: Seq<u8>, b: Seq<u8>, x: u8)
    requires
        lacks(a, x),
        lacks(b, x),
    ensures
        lacks(a + b, x),
{
    assert forall|i: int| 0 <= i < (a + b).len() implies (a + b)[i] != x by {
        if i < a.len() {
            assert((a + b)[i] == a[i]);
        } else {
            assert((a + b)[i] == b[i - a.len()]);
        }
    }
}

proof fn lemma_chunk_no_tab(out: Seq<u8>, line_width: int, rest: Seq<u8>, width: int)
    requires
        lacks(out, 9u8),
        lacks(rest, 9u8),
    ensures
        lacks(chunk_word(out, line_width, rest, width).0, 9u8),
    decreases rest.len(),
{
    if rest.len() > 0 {
        let (consumed, segment_width) = segment_spec(rest);
        if 1 <= consumed <= rest.len() {
            let broken = segment_width > 0 && line_width > 0 && line_width + segment_width > width;
            let out1 = if broken {
                out.push(10u8)
            } else {
                out
            };
            assert(lacks(seq![10u8], 9u8));
            assert(out.push(10u8) =~= out + seq![10u8]);
            lemma_lacks_concat(out, seq![10u8], 9u8);
            let piece = rest.take(consumed);
            let tail = rest.skip(consumed);
            assert forall|i: int| 0 <= i < piece.len() implies piece[i] != 9u8 by {
                assert(piece[i] == rest[i]);
            }
            assert forall|i: int| 0 <= i < tail.len() implies tail[i] != 9u8 by {
                assert(tail[i] == rest[i + consumed]);
            }
            lemma_lacks_concat(out1, piece, 9u8);
            let line1 = if broken {
                0
            } else {
                line_width
            };
            lemma_chunk_no_tab(out1 + piece, line1 + segment_width, tail, width);
        }
    }
}

proof fn lemma_place_no_tab(s: WrapState, width: int)
    requires
        lacks(s.out, 9u8),
        lacks(s.word, 9u8),
    ensures
        lacks(place_word(s, width).out, 9u8),
        lacks(place_word(s, width).word, 9u8),
{
    if s.word.len() > 0 {
        let word_width = visible_width_spec(s.word) as int;
        let pad = spaces(s.gap as nat);
        assert(lacks(pad, 9u8));
        assert(lacks(seq![10u8], 9u8));
        assert(s.out.push(10u8) =~= s.out + seq![10u8]);
        lemma_lacks_concat(s.out, seq![10u8], 9u8);
        lemma_lacks_concat(s.out, pad, 9u8);
        let (out1, line1) = if s.line_width == 0 {
            (s.out, 0)
        } else if s.line_width + s.gap + word_width > width {
            (s.out.push(10u8), 0)
        } else {
            (s.out + pad, s.line_width + s.gap)
        };
        lemma_chunk_no_tab(out1, line1, s.word, width);
        lemma_lacks_concat(out1, s.word, 9u8);
        assert(lacks(Seq::<u8>::empty(), 9u8));
    }
}

proof fn lemma_wrap_bytes_no_tab(s: WrapState, input: Seq<u8>, width: int)
    requires
        lacks(s.out, 9u8),
        lacks(s.word, 9u8),
    ensures
        lacks(wrap_bytes(s, input, width).out, 9u8),
        lacks(wrap_bytes(s, input, width).word, 9u8),
    decreases input.len(),
{
    if input.len() > 0 {
        let byte = input[0];
        lemma_place_no_tab(s, width);
        let placed = place_word(s, width);
        assert(lacks(seq![10u8], 9u8));
        assert(placed.out.push(10u8) =~= placed.out + seq![10u8]);
        lemma_lacks_concat(placed.out, seq![10u8], 9u8);
        assert(lacks(Seq::<u8>::empty(), 9u8));
        if byte != 10 && byte != 32 && byte != 9 {
            assert(s.word.push(byte) =~= s.word + seq![byte]);
            assert(lacks(seq![byte], 9u8));
            lemma_lacks_concat(s.word, seq![byte], 9u8);
        }
        lemma_wrap_bytes_no_tab(wrap_byte(s, byte, width), input.drop_first(), width);
    }
}

/// Wrapping writes no tab: a tab between words counts as one column and comes out
/// as a space, like the other separators.
pub proof fn lemma_word_wrap_writes_no_tab(input: Seq<u8>, width: int)
    ensures
        lacks(word_wrap_spec(input, width), 9u8),
{
    assert(lacks(Seq::<u8>::empty(), 9u8));
    lemma_wrap_bytes_no_tab(wrap_init(), input, width);
    lemma_place_no_tab(wrap_bytes(wrap_init(), input, width), width);
}

/// Whether a byte separates words: a space, a tab or a newline.
pub open spec fn is_blank(byte: u8) -> bool {
    byte == 32 || byte == 9 || byte == 10
}

/// `bytes` without its spaces, tabs and newlines.
pub open spec fn strip_blanks(bytes: Seq<u8>) -> Seq<u8>
    decreases bytes.len(),
{
    if bytes.len() == 0 {
        Seq::empty()
    } else {
        strip_blanks(bytes.drop_last()) + if is_blank(bytes.last()) {
            Seq::empty()
        } else {
            seq![bytes.last()]
        }
    }
}

/// Stripping blanks from two pieces is stripping them from the whole.
pub proof fn lemma_strip_append(a: Seq<u8>, b: Seq<u8>)
    ensures
        strip_blanks(a + b) == strip_blanks(a) + strip_blanks(b),
    decreases b.len(),
{
    if b.len() == 0 {
        assert(a + b =~= a);
        assert(strip_blanks(a) + Seq::<u8>::empty() =~= strip_blanks(a));
    } else {
        lemma_strip_append(a, b.drop_last());
        assert((a + b).drop_last() =~= a + b.drop_last());
        assert((a + b).last() == b.last());
        let tail = if is_blank(b.last()) {
            Seq::<u8>::empty()
        } else {
            seq![b.last()]
        };
        assert(strip_blanks(a) + strip_blanks(b.drop_last()) + tail =~= strip_blanks(a) + (strip_blanks(
            b.drop_last(),
        ) + tail));
    }
}

proof fn lemma_strip_blank_only(bytes: Seq<u8>)
    requires
        forall|i: int| 0 <= i < bytes.len() ==> is_blank(bytes[i]),
    ensures
        strip_blanks(bytes) == Seq::<u8>::empty(),
    decreases bytes.len(),
{
    if bytes.len() > 0 {
        lemma_strip_blank_only(bytes.drop_last());
        assert(strip_blanks(bytes) =~= Seq::<u8>::empty());
    }
}

proof fn lemma_strip_word(word: Seq<u8>)
    requires
        forall|i: int| 0 <= i < word.len() ==> !is_blank(word[i]),
    ensures
        strip_blanks(word) == word,
    decreases word.len(),
{
    if word.len() > 0 {
        lemma_strip_word(word.drop_last());
        assert(word.drop_last() + seq![word.last()] =~= word);
    } else {
        assert(word =~= Seq::<u8>::empty());
    }
}

proof fn lemma_chunk_strip(out: Seq<u8>, line_width: int, rest: Seq<u8>, width: int)
    ensures
        strip_blanks(chunk_word(out, line_width, rest, width).0) == strip_blanks(out) + strip_blanks(rest),
    decreases rest.len(),
{
    if rest.len() == 0 {
        assert(strip_blanks(out) + strip_blanks(rest) =~= strip_blanks(out));
    } else {
        let (consumed, segment_width) = segment_spec(rest);
        if 1 <= consumed <= rest.len() {
            let broken = segment_width > 0 && line_width > 0 && line_width + segment_width > width;
            let out1 = if broken {
                out.push(10u8)
            } else {
                out
            };
            assert(strip_blanks(out1) == strip_blanks(out)) by {
                if broken {
                    assert(out.push(10u8).drop_last() =~= out);
                    assert(strip_blanks(out.push(10u8)) =~= strip_blanks(out));
                }
            }
            let piece = rest.take(consumed);
            let tail = rest.skip(consumed);
            assert(piece + tail =~= rest);
            let line1 = if broken {
                0
            } else {
                line_width
            };
            lemma_chunk_strip(out1 + piece, line1 + segment_width, tail, width);
            lemma_strip_append(out1, piece);
            lemma_strip_append(piece, tail);
            assert(strip_blanks(out1) + strip_blanks(piece) + strip_blanks(tail) =~= strip_blanks(out) + (
            strip_blanks(piece) + strip_blanks(tail)));
        } else {
            lemma_strip_append(out, rest);
        }
    }
}

proof fn lemma_place_strip(s: WrapState, width: int)
    ensures
        strip_blanks(place_word(s, width).out) == strip_blanks(s.out) + strip_blanks(s.word),
        place_word(s, width).word.len() == 0,
{
    if s.word.len() > 0 {
        let word_width = visible_width_spec(s.word) as int;
        let pad = spaces(s.gap as nat);
        lemma_strip_blank_only(pad);
        lemma_strip_append(s.out, pad);
        assert(s.out.push(10u8).drop_last() =~= s.out);
        assert(strip_blanks(s.out.push(10u8)) =~= strip_blanks(s.out));
        assert(strip_blanks(s.out) + Seq::<u8>::empty() =~= strip_blanks(s.out));
        let (out1, line1) = if s.line_width == 0 {
            (s.out, 0)
        } else if s.line_width + s.gap + word_width > width {
            (s.out.push(10u8), 0)
        } else {
            (s.out + pad, s.line_width + s.gap)
        };
        assert(strip_blanks(out1) == strip_blanks(s.out));
        lemma_chunk_strip(out1, line1, s.word, width);
        lemma_strip_append(out1, s.word);
    } else {
        assert(strip_blanks(s.word) =~= Seq::<u8>::empty());
        assert(strip_blanks(s.out) + Seq::<u8>::empty() =~= strip_blanks(s.out));
    }
}

proof fn lemma_wrap_bytes_strip(s: WrapState, input: Seq<u8>, width: int)
    requires
        forall|i: int| 0 <= i < s.word.len() ==> !is_blank(s.word[i]),
    ensures
        strip_blanks(wrap_bytes(s, input, width).out) + wrap_bytes(s, input, width).word == strip_blanks(s.out)
            + s.word + strip_blanks(input),
        forall|i: int|
            0 <= i < wrap_bytes(s, input, width).word.len() ==> !is_blank(wrap_bytes(s, input, width).word[i]),
    decreases input.len(),
{
    if input.len() == 0 {
        assert(strip_blanks(input) =~= Seq::<u8>::empty());
        assert(strip_blanks(s.out) + s.word + Seq::<u8>::empty() =~= strip_blanks(s.out) + s.word);
    } else {
        let byte = input[0];
        let next = wrap_byte(s, byte, width);
        lemma_place_strip(s, width);
        lemma_strip_word(s.word);
        let placed = place_word(s, width);
        assert(seq![byte] + input.drop_first() =~= input);
        lemma_strip_append(seq![byte], input.drop_first());
        assert(strip_blanks(seq![byte]) == (if is_blank(byte) {
            Seq::<u8>::empty()
        } else {
            seq![byte]
        })) by {
            let single = seq![byte];
            assert(single.drop_last() =~= Seq::<u8>::empty());
            assert(single.last() == byte);
            assert(strip_blanks(single.drop_last()) =~= Seq::<u8>::empty());
            assert(strip_blanks(single) == strip_blanks(single.drop_last()) + (if is_blank(byte) {
                Seq::<u8>::empty()
            } else {
                seq![byte]
            }));
            assert(Seq::<u8>::empty() + Seq::<u8>::empty() =~= Seq::<u8>::empty());
            assert(Seq::<u8>::empty() + seq![byte] =~= seq![byte]);
        }
        if byte == 10 {
            assert(placed.out.push(10u8).drop_last() =~= placed.out);
            assert(strip_blanks(next.out) =~= strip_blanks(placed.out));
        } else if byte == 32 || byte == 9 {
        } else {
            assert forall|i: int| 0 <= i < next.word.len() implies !is_blank(next.word[i]) by {
                if i < s.word.len() {
                    assert(next.word[i] == s.word[i]);
                }
            }
        }
        lemma_wrap_bytes_strip(next, input.drop_first(), width);
        assert(strip_blanks(next.out) + next.word == strip_blanks(s.out) + s.word + strip_blanks(seq![byte]));
        assert(strip_blanks(s.out) + s.word + strip_blanks(seq![byte]) + strip_blanks(input.drop_first())
            =~= strip_blanks(s.out) + s.word + strip_blanks(input));
    }
}

/// Writing to a wrapping writer in two pieces is writing the whole at once.
pub proof fn lemma_wrap_bytes_append(s: WrapState, a: Seq<u8>, b: Seq<u8>, width: int)
    ensures
        wrap_bytes(s, a + b, width) == wrap_bytes(wrap_bytes(s, a, width), b, width),
    decreases a.len(),
{
    if a.len() > 0 {
        assert((a + b).drop_first() =~= a.drop_first() + b);
        assert((a + b)[0] == a[0]);
        lemma_wrap_bytes_append(wrap_byte(s, a[0], width), a.drop_first(), b, width);
    } else {
        assert(a + b =~= b);
    }
}

/// Wrapping keeps the content: the output and the input are the same once spaces,
/// tabs and newlines are removed from both, however the input was split across
/// writes.
pub proof fn lemma_word_wrap_keeps_content(input: Seq<u8>, width: int)
    ensures
        strip_blanks(word_wrap_spec(input, width)) == strip_blanks(input),
{
    lemma_wrap_bytes_strip(wrap_init(), input, width);
    let state = wrap_bytes(wrap_init(), input, width);
    lemma_place_strip(state, width);
    lemma_strip_word(state.word);
    assert(strip_blanks(Seq::<u8>::empty()) =~= Seq::<u8>::empty());
    assert(Seq::<u8>::empty() + Seq::<u8>::empty() + strip_blanks(input) =~= strip_blanks(input));
}

/// Whether `a + b + c` exceeds `limit`, without overflowing.
fn sum_exceeds(a: usize, b: usize, c: usize, limit: usize) -> (r: bool)
    ensures
        r == (a + b + c > limit),
{
    match a.checked_add(b) {
        None => true,
        Some(ab) => match ab.checked_add(c) {
            None => true,
            Some(abc) => abc > limit,
        },
    }
}

/// A writer adapter that wraps UTF-8 text written through it at a maximum display
/// width, breaking lines at word boundaries.
///
/// Runs of spaces and tabs between words are kept verbatim when they fit on a line
/// and dropped only at a wrap point, so inline code spans (whose interior spaces are
/// significant) are not rewritten. Tabs count as one column and are emitted as
/// spaces. Call [`WordWrapWriter::finish`] after the last write to emit any buffered
/// content.
pub struct WordWrapWriter {
    out: Vec<u8>,
    width: usize,
    line_width: usize,
    word: Vec<u8>,
    gap: usize,
}

impl View for WordWrapWriter {
    type V = WrapState;

    closed spec fn view(&self) -> WrapState {
        WrapState {
            out: self.out@,
            line_width: self.line_width as int,
            word: self.word@,
            gap: self.gap as int,
        }
    }
}

impl WordWrapWriter {
    /// The wrap width the writer was created with.
    pub closed spec fn spec_width(&self) -> usize {
        self.width
    }

    /// Creates a writer that wraps at `width` columns.
    pub fn new(width: usize) -> (r: Self)
        ensures
            r@ == wrap_init(),
            r.spec_width() == width,
    {
        WordWrapWriter { out: Vec::new(), width, line_width: 0, word: Vec::new(), gap: 0 }
    }

    /// Feeds `buffer` to the writer.
    pub fn write(&mut self, buffer: &[u8])
        requires
            old(self)@.gap + buffer@.len() <= usize::MAX,
        ensures
            final(self)@ == wrap_bytes(old(self)@, buffer@, old(self).spec_width() as int),
            final(self).spec_width() == old(self).spec_width(),
    {
        let ghost start = self@;
        let ghost width = self.width as int;
        let mut index: usize = 0;
        assert(buffer@.take(0) =~= Seq::<u8>::empty());
        while index < buffer.len()
            invariant
                index <= buffer@.len(),
                self.width == old(self).width,
                width == self.width as int,
                self@ == wrap_bytes(start, buffer@.take(index as int), width),
                self@.gap <= start.gap + index,
                start.gap + buffer@.len() <= usize::MAX,
            decreases buffer@.len() - index,
        {
            let byte = buffer[index];
            proof {
                assert(buffer@.take(index + 1) =~= buffer@.take(index as int).push(byte));
                lemma_wrap_bytes_push(start, buffer@.take(index as int), byte, width);
            }
            let ghost before = self@;
            if byte == 10 {
                self.place_word();
                self.out.push(10);
                self.line_width = 0;
                self.gap = 0;
                assert(self@.word =~= Seq::<u8>::empty());
            } else if byte == 32 || byte == 9 {
                self.place_word();
                self.gap = self.gap + 1;
            } else {
                self.word.push(byte);
            }
            assert(self@ == wrap_byte(before, byte, width));
            index += 1;
        }
        assert(buffer@.take(buffer@.len() as int) =~= buffer@);
    }

    /// Emits any buffered content and returns everything the writer produced.
    pub fn finish(self) -> (r: Vec<u8>)
        ensures
            r@ == place_word(self@, self.spec_width() as int).out,
    {
        let mut this = self;
        this.place_word();
        this.out
    }

    fn place_word(&mut self)
        ensures
            final(self)@ == place_word(old(self)@, old(self).width as int),
            final(self).width == old(self).width,
            final(self)@.gap == 0 || old(self)@.word.len() == 0,
            final(self)@.gap <= old(self)@.gap,
    {
        if self.word.len() == 0 {
            return;
        }
        let word_width = visible_width(self.word.as_slice());
        if self.line_width == 0 {
            self.gap = 0;
        } else if sum_exceeds(self.line_width, self.gap, word_width, self.width) {
            self.out.push(10);
            self.line_width = 0;
            self.gap = 0;
        } else {
            write_spaces(&mut self.out, self.gap);
            self.line_width = self.line_width + self.gap;
            self.gap = 0;
        }
        if sum_exceeds(self.line_width, 0, word_width, self.width) {
            self.write_word_in_chunks();
        } else {
            append_bytes(&mut self.out, self.word.as_slice());
            self.line_width = self.line_width + word_width;
        }
        self.word.clear();
    }

    /// Writes the buffered word split at segment boundaries, breaking to a new line
    /// whenever the next visible segment would not fit; every line takes at least one
    /// segment so the writer always makes progress.
    fn write_word_in_chunks(&mut self)
        ensures
            (final(self)@.out, final(self)@.line_width) == chunk_word(
                old(self)@.out,
                old(self)@.line_width,
                old(self)@.word,
                old(self).width as int,
            ),
            final(self)@.word == old(self)@.word,
            final(self)@.gap == old(self)@.gap,
            final(self).width == old(self).width,
    {
        let ghost width = self.width as int;
        let mut pos: usize = 0;
        assert(self.word@.skip(0) =~= self.word@);
        while pos < self.word.len()
            invariant
                pos <= self.word@.len(),
                self.word@ == old(self).word@,
                self.gap == old(self).gap,
                self.width == old(self).width,
                width == self.width as int,
                chunk_word(self.out@, self.line_width as int, self.word@.skip(pos as int), width)
                    == chunk_word(old(self)@.out, old(self)@.line_width, old(self)@.word, width),
            decreases self.word@.len() - pos,
        {
            let rest = &self.word.as_slice()[pos..self.word.len()];
            assert(rest@ == self.word@.skip(pos as int));
            let (consumed, segment_width) = next_segment(rest);
            if segment_width > 0 && self.line_width > 0 && sum_exceeds(
                self.line_width,
                0,
                segment_width,
                self.width,
            ) {
                self.out.push(10);
                self.line_width = 0;
            }
            let chunk = &self.word.as_slice()[pos..pos + consumed];
            assert(chunk@ == rest@.take(consumed as int));
            append_bytes(&mut self.out, chunk);
            self.line_width = self.line_width + segment_width;
            proof {
                assert(rest@.skip(consumed as int) =~= self.word@.skip(pos + consumed));
            }
            pos = pos + consumed;
        }
    }
}

} // verus!

verus! {

/// Wraps `input` at `width` columns in one pass.
pub fn word_wrap(input: &[u8], width: usize) -> (r: Vec<u8>)
    ensures
        r@ == word_wrap_spec(input@, width as int),
{
    let length: usize = input.len();
    assert(input@.len() == length);
    let mut wrapper = WordWrapWriter::new(width);
    wrapper.write(input);
    wrapper.finish()
}

} // verus!
