//! The lines that word wrapping writes, and why each fits the width limit.

use vstd::prelude::*;

use crate::bytes::spaces;
use crate::wrap::{
    chunk_word, lacks, place_word, segment_spec, visible_width_spec, word_wrap_spec, wrap_byte,
    wrap_bytes, wrap_init, WrapState,
};

verus! {

/// How a piece of a wrapped line is measured.
pub enum PieceKind {
    /// A run of separator columns, one space each.
    Gap,
    /// A whole word, measured by its visible width.
    Word,
    /// One segment split from the remainder `rest` of a word too wide for its line,
    /// measured by the width of that segment alone.
    Segment { rest: Seq<u8> },
    /// One box-drawing character of a table border, one column.
    Glyph,
}

/// A run of bytes of a wrapped line with the width wrapping counts for it.
pub struct Piece {
    pub bytes: Seq<u8>,
    pub width: int,
    pub kind: PieceKind,
}

/// The first segment of a word remainder and its width, as wrapping splits it; the
/// whole remainder, uncounted, where no segment length can be taken from it.
pub open spec fn segment_piece(rest: Seq<u8>) -> (Seq<u8>, int) {
    let (consumed, segment_width) = segment_spec(rest);
    if 1 <= consumed <= rest.len() {
        (rest.take(consumed), segment_width)
    } else {
        (rest, 0)
    }
}

/// A piece holds no newline and its width is what its kind says: the number of
/// spaces of a gap, the visible width of a word, the width of a segment, one column
/// for a border glyph.
pub open spec fn measured(p: Piece) -> bool {
    &&& p.width >= 0
    &&& lacks(p.bytes, 10u8)
    &&& match p.kind {
        PieceKind::Gap => p.bytes == spaces(p.width as nat),
        PieceKind::Word => p.width == visible_width_spec(p.bytes) as int,
        PieceKind::Segment { rest } => rest.len() > 0 && (p.bytes, p.width) == segment_piece(rest),
        PieceKind::Glyph => p.width == 1 && is_box_glyph(p.bytes),
    }
}

/// Whether `bytes` encode one character of the box-drawing block from U+2500 to
/// U+253F.
pub open spec fn is_box_glyph(bytes: Seq<u8>) -> bool {
    bytes.len() == 3 && bytes[0] == 0xe2u8 && bytes[1] == 0x94u8 && 0x80u8 <= bytes[2] <= 0xbfu8
}

/// The bytes of a run of pieces, in order.
pub open spec fn pieces_bytes(ps: Seq<Piece>) -> Seq<u8>
    decreases ps.len(),
{
    if ps.len() == 0 {
        Seq::empty()
    } else {
        pieces_bytes(ps.drop_last()) + ps.last().bytes
    }
}

/// The width wrapping counts for a run of pieces: the sum of their widths.
pub open spec fn pieces_width(ps: Seq<Piece>) -> int
    decreases ps.len(),
{
    if ps.len() == 0 {
        0
    } else {
        pieces_width(ps.drop_last()) + ps.last().width
    }
}

/// How many pieces of a run take up any columns.
pub open spec fn visible_pieces(ps: Seq<Piece>) -> int
    decreases ps.len(),
{
    if ps.len() == 0 {
        0
    } else {
        visible_pieces(ps.drop_last()) + if ps.last().width > 0 {
            1int
        } else {
            0int
        }
    }
}

/// Complete lines: each line's bytes followed by a newline.
pub open spec fn lines_bytes(lines: Seq<Seq<Piece>>) -> Seq<u8>
    decreases lines.len(),
{
    if lines.len() == 0 {
        Seq::empty()
    } else {
        lines_bytes(lines.drop_last()) + pieces_bytes(lines.last()).push(10u8)
    }
}

/// A line fits `width` columns: its pieces add up to at most `width`, or its only
/// piece that takes up columns is a single segment of a word, which alone is wider
/// than the limit.
pub open spec fn line_fits(ps: Seq<Piece>, width: int) -> bool {
    ||| pieces_width(ps) <= width
    ||| visible_pieces(ps) == 1 && forall|j: int|
        0 <= j < ps.len() && #[trigger] ps[j].width > 0 ==> ps[j].kind is Segment
}

/// A line of measured pieces that fits.
pub open spec fn line_ok(ps: Seq<Piece>, width: int) -> bool {
    &&& forall|j: int| 0 <= j < ps.len() ==> measured(#[trigger] ps[j])
    &&& line_fits(ps, width)
}

/// `out` is the complete `lines` followed by the unfinished line `last`, and every
/// one of these lines is made of measured pieces and fits `width`.
pub open spec fn wrapped_lines(out: Seq<u8>, lines: Seq<Seq<Piece>>, last: Seq<Piece>, width: int) -> bool {
    &&& out == lines_bytes(lines) + pieces_bytes(last)
    &&& forall|i: int| 0 <= i < lines.len() ==> line_ok(#[trigger] lines[i], width)
    &&& line_ok(last, width)
}

/// Every line that word wrapping writes fits the width limit. The output splits at
/// its newlines into lines of pieces, each measured as wrapping measures it: a run
/// of separator spaces by its length, a whole word by its visible width, a segment
/// of a word too wide for any line by the width of that segment. On each line the
/// pieces add up to at most `width` columns, unless the line's only piece that takes
/// up columns is one such segment, wider by itself than the limit.
pub proof fn lemma_word_wrap_lines_fit(input: Seq<u8>, width: int)
    requires
        width >= 0,
    ensures
        exists|lines: Seq<Seq<Piece>>, last: Seq<Piece>|
            wrapped_lines(word_wrap_spec(input, width), lines, last, width),
{
    let start = Tally { lines: Seq::empty(), current: Seq::empty() };
    assert(lines_bytes(start.lines) + pieces_bytes(start.current) =~= Seq::<u8>::empty());
    assert(lacks(Seq::<u8>::empty(), 10u8));
    let t1 = lemma_wrap_bytes_tally(wrap_init(), input, width, start);
    let s = wrap_bytes(wrap_init(), input, width);
    let t2 = lemma_place_tally(s, width, t1);
    assert(wrapped_lines(word_wrap_spec(input, width), t2.lines, t2.current, width));
}

/// The lines written so far and the pieces of the current line.
struct Tally {
    lines: Seq<Seq<Piece>>,
    current: Seq<Piece>,
}

/// `out` and the width of its current line agree with a tally of fitting lines.
spec fn tally_inv(out: Seq<u8>, line_width: int, t: Tally, width: int) -> bool {
    &&& wrapped_lines(out, t.lines, t.current, width)
    &&& line_width == pieces_width(t.current)
    &&& line_width >= 0
    &&& width >= 0
}

pub(crate) proof fn lemma_push_piece(ps: Seq<Piece>, p: Piece)
    ensures
        pieces_bytes(ps.push(p)) == pieces_bytes(ps) + p.bytes,
        pieces_width(ps.push(p)) == pieces_width(ps) + p.width,
        visible_pieces(ps.push(p)) == visible_pieces(ps) + if p.width > 0 {
            1int
        } else {
            0int
        },
{
    assert(ps.push(p).drop_last() =~= ps);
}

proof fn lemma_push_line(lines: Seq<Seq<Piece>>, ps: Seq<Piece>)
    ensures
        lines_bytes(lines.push(ps)) == lines_bytes(lines) + pieces_bytes(ps).push(10u8),
{
    assert(lines.push(ps).drop_last() =~= lines);
}

/// With no negative widths, each width is at most the sum, and a run that adds up
/// to zero has no piece that takes up columns.
proof fn lemma_widths(ps: Seq<Piece>)
    requires
        forall|j: int| 0 <= j < ps.len() ==> (#[trigger] ps[j]).width >= 0,
    ensures
        pieces_width(ps) >= 0,
        forall|j: int| 0 <= j < ps.len() ==> (#[trigger] ps[j]).width <= pieces_width(ps),
        pieces_width(ps) == 0 ==> visible_pieces(ps) == 0,
    decreases ps.len(),
{
    if ps.len() > 0 {
        let init = ps.drop_last();
        assert forall|j: int| 0 <= j < init.len() implies (#[trigger] init[j]).width >= 0 by {
            assert(init[j] == ps[j]);
        }
        lemma_widths(init);
        assert forall|j: int| 0 <= j < ps.len() implies (#[trigger] ps[j]).width <= pieces_width(ps) by {
            if j < init.len() {
                assert(init[j] == ps[j]);
            }
        }
    }
}

/// A fitting line stays fitting when a measured piece is added that fits beside
/// it, takes up no columns, or is a segment opening an otherwise blank line.
proof fn lemma_extend_line(ps: Seq<Piece>, p: Piece, width: int)
    requires
        line_ok(ps, width),
        measured(p),
        pieces_width(ps) + p.width <= width || p.width == 0 || (pieces_width(ps) == 0
            && p.kind is Segment),
    ensures
        line_ok(ps.push(p), width),
        pieces_width(ps.push(p)) == pieces_width(ps) + p.width,
        pieces_bytes(ps.push(p)) == pieces_bytes(ps) + p.bytes,
{
    let qs = ps.push(p);
    lemma_push_piece(ps, p);
    assert forall|j: int| 0 <= j < qs.len() implies measured(#[trigger] qs[j]) by {
        if j < ps.len() {
            assert(qs[j] == ps[j]);
        }
    }
    assert forall|j: int| 0 <= j < ps.len() implies (#[trigger] ps[j]).width >= 0 by {
        assert(measured(ps[j]));
    }
    lemma_widths(ps);
    if pieces_width(qs) > width {
        if p.width == 0 {
            assert forall|j: int| 0 <= j < qs.len() && #[trigger] qs[j].width > 0 implies qs[j].kind is Segment by {
                assert(j < ps.len());
                assert(qs[j] == ps[j]);
            }
        } else {
            assert forall|j: int| 0 <= j < qs.len() && #[trigger] qs[j].width > 0 implies qs[j].kind is Segment by {
                if j < ps.len() {
                    assert(qs[j] == ps[j]);
                    assert(ps[j].width <= pieces_width(ps));
                }
            }
        }
    }
}

/// Closing the current line: the output gains a newline and the tally a line.
proof fn lemma_close_line(out: Seq<u8>, line_width: int, t: Tally, width: int) -> (t2: Tally)
    requires
        tally_inv(out, line_width, t, width),
    ensures
        tally_inv(out.push(10u8), 0, t2, width),
{
    let t2 = Tally { lines: t.lines.push(t.current), current: Seq::empty() };
    lemma_push_line(t.lines, t.current);
    assert(out.push(10u8) =~= lines_bytes(t2.lines) + pieces_bytes(t2.current));
    assert forall|i: int| 0 <= i < t2.lines.len() implies line_ok(#[trigger] t2.lines[i], width) by {
        if i < t.lines.len() {
            assert(t2.lines[i] == t.lines[i]);
        }
    }
    t2
}

proof fn lemma_add_piece(out: Seq<u8>, line_width: int, t: Tally, p: Piece, width: int) -> (t2: Tally)
    requires
        tally_inv(out, line_width, t, width),
        measured(p),
        line_width + p.width <= width || p.width == 0 || (line_width == 0 && p.kind is Segment),
    ensures
        tally_inv(out + p.bytes, line_width + p.width, t2, width),
        t2.lines == t.lines,
{
    lemma_extend_line(t.current, p, width);
    let t2 = Tally { lines: t.lines, current: t.current.push(p) };
    assert(out + p.bytes =~= lines_bytes(t2.lines) + pieces_bytes(t2.current));
    t2
}

proof fn lemma_chunk_tally(out: Seq<u8>, line_width: int, rest: Seq<u8>, width: int, t: Tally) -> (t2: Tally)
    requires
        tally_inv(out, line_width, t, width),
        lacks(rest, 10u8),
    ensures
        tally_inv(chunk_word(out, line_width, rest, width).0, chunk_word(out, line_width, rest, width).1, t2, width),
    decreases rest.len(),
{
    if rest.len() == 0 {
        t
    } else {
        let (consumed, segment_width) = segment_spec(rest);
        if 1 <= consumed <= rest.len() {
            let broken = segment_width > 0 && line_width > 0 && line_width + segment_width > width;
            let piece = Piece { bytes: rest.take(consumed), width: segment_width, kind: PieceKind::Segment { rest } };
            assert forall|i: int| 0 <= i < piece.bytes.len() implies piece.bytes[i] != 10u8 by {
                assert(piece.bytes[i] == rest[i]);
            }
            assert(measured(piece));
            let tail = rest.skip(consumed);
            assert forall|i: int| 0 <= i < tail.len() implies tail[i] != 10u8 by {
                assert(tail[i] == rest[i + consumed]);
            }
            if broken {
                let t1 = lemma_close_line(out, line_width, t, width);
                let t3 = lemma_add_piece(out.push(10u8), 0, t1, piece, width);
                lemma_chunk_tally(out.push(10u8) + piece.bytes, segment_width, tail, width, t3)
            } else {
                let t3 = lemma_add_piece(out, line_width, t, piece, width);
                lemma_chunk_tally(out + piece.bytes, line_width + segment_width, tail, width, t3)
            }
        } else {
            let piece = Piece { bytes: rest, width: 0, kind: PieceKind::Segment { rest } };
            assert(measured(piece));
            let t3 = lemma_add_piece(out, line_width, t, piece, width);
            assert(line_width + 0 == line_width);
            t3
        }
    }
}

proof fn lemma_place_tally(s: WrapState, width: int, t: Tally) -> (t2: Tally)
    requires
        tally_inv(s.out, s.line_width, t, width),
        lacks(s.word, 10u8),
        s.gap >= 0,
    ensures
        tally_inv(place_word(s, width).out, place_word(s, width).line_width, t2, width),
{
    if s.word.len() == 0 {
        t
    } else {
        let word_width = visible_width_spec(s.word) as int;
        let (out1, line1, t1) = if s.line_width == 0 {
            (s.out, 0, t)
        } else if s.line_width + s.gap + word_width > width {
            (s.out.push(10u8), 0, lemma_close_line(s.out, s.line_width, t, width))
        } else {
            let gap = Piece { bytes: spaces(s.gap as nat), width: s.gap, kind: PieceKind::Gap };
            assert(lacks(gap.bytes, 10u8));
            (s.out + gap.bytes, s.line_width + s.gap, lemma_add_piece(s.out, s.line_width, t, gap, width))
        };
        assert(tally_inv(out1, line1, t1, width));
        if line1 + word_width > width {
            lemma_chunk_tally(out1, line1, s.word, width, t1)
        } else {
            let word = Piece { bytes: s.word, width: word_width, kind: PieceKind::Word };
            lemma_add_piece(out1, line1, t1, word, width)
        }
    }
}

proof fn lemma_wrap_bytes_tally(s: WrapState, input: Seq<u8>, width: int, t: Tally) -> (t2: Tally)
    requires
        tally_inv(s.out, s.line_width, t, width),
        lacks(s.word, 10u8),
        s.gap >= 0,
    ensures
        tally_inv(wrap_bytes(s, input, width).out, wrap_bytes(s, input, width).line_width, t2, width),
        lacks(wrap_bytes(s, input, width).word, 10u8),
        wrap_bytes(s, input, width).gap >= 0,
    decreases input.len(),
{
    if input.len() == 0 {
        t
    } else {
        let byte = input[0];
        let next = wrap_byte(s, byte, width);
        let t1 = if byte == 10 {
            let placed = place_word(s, width);
            let tp = lemma_place_tally(s, width, t);
            lemma_close_line(placed.out, placed.line_width, tp, width)
        } else if byte == 32 || byte == 9 {
            lemma_place_tally(s, width, t)
        } else {
            assert forall|i: int| 0 <= i < next.word.len() implies next.word[i] != 10u8 by {
                if i < s.word.len() {
                    assert(next.word[i] == s.word[i]);
                }
            }
            t
        };
        assert(lacks(Seq::<u8>::empty(), 10u8));
        lemma_wrap_bytes_tally(next, input.drop_first(), width, t1)
    }
}

} // verus!
