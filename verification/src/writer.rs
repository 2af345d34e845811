//! Byte-level output helpers: repeated text, line prefixes and width measurement.

use vstd::prelude::*;
use vstd::string::StringSliceAdditionalSpecFns;

use crate::utf8::utf8_complete_prefix;
use crate::wrap::display_width;
use vstd::utf8::decode_utf8;
use crate::utf8::longest_valid_prefix_len;
use crate::wrap::spec_display_width;
use crate::bytes::{append_bytes, lemma_repeat_add, lemma_repeat_len, lemma_repeat_take, lemma_spaces_repeat, repeat, spaces};

verus! {

/// Writes `count` spaces.
pub fn write_spaces(out: &mut Vec<u8>, count: usize)
    ensures
        final(out)@ == old(out)@ + spaces(count as nat),
{
    let chunk = [32u8; 64];
    let chunk = chunk.as_slice();
    proof {
        lemma_spaces_repeat(64);
        lemma_spaces_repeat(count as nat);
        assert(chunk@ =~= spaces(64));
    }
    let ghost space = seq![32u8];
    write_chunked_repeats(out, chunk, 1, count, Ghost(space));
}

/// Writes `text` repeated `count` times.
pub fn write_repeated_str(out: &mut Vec<u8>, text: &str, count: usize)
    ensures
        final(out)@ == old(out)@ + repeat(text.spec_bytes(), count as nat),
{
    let ghost unit = text.spec_bytes();
    if text.is_empty() || count == 0 {
        proof {
            if count > 0 {
                assert(text@ =~= Seq::<char>::empty());
                assert(unit.len() == 0);
                lemma_repeat_len(unit, count as nat);
                assert(count * unit.len() == 0) by (nonlinear_arith)
                    requires unit.len() == 0;
            }
            assert(repeat(unit, count as nat) =~= Seq::<u8>::empty());
        }
        return;
    }
    let bytes = text.as_bytes();
    proof {
        if bytes@.len() == 0 {
            assert(unit.len() == 0);
            assert(text@.len() == 0) by {
                if text@.len() > 0 {
                    vstd::utf8::encode_utf8_first_scalar(text@);
                }
            }
        }
    }
    if bytes.len() > BUFFER_SIZE {
        let mut written: usize = 0;
        while written < count
            invariant
                written <= count,
                bytes@ == unit,
                out@ == old(out)@ + repeat(unit, written as nat),
            decreases count - written,
        {
            append_bytes(out, bytes);
            written += 1;
        }
        return;
    }
    let repeats = BUFFER_SIZE / bytes.len();
    proof {
        let l = bytes@.len() as int;
        assert(1 <= repeats && repeats * l <= 256) by (nonlinear_arith)
            requires 0 < l <= 256, repeats == 256int / l;
    }
    let mut chunk: Vec<u8> = Vec::new();
    let mut built: usize = 0;
    while built < repeats
        invariant
            built <= repeats,
            repeats * bytes@.len() <= BUFFER_SIZE,
            bytes@ == unit,
            chunk@ == repeat(unit, built as nat),
        decreases repeats - built,
    {
        append_bytes(&mut chunk, bytes);
        built += 1;
    }
    proof {
        lemma_repeat_len(unit, repeats as nat);
        assert(repeats >= 1);
        assert(repeats * bytes@.len() >= bytes@.len()) by (nonlinear_arith)
            requires repeats >= 1;
        assert(((repeats as int) * (bytes@.len() as int)) / (bytes@.len() as int) == repeats as int) by (nonlinear_arith)
            requires bytes@.len() > 0;
        assert(((repeats as int) * (bytes@.len() as int)) % (bytes@.len() as int) == 0) by (nonlinear_arith)
            requires bytes@.len() > 0;
    }
    write_chunked_repeats(out, chunk.as_slice(), bytes.len(), count, Ghost(unit));
}

/// What a [`LinePrefixWriter`] writes at the start of each line: `normal` before a
/// line with content, `blank` before a line whose only content is its terminating
/// newline (so callers can drop trailing whitespace, e.g. a bare `│` for blank quote
/// lines).
#[derive(Debug, Clone)]
pub struct LinePrefix {
    /// Prefix of a line with content.
    pub normal: Vec<u8>,
    /// Prefix of an empty line.
    pub blank: Vec<u8>,
}

/// The state of a line-prefixing writer.
pub struct PrefixState {
    /// Bytes emitted so far.
    pub out: Seq<u8>,
    /// Whether the next byte starts a line.
    pub at_line_start: bool,
    /// Whether the next line's prefix is skipped (a hanging first line).
    pub skip_next_prefix: bool,
    /// Whether any prefix has been written.
    pub wrote_anything: bool,
}

/// The state of a fresh line-prefixing writer; `hanging` skips the first line's
/// prefix so the caller can place that line's leading content itself.
pub open spec fn prefix_init(hanging: bool) -> PrefixState {
    PrefixState {
        out: Seq::empty(),
        at_line_start: true,
        skip_next_prefix: hanging,
        wrote_anything: false,
    }
}

/// Feeds one byte to the line-prefixing writer: at a line start the prefix (the
/// blank-line one when the byte is a newline) comes first, unless it is skipped.
pub open spec fn prefix_byte(s: PrefixState, normal: Seq<u8>, blank: Seq<u8>, byte: u8) -> PrefixState {
    let writes_prefix = s.at_line_start && !s.skip_next_prefix;
    let prefix = if writes_prefix {
        if byte == 10 {
            blank
        } else {
            normal
        }
    } else {
        Seq::empty()
    };
    PrefixState {
        out: s.out + prefix + seq![byte],
        at_line_start: byte == 10,
        skip_next_prefix: if s.at_line_start {
            false
        } else {
            s.skip_next_prefix
        },
        wrote_anything: s.wrote_anything || writes_prefix,
    }
}

/// Feeds `input` to the line-prefixing writer byte by byte.
pub open spec fn prefix_bytes(s: PrefixState, normal: Seq<u8>, blank: Seq<u8>, input: Seq<u8>) -> PrefixState
    decreases input.len(),
{
    if input.len() == 0 {
        s
    } else {
        prefix_bytes(prefix_byte(s, normal, blank, input[0]), normal, blank, input.drop_first())
    }
}

proof fn lemma_prefix_bytes_push(s: PrefixState, normal: Seq<u8>, blank: Seq<u8>, input: Seq<u8>, byte: u8)
    ensures
        prefix_bytes(s, normal, blank, input.push(byte)) == prefix_byte(
            prefix_bytes(s, normal, blank, input),
            normal,
            blank,
            byte,
        ),
    decreases input.len(),
{
    if input.len() == 0 {
        assert(input.push(byte).drop_first() =~= Seq::<u8>::empty());
        assert(input.push(byte)[0] == byte);
        assert(prefix_bytes(prefix_byte(s, normal, blank, byte), normal, blank, Seq::<u8>::empty())
            == prefix_byte(s, normal, blank, byte));
    } else {
        assert(input.push(byte).drop_first() =~= input.drop_first().push(byte));
        assert(input.push(byte)[0] == input[0]);
        lemma_prefix_bytes_push(prefix_byte(s, normal, blank, input[0]), normal, blank, input.drop_first(), byte);
    }
}

/// Without a hanging first line, some prefix is written exactly when there is input.
pub proof fn lemma_prefix_wrote_anything(normal: Seq<u8>, blank: Seq<u8>, input: Seq<u8>)
    ensures
        prefix_bytes(prefix_init(false), normal, blank, input).wrote_anything <==> input.len() > 0,
{
    if input.len() > 0 {
        lemma_prefix_keeps_wrote(prefix_byte(prefix_init(false), normal, blank, input[0]), normal, blank, input.drop_first());
    }
}

proof fn lemma_prefix_keeps_wrote(s: PrefixState, normal: Seq<u8>, blank: Seq<u8>, input: Seq<u8>)
    requires
        s.wrote_anything,
    ensures
        prefix_bytes(s, normal, blank, input).wrote_anything,
    decreases input.len(),
{
    if input.len() > 0 {
        lemma_prefix_keeps_wrote(prefix_byte(s, normal, blank, input[0]), normal, blank, input.drop_first());
    }
}

/// The length of the first line of `input`: up to and including its first
/// newline, or all of it when it has none.
pub open spec fn first_line_len(input: Seq<u8>) -> int
    decreases input.len(),
{
    if input.len() == 0 {
        0
    } else if input[0] == 10 {
        1
    } else {
        1 + first_line_len(input.drop_first())
    }
}

/// `input` split into lines (each up to and including its newline, the last one
/// possibly without), each preceded by its prefix: `blank` for a line that is a
/// lone newline, else `normal`, and none for the first line when `skip_first`.
pub open spec fn prefixed_lines(normal: Seq<u8>, blank: Seq<u8>, input: Seq<u8>, skip_first: bool) -> Seq<u8>
    decreases input.len(),
{
    if input.len() == 0 {
        Seq::empty()
    } else {
        let k = first_line_len(input);
        let line = input.take(k);
        let prefix = if skip_first {
            Seq::empty()
        } else if line == seq![10u8] {
            blank
        } else {
            normal
        };
        proof {
            lemma_first_line_len(input);
        }
        prefix + line + prefixed_lines(normal, blank, input.skip(k), false)
    }
}

pub proof fn lemma_first_line_len(input: Seq<u8>)
    ensures
        input.len() > 0 ==> 1 <= first_line_len(input) <= input.len(),
        forall|j: int| 0 <= j < first_line_len(input) - 1 ==> input[j] != 10,
        first_line_len(input) < input.len() ==> input[first_line_len(input) - 1] == 10,
        input.len() > 0 && input[0] == 10 ==> first_line_len(input) == 1,
    decreases input.len(),
{
    if input.len() > 0 && input[0] != 10 {
        let rest = input.drop_first();
        lemma_first_line_len(rest);
        assert forall|j: int| 0 <= j < first_line_len(input) - 1 implies input[j] != 10 by {
            if j > 0 {
                assert(input[j] == rest[j - 1]);
            }
        }
        if first_line_len(input) < input.len() {
            assert(input[first_line_len(input) - 1] == rest[first_line_len(rest) - 1]);
        }
    }
}

/// Writing through a line-prefixing writer in two pieces is writing the whole at once.
pub proof fn lemma_prefix_bytes_append(s: PrefixState, normal: Seq<u8>, blank: Seq<u8>, a: Seq<u8>, b: Seq<u8>)
    ensures
        prefix_bytes(s, normal, blank, a + b) == prefix_bytes(prefix_bytes(s, normal, blank, a), normal, blank, b),
    decreases a.len(),
{
    if a.len() > 0 {
        assert((a + b).drop_first() =~= a.drop_first() + b);
        assert((a + b)[0] == a[0]);
        lemma_prefix_bytes_append(prefix_byte(s, normal, blank, a[0]), normal, blank, a.drop_first(), b);
    } else {
        assert(a + b =~= b);
    }
}

/// Bytes of a line after its first, none of them a newline but maybe the last,
/// are copied as they are.
proof fn lemma_prefix_mid_line(s: PrefixState, normal: Seq<u8>, blank: Seq<u8>, rest: Seq<u8>)
    requires
        !s.at_line_start,
        forall|j: int| 0 <= j < rest.len() - 1 ==> rest[j] != 10,
    ensures
        prefix_bytes(s, normal, blank, rest).out == s.out + rest,
        rest.len() > 0 ==> prefix_bytes(s, normal, blank, rest).at_line_start == (rest.last() == 10),
        rest.len() == 0 ==> prefix_bytes(s, normal, blank, rest).at_line_start == s.at_line_start,
    decreases rest.len(),
{
    if rest.len() > 0 {
        let next = prefix_byte(s, normal, blank, rest[0]);
        assert(next.out =~= s.out + seq![rest[0]]);
        let tail = rest.drop_first();
        if tail.len() > 0 {
            assert(rest[0] != 10);
            assert forall|j: int| 0 <= j < tail.len() - 1 implies tail[j] != 10 by {
                assert(tail[j] == rest[j + 1]);
            }
            lemma_prefix_mid_line(next, normal, blank, tail);
            assert(tail.last() == rest.last());
        } else {
            assert(rest.last() == rest[0]);
            assert(prefix_bytes(next, normal, blank, tail) == next);
        }
        assert(seq![rest[0]] + tail =~= rest);
    } else {
        assert(s.out + rest =~= s.out);
    }
}

proof fn lemma_prefix_lines(s: PrefixState, normal: Seq<u8>, blank: Seq<u8>, input: Seq<u8>)
    requires
        s.at_line_start,
    ensures
        prefix_bytes(s, normal, blank, input).out == s.out + prefixed_lines(normal, blank, input, s.skip_next_prefix),
    decreases input.len(),
{
    if input.len() == 0 {
        assert(s.out + Seq::<u8>::empty() =~= s.out);
    } else {
        lemma_first_line_len(input);
        let k = first_line_len(input);
        let line = input.take(k);
        let after = input.skip(k);
        assert(line + after =~= input);
        lemma_prefix_bytes_append(s, normal, blank, line, after);
        let first = prefix_byte(s, normal, blank, input[0]);
        let tail = line.drop_first();
        assert(seq![line[0]] + tail =~= line);
        assert(line[0] == input[0]);
        let prefix = if s.skip_next_prefix {
            Seq::<u8>::empty()
        } else if line == seq![10u8] {
            blank
        } else {
            normal
        };
        if k == 1 {
            assert(tail =~= Seq::<u8>::empty());
            assert(line =~= seq![input[0]]);
            assert((line == seq![10u8]) == (input[0] == 10));
        } else {
            assert(input[0] != 10);
            assert(line != seq![10u8]) by {
                assert(line.len() != 1);
            }
        }
        assert(first.out == s.out + prefix + seq![line[0]]);
        assert(prefix_bytes(s, normal, blank, seq![line[0]]) == first) by {
            let single = seq![line[0]];
            assert(single.drop_first() =~= Seq::<u8>::empty());
            assert(single[0] == line[0]);
            assert(prefix_bytes(first, normal, blank, single.drop_first()) == first);
        }
        assert(!first.skip_next_prefix);
        if k == 1 {
            assert(prefix_bytes(first, normal, blank, tail) == first);
            lemma_prefix_bytes_append(s, normal, blank, seq![line[0]], tail);
        } else {
            assert(!first.at_line_start);
            assert forall|j: int| 0 <= j < tail.len() - 1 implies tail[j] != 10 by {
                assert(tail[j] == input[j + 1]);
            }
            lemma_prefix_mid_line(first, normal, blank, tail);
            lemma_prefix_bytes_append(s, normal, blank, seq![line[0]], tail);
            assert(tail.last() == input[k - 1]);
        }
        let mid = prefix_bytes(s, normal, blank, line);
        assert(mid.out =~= s.out + prefix + line);
        assert(!mid.skip_next_prefix) by {
            if k > 1 {
                lemma_prefix_keeps_skip_off(first, normal, blank, tail);
            }
        }
        if after.len() > 0 {
            assert(input[k - 1] == 10);
            assert(mid.at_line_start);
            lemma_prefix_lines(mid, normal, blank, after);
        }
        assert(prefixed_lines(normal, blank, input, s.skip_next_prefix) == prefix + line + prefixed_lines(
            normal,
            blank,
            after,
            false,
        ));
        assert(s.out + prefix + line + prefixed_lines(normal, blank, after, false) =~= s.out + (prefix + line
            + prefixed_lines(normal, blank, after, false)));
    }
}

proof fn lemma_prefix_keeps_skip_off(s: PrefixState, normal: Seq<u8>, blank: Seq<u8>, input: Seq<u8>)
    requires
        !s.skip_next_prefix,
    ensures
        !prefix_bytes(s, normal, blank, input).skip_next_prefix,
    decreases input.len(),
{
    if input.len() > 0 {
        lemma_prefix_keeps_skip_off(prefix_byte(s, normal, blank, input[0]), normal, blank, input.drop_first());
    }
}

/// Line by line: what a line-prefixing writer emits for `input`, in one write or
/// several, is each line of the input after its prefix (the blank-line prefix for
/// a lone newline), the first line without one when the writer is hanging.
pub proof fn lemma_prefix_per_line(normal: Seq<u8>, blank: Seq<u8>, input: Seq<u8>, hanging: bool)
    ensures
        prefix_bytes(prefix_init(hanging), normal, blank, input).out == prefixed_lines(normal, blank, input, hanging),
{
    lemma_prefix_lines(prefix_init(hanging), normal, blank, input);
    assert(Seq::<u8>::empty() + prefixed_lines(normal, blank, input, hanging) =~= prefixed_lines(
        normal,
        blank,
        input,
        hanging,
    ));
}

/// The bytes of several writes, in order.
pub open spec fn joined_writes(writes: Seq<Seq<u8>>) -> Seq<u8>
    decreases writes.len(),
{
    if writes.len() == 0 {
        Seq::empty()
    } else {
        joined_writes(writes.drop_last()) + writes.last()
    }
}

/// The state of a line-prefixing writer after each of `writes` was fed to it in turn.
pub open spec fn prefix_writes(s: PrefixState, normal: Seq<u8>, blank: Seq<u8>, writes: Seq<Seq<u8>>) -> PrefixState
    decreases writes.len(),
{
    if writes.len() == 0 {
        s
    } else {
        prefix_bytes(prefix_writes(s, normal, blank, writes.drop_last()), normal, blank, writes.last())
    }
}

/// However the input is split across writes, a line-prefixing writer emits each line
/// of the whole input after its prefix (the blank-line prefix for a lone newline),
/// the first line without one when the writer is hanging; nothing for no input.
pub proof fn lemma_prefix_any_split(normal: Seq<u8>, blank: Seq<u8>, writes: Seq<Seq<u8>>, hanging: bool)
    ensures
        prefix_writes(prefix_init(hanging), normal, blank, writes).out == prefixed_lines(
            normal,
            blank,
            joined_writes(writes),
            hanging,
        ),
{
    lemma_prefix_writes_joined(prefix_init(hanging), normal, blank, writes);
    lemma_prefix_per_line(normal, blank, joined_writes(writes), hanging);
}

proof fn lemma_prefix_writes_joined(s: PrefixState, normal: Seq<u8>, blank: Seq<u8>, writes: Seq<Seq<u8>>)
    ensures
        prefix_writes(s, normal, blank, writes) == prefix_bytes(s, normal, blank, joined_writes(writes)),
    decreases writes.len(),
{
    if writes.len() > 0 {
        lemma_prefix_writes_joined(s, normal, blank, writes.drop_last());
        lemma_prefix_bytes_append(s, normal, blank, joined_writes(writes.drop_last()), writes.last());
    }
}

/// An unused line-prefixing writer emits nothing: no orphaned prefix.
pub proof fn lemma_prefix_empty_input(normal: Seq<u8>, blank: Seq<u8>, hanging: bool)
    ensures
        prefix_bytes(prefix_init(hanging), normal, blank, Seq::empty()).out.len() == 0,
{
}

/// A writer adapter that emits a prefix at the start of every line.
pub struct LinePrefixWriter {
    out: Vec<u8>,
    prefix: LinePrefix,
    at_line_start: bool,
    skip_next_prefix: bool,
    wrote_anything: bool,
}

impl View for LinePrefixWriter {
    type V = PrefixState;

    closed spec fn view(&self) -> PrefixState {
        PrefixState {
            out: self.out@,
            at_line_start: self.at_line_start,
            skip_next_prefix: self.skip_next_prefix,
            wrote_anything: self.wrote_anything,
        }
    }
}

impl LinePrefixWriter {
    /// The prefix written before lines with content.
    pub closed spec fn spec_normal(&self) -> Seq<u8> {
        self.prefix.normal@
    }

    /// The prefix written before empty lines.
    pub closed spec fn spec_blank(&self) -> Seq<u8> {
        self.prefix.blank@
    }

    /// Creates a writer that emits `prefix` at the start of every line. With
    /// `hanging`, the first line is not prefixed, so the caller can place that line's
    /// leading content itself (a hanging indent).
    pub fn new(prefix: LinePrefix, hanging: bool) -> (r: Self)
        ensures
            r@ == prefix_init(hanging),
            r.spec_normal() == prefix.normal@,
            r.spec_blank() == prefix.blank@,
    {
        LinePrefixWriter {
            out: Vec::new(),
            prefix,
            at_line_start: true,
            skip_next_prefix: hanging,
            wrote_anything: false,
        }
    }

    /// Whether any prefix has been written.
    pub fn wrote_anything(&self) -> (r: bool)
        ensures
            r == self@.wrote_anything,
    {
        self.wrote_anything
    }

    /// Feeds `buffer` to the writer.
    pub fn write(&mut self, buffer: &[u8])
        ensures
            final(self)@ == prefix_bytes(old(self)@, old(self).spec_normal(), old(self).spec_blank(), buffer@),
            final(self).spec_normal() == old(self).spec_normal(),
            final(self).spec_blank() == old(self).spec_blank(),
    {
        let ghost start = self@;
        let ghost normal = self.prefix.normal@;
        let ghost blank = self.prefix.blank@;
        let mut index: usize = 0;
        assert(buffer@.take(0) =~= Seq::<u8>::empty());
        while index < buffer.len()
            invariant
                index <= buffer@.len(),
                self.prefix.normal@ == normal,
                self.prefix.blank@ == blank,
                normal == old(self).spec_normal(),
                blank == old(self).spec_blank(),
                self@ == prefix_bytes(start, normal, blank, buffer@.take(index as int)),
            decreases buffer@.len() - index,
        {
            let byte = buffer[index];
            proof {
                assert(buffer@.take(index + 1) =~= buffer@.take(index as int).push(byte));
                lemma_prefix_bytes_push(start, normal, blank, buffer@.take(index as int), byte);
            }
            let ghost before = self@;
            if self.at_line_start {
                if self.skip_next_prefix {
                    self.skip_next_prefix = false;
                } else {
                    if byte == 10 {
                        append_bytes(&mut self.out, self.prefix.blank.as_slice());
                    } else {
                        append_bytes(&mut self.out, self.prefix.normal.as_slice());
                    }
                    self.wrote_anything = true;
                }
            }
            self.out.push(byte);
            self.at_line_start = byte == 10;
            assert(self@.out =~= prefix_byte(before, normal, blank, byte).out);
            index += 1;
        }
        assert(buffer@.take(buffer@.len() as int) =~= buffer@);
    }

    /// Returns everything the writer produced.
    pub fn into_output(self) -> (r: Vec<u8>)
        ensures
            r@ == self@.out,
    {
        self.out
    }
}

/// Writes `input` to `out` with `prefix` at the start of every line (the first line
/// unprefixed when `hanging`), returning whether any prefix was written.
pub fn write_prefixed(out: &mut Vec<u8>, input: &[u8], prefix: LinePrefix, hanging: bool) -> (r: bool)
    ensures
        final(out)@ == old(out)@ + prefix_bytes(prefix_init(hanging), prefix.normal@, prefix.blank@, input@).out,
        r == prefix_bytes(prefix_init(hanging), prefix.normal@, prefix.blank@, input@).wrote_anything,
{
    let mut writer = LinePrefixWriter::new(prefix, hanging);
    writer.write(input);
    let wrote = writer.wrote_anything();
    let produced = writer.into_output();
    append_bytes(out, produced.as_slice());
    wrote
}

/// The state of a width-measuring writer: the width counted so far and the bytes of a
/// trailing incomplete UTF-8 sequence held back for the next write.
pub struct MeasureState {
    /// Display width counted so far (saturating).
    pub width: usize,
    /// Bytes not yet measured.
    pub carry: Seq<u8>,
}

/// Measures `buffer` appended to the held-back bytes: the longest UTF-8-complete
/// prefix is measured and the rest is held back.
pub open spec fn measure_write(s: MeasureState, buffer: Seq<u8>) -> MeasureState {
    let combined = s.carry + buffer;
    let valid = longest_valid_prefix_len(combined, combined.len());
    let added = spec_display_width(decode_utf8(combined.take(valid as int))) as int;
    MeasureState {
        width: if s.width + added <= usize::MAX {
            (s.width + added) as usize
        } else {
            usize::MAX
        },
        carry: combined.skip(valid as int),
    }
}

/// A sink that discards its bytes and accumulates the unicode display width of the
/// UTF-8 text written through it, holding back a trailing incomplete sequence until
/// the next write completes it.
#[derive(Debug)]
pub struct WidthMeasuringWriter {
    width: usize,
    carry: Vec<u8>,
}

impl View for WidthMeasuringWriter {
    type V = MeasureState;

    closed spec fn view(&self) -> MeasureState {
        MeasureState { width: self.width, carry: self.carry@ }
    }
}

impl Default for WidthMeasuringWriter {
    fn default() -> (r: Self)
        ensures
            r@ == (MeasureState { width: 0, carry: Seq::empty() }),
    {
        WidthMeasuringWriter { width: 0, carry: Vec::new() }
    }
}

impl WidthMeasuringWriter {
    /// The display width measured so far.
    pub fn width(&self) -> (r: usize)
        ensures
            r == self@.width,
    {
        self.width
    }

    /// Measures `buffer`.
    pub fn write(&mut self, buffer: &[u8])
        ensures
            final(self)@ == measure_write(old(self)@, buffer@),
    {
        let ghost combined = self.carry@ + buffer@;
        if self.carry.len() == 0 {
            assert(combined =~= buffer@);
            let (valid, width) = utf8_prefix_width(buffer);
            self.width = self.width.saturating_add(width);
            let mut carry: Vec<u8> = Vec::new();
            append_bytes(&mut carry, &buffer[valid..buffer.len()]);
            assert(carry@ =~= combined.skip(valid as int));
            self.carry = carry;
        } else {
            append_bytes(&mut self.carry, buffer);
            let (valid, width) = utf8_prefix_width(self.carry.as_slice());
            self.width = self.width.saturating_add(width);
            let mut carry: Vec<u8> = Vec::new();
            append_bytes(&mut carry, &self.carry.as_slice()[valid..self.carry.len()]);
            assert(carry@ =~= combined.skip(valid as int));
            self.carry = carry;
        }
    }
}

/// Returns the length of the longest UTF-8-complete prefix of `bytes` and its unicode
/// display width; any trailing incomplete sequence is excluded from both.
fn utf8_prefix_width(bytes: &[u8]) -> (r: (usize, usize))
    ensures
        r.0 == longest_valid_prefix_len(bytes@, bytes@.len()),
        r.1 == spec_display_width(decode_utf8(bytes@.take(r.0 as int))),
        r.0 <= bytes@.len(),
{
    let total = bytes.len();
    let text = utf8_complete_prefix(bytes);
    let ghost valid = longest_valid_prefix_len(bytes@, bytes@.len());
    proof {
        crate::utf8::lemma_longest_valid_prefix_len_bound(bytes@, bytes@.len());
        assert(text.spec_bytes() == bytes@.take(valid as int));
        assert(text.spec_bytes().len() == valid);
        vstd::utf8::encode_utf8_decode_utf8(text@);
        assert(decode_utf8(bytes@.take(valid as int)) == text@);
    }
    let length = text.len();
    assert(length == valid);
    (length, display_width(text))
}

/// Size of the chunk that repeated text is assembled into before writing.
const BUFFER_SIZE: usize = 256;

/// Writes `count` repetitions of a `unit`-byte pattern, where `chunk` holds whole
/// repetitions of that pattern.
fn write_chunked_repeats(
    out: &mut Vec<u8>,
    chunk: &[u8],
    unit: usize,
    count: usize,
    Ghost(pattern): Ghost<Seq<u8>>,
)
    requires
        unit > 0,
        pattern.len() == unit,
        chunk@.len() >= unit,
        chunk@.len() % (unit as nat) == 0,
        chunk@ == repeat(pattern, chunk@.len() / (unit as nat)),
    ensures
        final(out)@ == old(out)@ + repeat(pattern, count as nat),
{
    let repeats_per_chunk = chunk.len() / unit;
    proof {
        assert(repeats_per_chunk >= 1) by (nonlinear_arith)
            requires chunk@.len() >= unit, unit > 0, repeats_per_chunk == chunk@.len() / (unit as nat);
    }
    let mut remaining = count;
    while remaining >= repeats_per_chunk
        invariant
            repeats_per_chunk >= 1,
            remaining <= count,
            chunk@ == repeat(pattern, repeats_per_chunk as nat),
            out@ == old(out)@ + repeat(pattern, (count - remaining) as nat),
        decreases remaining,
    {
        append_bytes(out, chunk);
        proof {
            lemma_repeat_add(pattern, (count - remaining) as nat, repeats_per_chunk as nat);
        }
        remaining -= repeats_per_chunk;
    }
    if remaining > 0 {
        proof {
            lemma_repeat_len(pattern, repeats_per_chunk as nat);
            assert(remaining * unit < repeats_per_chunk * unit) by (nonlinear_arith)
                requires remaining < repeats_per_chunk, unit > 0;
            lemma_repeat_take(pattern, repeats_per_chunk as nat, remaining as nat);
            lemma_repeat_add(pattern, (count - remaining) as nat, remaining as nat);
        }
        let end = remaining * unit;
        append_bytes(out, &chunk[0..end]);
        assert(chunk@.subrange(0, end as int) == chunk@.take(end as int));
    } else {
        assert(out@ == old(out)@ + repeat(pattern, count as nat));
    }
}

} // verus!
