//! The preview use case: parsing composed with rendering.

use vstd::prelude::*;
use vstd::string::StringSliceAdditionalSpecFns;

use crate::ast::Block;
use crate::layout::{finish_output, session};
use crate::options::{RenderOptions, RenderState};
use crate::builder::parses_to;
use crate::parse_error::ParseError;
use crate::renderer::Renderer;

verus! {

/// An I/O error reported while writing the rendered preview.
#[verifier::external_type_specification]
#[verifier::external_body]
pub struct ExIoError(std::io::Error);

/// Failure modes of the preview use case.
#[derive(Debug)]
pub enum PreviewError {
    /// The Markdown event stream was structurally inconsistent.
    Parse(ParseError),
    /// Writing the rendered preview failed.
    Write(std::io::Error),
}

impl PreviewError {
    /// A one-line description of the failure.
    pub fn message(&self) -> (r: String)
        ensures
            self is Parse ==> r@ == "unable to parse the Markdown document"@,
            self is Write ==> r@ == "unable to write the rendered preview"@,
    {
        match self {
            PreviewError::Parse(_) => String::from_str("unable to parse the Markdown document"),
            PreviewError::Write(_) => String::from_str("unable to write the rendered preview"),
        }
    }

    /// The write failure behind the error, if it is one.
    pub fn write_source(&self) -> (r: Option<&std::io::Error>)
        ensures
            r is Some <==> self is Write,
    {
        match self {
            PreviewError::Write(source) => Some(source),
            PreviewError::Parse(_) => None,
        }
    }

    /// The parse failure behind the error, if it is one.
    pub fn parse_source(&self) -> (r: Option<&ParseError>)
        ensures
            match self {
                PreviewError::Parse(e) => r == Some(e),
                PreviewError::Write(_) => r is None,
            },
    {
        match self {
            PreviewError::Parse(source) => Some(source),
            PreviewError::Write(_) => None,
        }
    }
}

/// The index of the first error in a stream of results, or its length.
pub open spec fn first_error<T, E>(items: Seq<Result<T, E>>) -> int
    decreases items.len(),
{
    if items.len() == 0 {
        0
    } else if items[0] is Err {
        0
    } else {
        1 + first_error(items.drop_first())
    }
}

proof fn lemma_first_error<T, E>(items: Seq<Result<T, E>>, k: int)
    requires
        0 <= k <= items.len(),
        forall|i: int| 0 <= i < k ==> items[i] is Ok,
        k < items.len() ==> items[k] is Err,
    ensures
        first_error(items) == k,
    decreases k,
{
    if k > 0 {
        let rest = items.drop_first();
        assert forall|i: int| 0 <= i < k - 1 implies rest[i] is Ok by {
            assert(rest[i] == items[i + 1]);
        }
        if k < items.len() {
            assert(rest[k - 1] == items[k]);
        }
        lemma_first_error(rest, k - 1);
    }
}

/// The blocks before index `k` of a stream of results.
pub open spec fn ok_blocks<'a>(items: Seq<Result<Block<'a>, PreviewError>>, k: int) -> Seq<Block<'a>> {
    Seq::new(k as nat, |i: int| items[i]->Ok_0)
}

/// What output `before` becomes when a stream is rendered into it: the blocks up to
/// the first error, each after its separator, then what `finish` leaves.
pub open spec fn stream_output<'a>(before: Seq<u8>, options: RenderOptions, items: Seq<Result<Block<'a>, PreviewError>>) -> Seq<u8> {
    finish_output(before + stream_session(options, items).0, stream_session(options, items).1)
}

/// What rendering a stream into empty output gives.
pub open spec fn stream_bytes<'a>(options: RenderOptions, items: Seq<Result<Block<'a>, PreviewError>>) -> Seq<u8> {
    stream_output(Seq::empty(), options, items)
}

/// The session of the blocks before the first error, from the initial state.
pub open spec fn stream_session<'a>(options: RenderOptions, items: Seq<Result<Block<'a>, PreviewError>>) -> (Seq<u8>, RenderState) {
    session(
        options,
        RenderState { has_rendered: false, ended_with_newline: false },
        ok_blocks(items, first_error(items)),
        0,
        options.width,
    )
}

/// Renders a stream of blocks: each block up to the first error, then `finish`,
/// so partial output still ends with a newline; the first error, if any, is
/// returned.
pub fn render_stream<'a>(
    renderer: &Renderer,
    blocks: Vec<Result<Block<'a>, PreviewError>>,
    out: &mut Vec<u8>,
) -> (r: Result<(), PreviewError>)
    ensures
        final(out)@ == stream_output(old(out)@, renderer.spec_options(), blocks@),
        first_error(blocks@) < blocks@.len() ==> r == Err::<(), PreviewError>(
            blocks@[first_error(blocks@)]->Err_0,
        ),
        first_error(blocks@) == blocks@.len() ==> r is Ok,
{
    let ghost options = renderer.spec_options();
    let ghost start = out@;
    let ghost items = blocks@;
    let ghost initial = RenderState { has_rendered: false, ended_with_newline: false };
    let mut state = RenderState::default();
    let mut index: usize = 0;
    while index < blocks.len()
        invariant
            index <= blocks@.len(),
            items == blocks@,
            start == old(out)@,
            options == renderer.spec_options(),
            initial == (RenderState { has_rendered: false, ended_with_newline: false }),
            forall|i: int| 0 <= i < index ==> blocks@[i] is Ok,
            out@ == start + session(options, initial, ok_blocks(items, index as int), 0, options.width).0,
            state == session(options, initial, ok_blocks(items, index as int), 0, options.width).1,
        decreases blocks@.len() - index,
    {
        match &blocks[index] {
            Ok(block) => {
                renderer.render_block(out, block, &mut state);
                proof {
                    let next = ok_blocks(items, index + 1);
                    assert(next.drop_last() =~= ok_blocks(items, index as int));
                    assert(next.last() == *block);
                }
            },
            Err(_) => {
                let ghost before = out@;
                renderer.finish(out, &state);
                proof {
                    lemma_first_error(items, index as int);
                    assert(first_error(items) == index);
                    let pair = session(options, initial, ok_blocks(items, index as int), 0, options.width);
                    assert(out@ == finish_output(before, state));
                    assert(before == start + pair.0);
                    assert(state == pair.1);
                    assert(ok_blocks(items, first_error(items)) == ok_blocks(items, index as int));
                    assert(out@ == stream_output(start, options, items));
                }
                let mut rest = blocks;
                let taken = rest.remove(index);
                return match taken {
                    Err(error) => Err(error),
                    Ok(_) => Ok(()),
                };
            },
        }
        index += 1;
    }
    proof {
        lemma_first_error(items, items.len() as int);
    }
    renderer.finish(out, &state);
    Ok(())
}

/// A parse result as a preview result: parse errors become `PreviewError::Parse`.
pub open spec fn as_preview_result<'a>(item: Result<Block<'a>, ParseError>) -> Result<Block<'a>, PreviewError> {
    match item {
        Ok(block) => Ok(block),
        Err(error) => Err(PreviewError::Parse(error)),
    }
}

/// Converts parse results to preview results, in order.
fn map_parse_errors<'a>(items: Vec<Result<Block<'a>, ParseError>>) -> (r: Vec<Result<Block<'a>, PreviewError>>)
    ensures
        r@.len() == items@.len(),
        forall|i: int| 0 <= i < r@.len() ==> #[trigger] r@[i] == as_preview_result(items@[i]),
{
    let ghost given = items@;
    let mut rest = items;
    let mut reversed: Vec<Result<Block<'a>, PreviewError>> = Vec::new();
    while rest.len() > 0
        invariant
            rest@.len() + reversed@.len() == given.len(),
            forall|i: int| 0 <= i < rest@.len() ==> rest@[i] == given[i],
            forall|i: int| 0 <= i < reversed@.len() ==> #[trigger] reversed@[i] == as_preview_result(
                given[given.len() - 1 - i],
            ),
        decreases rest@.len(),
    {
        match rest.pop() {
            Some(Ok(block)) => reversed.push(Ok(block)),
            Some(Err(error)) => reversed.push(Err(PreviewError::Parse(error))),
            None => {},
        }
    }
    let mut result: Vec<Result<Block<'a>, PreviewError>> = Vec::new();
    while reversed.len() > 0
        invariant
            reversed@.len() + result@.len() == given.len(),
            forall|i: int| 0 <= i < reversed@.len() ==> #[trigger] reversed@[i] == as_preview_result(
                given[given.len() - 1 - i],
            ),
            forall|i: int| 0 <= i < result@.len() ==> #[trigger] result@[i] == as_preview_result(given[i]),
        decreases reversed@.len(),
    {
        match reversed.pop() {
            Some(item) => result.push(item),
            None => {},
        }
    }
    result
}

/// Parse results as preview results, in order.
pub open spec fn preview_results<'a>(parsed: Seq<Result<Block<'a>, ParseError>>) -> Seq<Result<Block<'a>, PreviewError>> {
    parsed.map_values(|item: Result<Block<'a>, ParseError>| as_preview_result(item))
}

/// Renders Markdown text as a terminal preview: the blocks the parser produces are
/// rendered up to its first error and the output is terminated; the error, if any,
/// is returned as `PreviewError::Parse`.
pub fn preview(markdown: &str, options: RenderOptions, out: &mut Vec<u8>) -> (r: Result<(), PreviewError>)
    ensures
        exists|parsed: Seq<Result<Block, ParseError>>|
            {
                &&& #[trigger] parses_to(markdown, parsed)
                &&& forall|i: int| 0 <= i < parsed.len() - 1 ==> #[trigger] parsed[i] is Ok
                &&& final(out)@ == stream_output(old(out)@, options, preview_results(parsed))
                &&& first_error(parsed) < parsed.len() ==> r == Err::<(), PreviewError>(
                    PreviewError::Parse(parsed[first_error(parsed)]->Err_0),
                )
                &&& first_error(parsed) == parsed.len() ==> r is Ok
            },
{
    let renderer = Renderer::new(options);
    let parsed = crate::builder::blocks(markdown);
    let ghost parsed_view = parsed@;
    let items = map_parse_errors(parsed);
    let ghost seen = items@;
    proof {
        assert(seen =~= preview_results(parsed_view));
        lemma_first_error_preserved(parsed_view);
        lemma_first_error_bounds(parsed_view);
        if first_error(parsed_view) < parsed_view.len() {
            lemma_first_error_is_err(parsed_view);
            assert(seen[first_error(seen)] == as_preview_result(parsed_view[first_error(parsed_view)]));
        }
    }
    let result = render_stream(&renderer, items, out);
    assert(parses_to(markdown, parsed_view));
    result
}

/// Converting parse results to preview results keeps where the first error is.
proof fn lemma_first_error_preserved<'a>(parsed: Seq<Result<Block<'a>, ParseError>>)
    ensures
        first_error(preview_results(parsed)) == first_error(parsed),
    decreases parsed.len(),
{
    let items = preview_results(parsed);
    if parsed.len() > 0 {
        assert(items[0] == as_preview_result(parsed[0]));
        if !(parsed[0] is Err) {
            assert(preview_results(parsed.drop_first()) =~= items.drop_first());
            lemma_first_error_preserved(parsed.drop_first());
        }
    }
}

proof fn lemma_first_error_bounds<T, E>(items: Seq<Result<T, E>>)
    ensures
        0 <= first_error(items) <= items.len(),
    decreases items.len(),
{
    if items.len() > 0 && !(items[0] is Err) {
        lemma_first_error_bounds(items.drop_first());
    }
}

proof fn lemma_first_error_is_err<T, E>(items: Seq<Result<T, E>>)
    requires
        first_error(items) < items.len(),
    ensures
        0 <= first_error(items),
        items[first_error(items)] is Err,
        forall|i: int| 0 <= i < first_error(items) ==> items[i] is Ok,
    decreases items.len(),
{
    lemma_first_error_bounds(items);
    if items.len() > 0 && !(items[0] is Err) {
        let rest = items.drop_first();
        lemma_first_error_is_err(rest);
        assert(items[first_error(items)] == rest[first_error(rest)]);
        assert forall|i: int| 0 <= i < first_error(items) implies items[i] is Ok by {
            if i > 0 {
                assert(items[i] == rest[i - 1]);
            }
        }
    }
}

/// Whatever a stream renders, an error part-way included, is empty or ends with
/// exactly one newline.
pub proof fn lemma_stream_output_ends_with_newline<'a>(
    options: RenderOptions,
    items: Seq<Result<Block<'a>, PreviewError>>,
)
    ensures
        stream_bytes(options, items).len() > 0 ==> stream_bytes(options, items).last() == 10u8,
        stream_bytes(options, items).len() >= 2 ==> stream_bytes(options, items)[stream_bytes(
            options,
            items,
        ).len() - 2] != 10u8,
{
    let start = RenderState { has_rendered: false, ended_with_newline: false };
    let blocks = ok_blocks(items, first_error(items));
    crate::layout::lemma_session_matches(options, Seq::empty(), start, blocks, 0, options.width);
    let (out, state) = session(options, start, blocks, 0, options.width);
    assert(Seq::<u8>::empty() + out =~= out);
    crate::layout::lemma_finish_terminates_output(out, state);
}

/// Writes the greeting of the minimal preview.
pub fn write_preview(out: &mut Vec<u8>)
    ensures
        final(out)@ == old(out)@ + seq![72u8, 101u8, 108u8, 108u8, 111u8, 44u8, 32u8, 119u8, 111u8, 114u8, 108u8, 100u8, 33u8, 10u8],
{
    let greeting = [72u8, 101u8, 108u8, 108u8, 111u8, 44u8, 32u8, 119u8, 111u8, 114u8, 108u8, 100u8, 33u8, 10u8];
    let ghost start = out@;
    crate::bytes::append_bytes(out, greeting.as_slice());
    assert(out@ =~= start + seq![72u8, 101u8, 108u8, 108u8, 111u8, 44u8, 32u8, 119u8, 111u8, 114u8, 108u8, 100u8, 33u8, 10u8]);
}

} // verus!
