//! Rendering of inline content: text, emphasis, code spans, links, images and
//! line breaks, with the style of each span restored after it closes.

use vstd::prelude::*;

use crate::ast::{Inline, LinkKind};
use crate::bytes::{append_bytes, spaces};
use crate::options::{LineBreak, RenderOptions};
use crate::sgr::{restore, restore_style, style_start, write_style_end, write_style_start, style_end};
use crate::style::{plain_style, TextStyle, BOLD, DIM, ITALIC, STRIKETHROUGH, UNDERLINE};
use crate::text::Text;
use crate::writer::write_spaces;

verus! {

/// `(`, opening a link or image destination.
pub open spec fn url_open() -> Seq<u8> {
    seq![40u8]
}

/// `)`, closing a link or image destination.
pub open spec fn url_close() -> Seq<u8> {
    seq![41u8]
}

/// ` — `, between a destination and its title.
pub open spec fn title_separator() -> Seq<u8> {
    seq![32u8, 0xe2u8, 0x80u8, 0x94u8, 32u8]
}

/// `[img: `, introducing an image's alt text.
pub open spec fn image_open() -> Seq<u8> {
    seq![91u8, 105u8, 109u8, 103u8, 58u8, 32u8]
}

/// `]`, closing an image's alt text.
pub open spec fn link_text_close() -> Seq<u8> {
    seq![93u8]
}

/// A backtick around inline code.
pub open spec fn backtick() -> Seq<u8> {
    seq![96u8]
}

/// Style of inline code spans.
pub open spec fn code_span_style(options: RenderOptions) -> TextStyle {
    plain_style().with_fg(options.palette.inline_code)
}

/// Style of an image's placeholder.
pub open spec fn image_style(options: RenderOptions) -> TextStyle {
    plain_style().with_fg(options.palette.muted).with(ITALIC)
}

/// Style of a destination display.
pub open spec fn url_style(options: RenderOptions) -> TextStyle {
    plain_style().with_fg(options.palette.muted).with(DIM)
}

/// Style of a title display.
pub open spec fn title_style(options: RenderOptions) -> TextStyle {
    plain_style().with_fg(options.palette.muted).with(DIM).with(ITALIC)
}

/// Style of link text inside `current`.
pub open spec fn link_style(options: RenderOptions, current: TextStyle) -> TextStyle {
    current.with_fg(options.palette.link).with(UNDERLINE)
}

/// A newline, then the continuation indent when there is one.
pub open spec fn line_break_bytes(prefix: Option<usize>) -> Seq<u8> {
    seq![10u8] + match prefix {
        Some(indent) => spaces(indent as nat),
        None => Seq::empty(),
    }
}

/// The bytes of a hard break under `line_break`.
pub open spec fn hard_break_bytes(line_break: LineBreak) -> Seq<u8> {
    match line_break {
        LineBreak::Newline(prefix) => line_break_bytes(prefix),
        LineBreak::Space => seq![32u8],
        LineBreak::Reflow => seq![10u8],
    }
}

/// The bytes of a soft break under `line_break`.
pub open spec fn soft_break_bytes(line_break: LineBreak) -> Seq<u8> {
    match line_break {
        LineBreak::Newline(prefix) => line_break_bytes(prefix),
        LineBreak::Space | LineBreak::Reflow => seq![32u8],
    }
}

/// The title bytes, if a title is present.
pub open spec fn title_bytes(title: Option<Text>) -> Option<Seq<u8>> {
    match title {
        Some(t) => Some(t.spec_bytes()),
        None => None,
    }
}

/// A destination display `(url)`, followed by ` — title` when there is a title,
/// then the surrounding style restored.
pub open spec fn url_display(
    options: RenderOptions,
    destination: Seq<u8>,
    title: Option<Seq<u8>>,
    restore_to: TextStyle,
) -> Seq<u8> {
    style_start(options, url_style(options)) + url_open() + destination + url_close() + match title {
        Some(t) => style_start(options, title_style(options)) + title_separator() + t,
        None => Seq::empty(),
    } + restore(options, restore_to)
}

/// The bytes of a sequence of inline nodes rendered in style `current`.
pub open spec fn inlines_bytes(
    options: RenderOptions,
    inlines: Seq<Inline>,
    current: TextStyle,
    line_break: LineBreak,
) -> Seq<u8>
    decreases inlines,
{
    if inlines.len() == 0 {
        Seq::empty()
    } else {
        inlines_bytes(options, inlines.drop_last(), current, line_break) + inline_bytes(
            options,
            inlines.last(),
            current,
            line_break,
        )
    }
}

/// Children rendered in `child`, then the style `current` restored.
pub open spec fn nested_bytes(
    options: RenderOptions,
    children: Seq<u8>,
    current: TextStyle,
    child: TextStyle,
) -> Seq<u8> {
    style_start(options, child) + children + restore(options, current)
}

/// The bytes of one inline node rendered in style `current`.
pub open spec fn inline_bytes(
    options: RenderOptions,
    inline: Inline,
    current: TextStyle,
    line_break: LineBreak,
) -> Seq<u8>
    decreases inline,
{
    match inline {
        Inline::Text(text) => text.spec_bytes(),
        Inline::Emphasis(children) => nested_bytes(
            options,
            inlines_bytes(options, children@, current.with(ITALIC), line_break),
            current,
            current.with(ITALIC),
        ),
        Inline::Strong(children) => nested_bytes(
            options,
            inlines_bytes(options, children@, current.with(BOLD), line_break),
            current,
            current.with(BOLD),
        ),
        Inline::Strikethrough(children) => nested_bytes(
            options,
            inlines_bytes(options, children@, current.with(STRIKETHROUGH), line_break),
            current,
            current.with(STRIKETHROUGH),
        ),
        Inline::Code(text) => style_start(options, code_span_style(options)) + backtick()
            + text.spec_bytes() + backtick() + restore(options, current),
        Inline::Link { destination, title, kind, children } => nested_bytes(
            options,
            inlines_bytes(options, children@, link_style(options, current), line_break),
            current,
            link_style(options, current),
        ) + if kind == LinkKind::Regular {
            url_display(options, destination.spec_bytes(), title_bytes(title), current)
        } else {
            Seq::empty()
        },
        Inline::Image { destination, title, alt } => style_start(options, image_style(options))
            + image_open() + inlines_bytes(options, alt@, image_style(options), line_break)
            + link_text_close() + restore(options, current) + url_display(
            options,
            destination.spec_bytes(),
            title_bytes(title),
            current,
        ),
        Inline::HardBreak => hard_break_bytes(line_break),
        Inline::SoftBreak => soft_break_bytes(line_break),
    }
}

/// Inline content in style `style`: the style started, the content, the style ended.
pub open spec fn styled_inlines(
    options: RenderOptions,
    inlines: Seq<Inline>,
    style: TextStyle,
    line_break: LineBreak,
) -> Seq<u8> {
    style_start(options, style) + inlines_bytes(options, inlines, style, line_break) + style_end(
        options,
    )
}

/// Writes a small constant.
fn write_const(out: &mut Vec<u8>, bytes: &[u8], Ghost(expected): Ghost<Seq<u8>>)
    requires
        bytes@ == expected,
    ensures
        final(out)@ == old(out)@ + expected,
{
    append_bytes(out, bytes);
}

/// Writes a line break followed by the optional continuation indent.
fn write_line_break(out: &mut Vec<u8>, prefix: Option<usize>)
    ensures
        final(out)@ == old(out)@ + line_break_bytes(prefix),
{
    let ghost start = out@;
    out.push(10);
    match prefix {
        Some(indent) => write_spaces(out, indent),
        None => {},
    }
    assert(out@ =~= start + line_break_bytes(prefix));
}

/// Writes a destination display and restores `restore_to`.
fn write_url_display(
    out: &mut Vec<u8>,
    options: RenderOptions,
    destination: &Text,
    title: &Option<Text>,
    restore_to: TextStyle,
)
    ensures
        final(out)@ == old(out)@ + url_display(
            options,
            destination.spec_bytes(),
            title_bytes(*title),
            restore_to,
        ),
{
    let ghost start = out@;
    let muted_dim = TextStyle::default().fg(options.palette.muted).dim();
    write_style_start(out, options, muted_dim);
    out.push(40);
    append_bytes(out, destination.as_str().as_bytes());
    out.push(41);
    let ghost mid = out@;
    match title {
        Some(t) => {
            let style = TextStyle::default().fg(options.palette.muted).dim().italic();
            write_style_start(out, options, style);
            let separator = [32u8, 0xe2u8, 0x80u8, 0x94u8, 32u8];
            write_const(out, separator.as_slice(), Ghost(title_separator()));
            append_bytes(out, t.as_str().as_bytes());
        },
        None => {},
    }
    let ghost after_title = out@;
    restore_style(out, options, restore_to);
    assert(out@ =~= start + url_display(
        options,
        destination.spec_bytes(),
        title_bytes(*title),
        restore_to,
    ));
}

/// Writes children in `child` and restores `current`.
fn render_nested(
    out: &mut Vec<u8>,
    options: RenderOptions,
    children: &Vec<Inline>,
    current: TextStyle,
    child: TextStyle,
    line_break: LineBreak,
)
    ensures
        final(out)@ == old(out)@ + nested_bytes(
            options,
            inlines_bytes(options, children@, child, line_break),
            current,
            child,
        ),
    decreases children@, 1nat,
{
    let ghost start = out@;
    write_style_start(out, options, child);
    render_inlines_inner(out, options, children, child, line_break);
    restore_style(out, options, current);
    assert(out@ =~= start + nested_bytes(
        options,
        inlines_bytes(options, children@, child, line_break),
        current,
        child,
    ));
}

/// Writes a sequence of inline nodes in style `current`, without starting or
/// ending that style.
pub fn render_inlines_inner(
    out: &mut Vec<u8>,
    options: RenderOptions,
    inlines: &Vec<Inline>,
    current: TextStyle,
    line_break: LineBreak,
)
    ensures
        final(out)@ == old(out)@ + inlines_bytes(options, inlines@, current, line_break),
    decreases inlines@, 0nat,
{
    let ghost start = out@;
    let mut index: usize = 0;
    while index < inlines.len()
        invariant
            index <= inlines@.len(),
            out@ == start + inlines_bytes(options, inlines@.take(index as int), current, line_break),
        decreases inlines@.len() - index,
    {
        let ghost before = out@;
        proof {
            assert(decreases_to!(inlines@ => inlines@[index as int]));
        }
        render_inline(out, options, &inlines[index], current, line_break);
        proof {
            let next = inlines@.take(index + 1);
            assert(next.drop_last() =~= inlines@.take(index as int));
            assert(next.last() == inlines@[index as int]);
            assert(out@ =~= start + inlines_bytes(options, next, current, line_break));
        }
        index += 1;
    }
    assert(inlines@.take(inlines@.len() as int) =~= inlines@);
}

/// Writes one inline node in style `current`.
fn render_inline(
    out: &mut Vec<u8>,
    options: RenderOptions,
    inline: &Inline,
    current: TextStyle,
    line_break: LineBreak,
)
    ensures
        final(out)@ == old(out)@ + inline_bytes(options, *inline, current, line_break),
    decreases *inline, 2nat,
{
    let ghost start = out@;
    match inline {
        Inline::Text(text) => append_bytes(out, text.as_str().as_bytes()),
        Inline::Emphasis(children) => {
            let child = current.italic();
            render_nested(out, options, children, current, child, line_break);
        },
        Inline::Strong(children) => {
            let child = current.bold();
            render_nested(out, options, children, current, child, line_break);
        },
        Inline::Strikethrough(children) => {
            let child = current.strikethrough();
            render_nested(out, options, children, current, child, line_break);
        },
        Inline::Code(text) => {
            let style = TextStyle::default().fg(options.palette.inline_code);
            write_style_start(out, options, style);
            out.push(96);
            append_bytes(out, text.as_str().as_bytes());
            out.push(96);
            restore_style(out, options, current);
            assert(out@ =~= start + inline_bytes(options, *inline, current, line_break));
        },
        Inline::Link { destination, title, kind, children } => {
            let child = current.fg(options.palette.link).underline();
            render_nested(out, options, children, current, child, line_break);
            let ghost mid = out@;
            if *kind == LinkKind::Regular {
                write_url_display(out, options, destination, title, current);
            }
            assert(out@ =~= start + inline_bytes(options, *inline, current, line_break));
        },
        Inline::Image { destination, title, alt } => {
            let style = TextStyle::default().fg(options.palette.muted).italic();
            write_style_start(out, options, style);
            let open = [91u8, 105u8, 109u8, 103u8, 58u8, 32u8];
            write_const(out, open.as_slice(), Ghost(image_open()));
            proof {
                assert(decreases_to!(*inline => *alt));
            }
            render_inlines_inner(out, options, alt, style, line_break);
            out.push(93);
            restore_style(out, options, current);
            write_url_display(out, options, destination, title, current);
            assert(out@ =~= start + inline_bytes(options, *inline, current, line_break));
        },
        Inline::HardBreak => match line_break {
            LineBreak::Newline(prefix) => write_line_break(out, prefix),
            LineBreak::Space => {
                out.push(32);
                assert(out@ =~= start + inline_bytes(options, *inline, current, line_break));
            },
            LineBreak::Reflow => {
                out.push(10);
                assert(out@ =~= start + inline_bytes(options, *inline, current, line_break));
            },
        },
        Inline::SoftBreak => match line_break {
            LineBreak::Newline(prefix) => write_line_break(out, prefix),
            _ => {
                out.push(32);
                assert(out@ =~= start + inline_bytes(options, *inline, current, line_break));
            },
        },
    }
}

/// Writes inline content in `style`: the style started, the content, the style ended.
pub fn render_inlines(
    out: &mut Vec<u8>,
    options: RenderOptions,
    inlines: &Vec<Inline>,
    style: TextStyle,
    line_break: LineBreak,
)
    ensures
        final(out)@ == old(out)@ + styled_inlines(options, inlines@, style, line_break),
{
    let ghost start = out@;
    write_style_start(out, options, style);
    render_inlines_inner(out, options, inlines, style, line_break);
    write_style_end(out, options);
    assert(out@ =~= start + styled_inlines(options, inlines@, style, line_break));
}

} // verus!
