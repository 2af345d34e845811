//! The display width of inline content as plain text, computed piece by piece.

use vstd::prelude::*;

use crate::ast::{Inline, LinkKind};
use crate::layout::saturate;
use crate::text::Text;
use crate::wrap::{display_width, spec_display_width};

verus! {

/// The width of the characters `text`.
pub open spec fn width_of(text: Seq<char>) -> int {
    spec_display_width(text) as int
}

/// The width of a title display ` — title`, when there is a title.
pub open spec fn title_width(title: Option<Text>) -> int {
    match title {
        Some(t) => width_of(" — "@) + width_of(t@),
        None => 0,
    }
}

/// The plain-text width of a sequence of inline nodes: the sum of their widths.
pub open spec fn plain_inlines_width_spec(inlines: Seq<Inline>) -> int
    decreases inlines,
{
    if inlines.len() == 0 {
        0
    } else {
        plain_inlines_width_spec(inlines.drop_last()) + plain_inline_width_spec(inlines.last())
    }
}

/// The plain-text width of one inline node: its text, with the delimiters the
/// renderer writes around code spans, destinations, titles and image placeholders.
pub open spec fn plain_inline_width_spec(inline: Inline) -> int
    decreases inline,
{
    match inline {
        Inline::Text(text) => width_of(text@),
        Inline::Code(text) => width_of("`"@) + width_of(text@) + width_of("`"@),
        Inline::Emphasis(children) => plain_inlines_width_spec(children@),
        Inline::Strong(children) => plain_inlines_width_spec(children@),
        Inline::Strikethrough(children) => plain_inlines_width_spec(children@),
        Inline::Link { destination, title, kind, children } => plain_inlines_width_spec(children@)
            + if kind == LinkKind::Regular {
            width_of("("@) + width_of(destination@) + width_of(")"@) + title_width(title)
        } else {
            0
        },
        Inline::Image { destination, title, alt } => width_of("[img: "@) + plain_inlines_width_spec(
            alt@,
        ) + width_of("]"@) + width_of("("@) + width_of(destination@) + width_of(")"@)
            + title_width(title),
        Inline::HardBreak | Inline::SoftBreak => width_of("\n"@),
    }
}

proof fn lemma_widths_nonneg(inlines: Seq<Inline>)
    ensures
        plain_inlines_width_spec(inlines) >= 0,
    decreases inlines,
{
    if inlines.len() > 0 {
        lemma_widths_nonneg(inlines.drop_last());
        lemma_width_nonneg(inlines.last());
    }
}

proof fn lemma_width_nonneg(inline: Inline)
    ensures
        plain_inline_width_spec(inline) >= 0,
    decreases inline,
{
    match inline {
        Inline::Emphasis(children) => lemma_widths_nonneg(children@),
        Inline::Strong(children) => lemma_widths_nonneg(children@),
        Inline::Strikethrough(children) => lemma_widths_nonneg(children@),
        Inline::Link { children, .. } => lemma_widths_nonneg(children@),
        Inline::Image { alt, .. } => lemma_widths_nonneg(alt@),
        _ => {},
    }
}

/// Adds two widths, saturating.
fn add_width(a: usize, b: usize, Ghost(x): Ghost<int>, Ghost(y): Ghost<int>) -> (r: usize)
    requires
        x >= 0,
        y >= 0,
        a == saturate(x),
        b == saturate(y),
    ensures
        r == saturate(x + y),
{
    a.saturating_add(b)
}

/// The width of a title display, saturating.
fn title_columns(title: &Option<Text>) -> (r: usize)
    ensures
        r == saturate(title_width(*title)),
{
    match title {
        Some(t) => {
            let separator = " — ";
            let total = display_width(separator).saturating_add(display_width(t.as_str()));
            total
        },
        None => 0,
    }
}

/// Returns the plain-text width of a sequence of inline nodes, saturating at the
/// largest `usize`.
pub fn plain_inlines_width(inlines: &Vec<Inline>) -> (r: usize)
    ensures
        r == saturate(plain_inlines_width_spec(inlines@)),
    decreases inlines@, 0nat,
{
    let mut total: usize = 0;
    let mut index: usize = 0;
    assert(inlines@.take(0) =~= Seq::<Inline>::empty());
    while index < inlines.len()
        invariant
            index <= inlines@.len(),
            total == saturate(plain_inlines_width_spec(inlines@.take(index as int))),
        decreases inlines@.len() - index,
    {
        proof {
            assert(decreases_to!(inlines@ => inlines@[index as int]));
            lemma_widths_nonneg(inlines@.take(index as int));
            lemma_width_nonneg(inlines@[index as int]);
        }
        let width = plain_inline_width(&inlines[index]);
        let next = add_width(
            total,
            width,
            Ghost(plain_inlines_width_spec(inlines@.take(index as int))),
            Ghost(plain_inline_width_spec(inlines@[index as int])),
        );
        proof {
            let taken = inlines@.take(index + 1);
            assert(taken.drop_last() =~= inlines@.take(index as int));
        }
        total = next;
        index += 1;
    }
    assert(inlines@.take(inlines@.len() as int) =~= inlines@);
    total
}

/// Returns the plain-text width of one inline node, saturating.
fn plain_inline_width(inline: &Inline) -> (r: usize)
    ensures
        r == saturate(plain_inline_width_spec(*inline)),
    decreases *inline, 1nat,
{
    proof {
        reveal_strlit("`");
        reveal_strlit("(");
        reveal_strlit(")");
        reveal_strlit("[img: ");
        reveal_strlit("]");
        reveal_strlit("\n");
    }
    match inline {
        Inline::Text(text) => display_width(text.as_str()),
        Inline::Code(text) => display_width("`").saturating_add(display_width(text.as_str())).saturating_add(
            display_width("`"),
        ),
        Inline::Emphasis(children) => plain_inlines_width(children),
        Inline::Strong(children) => plain_inlines_width(children),
        Inline::Strikethrough(children) => plain_inlines_width(children),
        Inline::Link { destination, title, kind, children } => {
            proof {
                lemma_widths_nonneg(children@);
            }
            let inner = plain_inlines_width(children);
            if *kind == LinkKind::Regular {
                let url = display_width("(").saturating_add(display_width(destination.as_str())).saturating_add(
                    display_width(")"),
                );
                let shown = url.saturating_add(title_columns(title));
                inner.saturating_add(shown)
            } else {
                inner
            }
        },
        Inline::Image { destination, title, alt } => {
            proof {
                lemma_widths_nonneg(alt@);
            }
            let placeholder = display_width("[img: ").saturating_add(plain_inlines_width(alt)).saturating_add(
                display_width("]"),
            );
            let url = display_width("(").saturating_add(display_width(destination.as_str())).saturating_add(
                display_width(")"),
            );
            placeholder.saturating_add(url).saturating_add(title_columns(title))
        },
        Inline::HardBreak | Inline::SoftBreak => display_width("\n"),
    }
}

} // verus!
