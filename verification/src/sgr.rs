//! ANSI select-graphic-rendition sequences for text styles.

use vstd::prelude::*;

use crate::bytes::{append_bytes, decimal};
use crate::list::push_decimal_u64;
use crate::options::{ColorMode, RenderOptions};
use crate::style::{TextStyle, BOLD, DIM, ITALIC, STRIKETHROUGH, UNDERLINE};

verus! {

/// The escape that opens a sequence: `ESC [`.
pub open spec fn csi() -> Seq<u8> {
    seq![27u8, 91u8]
}

/// The sequence that resets every attribute: `ESC [ 0 m`.
pub open spec fn sgr_reset() -> Seq<u8> {
    seq![27u8, 91u8, 48u8, 109u8]
}

/// The truecolor foreground parameter `38;2;R;G;B`.
pub open spec fn fg_param(r: u8, g: u8, b: u8) -> Seq<u8> {
    seq![51u8, 56u8, 59u8, 50u8, 59u8] + decimal(r as nat) + seq![59u8] + decimal(g as nat)
        + seq![59u8] + decimal(b as nat)
}

/// `param` as a one-element list when `enabled`, else no parameter.
pub open spec fn param_if(enabled: bool, param: u8) -> Seq<Seq<u8>> {
    if enabled {
        seq![seq![param]]
    } else {
        Seq::empty()
    }
}

/// The attribute parameters of a style, in the order bold, dim, italic,
/// underline, strikethrough.
pub open spec fn attribute_params(style: TextStyle) -> Seq<Seq<u8>> {
    param_if(style.has(BOLD), 49u8) + param_if(style.has(DIM), 50u8) + param_if(
        style.has(ITALIC),
        51u8,
    ) + param_if(style.has(UNDERLINE), 52u8) + param_if(style.has(STRIKETHROUGH), 57u8)
}

/// The parameters of a style: its attributes, then its foreground color.
pub open spec fn sgr_params(style: TextStyle) -> Seq<Seq<u8>> {
    attribute_params(style) + match style.fg {
        Some(c) => seq![fg_param(c.r, c.g, c.b)],
        None => Seq::empty(),
    }
}

/// Parameters joined by `;`.
pub open spec fn join_params(params: Seq<Seq<u8>>) -> Seq<u8>
    decreases params.len(),
{
    if params.len() == 0 {
        Seq::empty()
    } else if params.len() == 1 {
        params[0]
    } else {
        join_params(params.drop_last()) + seq![59u8] + params.last()
    }
}

/// What has been assembled after some parameters: nothing, or `ESC [` and the
/// joined parameters.
pub open spec fn sgr_open(params: Seq<Seq<u8>>) -> Seq<u8> {
    if params.len() == 0 {
        Seq::empty()
    } else {
        csi() + join_params(params)
    }
}

/// The bytes that switch the terminal to `style`: nothing in plain mode or for a
/// style without attributes, else `ESC [`, the parameters and `m`.
pub open spec fn style_start(options: RenderOptions, style: TextStyle) -> Seq<u8> {
    if options.color == ColorMode::Ansi && sgr_params(style).len() > 0 {
        sgr_open(sgr_params(style)).push(109u8)
    } else {
        Seq::empty()
    }
}

/// The bytes that reset the style: `ESC [ 0 m` in ANSI mode, nothing in plain mode.
pub open spec fn style_end(options: RenderOptions) -> Seq<u8> {
    if options.color == ColorMode::Ansi {
        sgr_reset()
    } else {
        Seq::empty()
    }
}

/// `text` between a style's start and end; nothing at all for empty text.
pub open spec fn styled(options: RenderOptions, style: TextStyle, text: Seq<u8>) -> Seq<u8> {
    if text.len() == 0 {
        Seq::empty()
    } else {
        style_start(options, style) + text + style_end(options)
    }
}

/// Ends the current style and starts `style` again.
pub open spec fn restore(options: RenderOptions, style: TextStyle) -> Seq<u8> {
    style_end(options) + style_start(options, style)
}

proof fn lemma_open_push(params: Seq<Seq<u8>>, param: Seq<u8>)
    ensures
        sgr_open(params.push(param)) == sgr_open(params) + (if params.len() == 0 {
            csi()
        } else {
            seq![59u8]
        }) + param,
{
    let pushed = params.push(param);
    assert(pushed.drop_last() =~= params);
    if params.len() == 0 {
        assert(join_params(pushed) == param);
        assert(sgr_open(pushed) =~= csi() + param);
        assert(sgr_open(params) =~= Seq::<u8>::empty());
        assert(sgr_open(params) + csi() + param =~= csi() + param);
    } else {
        assert(join_params(pushed) == join_params(params) + seq![59u8] + param);
        assert(sgr_open(pushed) =~= sgr_open(params) + seq![59u8] + param);
    }
}

/// Adds a one-byte parameter to the sequence under construction when `enabled`.
fn push_sgr_param(buffer: &mut Vec<u8>, param: u8, enabled: bool, Ghost(params): Ghost<Seq<Seq<u8>>>)
    requires
        old(buffer)@ == sgr_open(params),
    ensures
        final(buffer)@ == sgr_open(params + param_if(enabled, param)),
{
    if enabled {
        proof {
            lemma_open_push(params, seq![param]);
            assert(params + param_if(enabled, param) =~= params.push(seq![param]));
        }
        push_sgr_prefix(buffer, Ghost(params));
        buffer.push(param);
    } else {
        assert(params + param_if(enabled, param) =~= params);
    }
}

/// Writes `ESC [` before the first parameter and `;` before every later one.
fn push_sgr_prefix(buffer: &mut Vec<u8>, Ghost(params): Ghost<Seq<Seq<u8>>>)
    requires
        old(buffer)@ == sgr_open(params),
    ensures
        final(buffer)@ == sgr_open(params) + (if params.len() == 0 {
            csi()
        } else {
            seq![59u8]
        }),
{
    if buffer.len() == 0 {
        proof {
            if params.len() > 0 {
                assert(sgr_open(params).len() >= 2);
            }
        }
        buffer.push(27);
        buffer.push(91);
        assert(buffer@ =~= sgr_open(params) + csi());
    } else {
        buffer.push(59);
    }
}

/// Writes the decimal digits of a color component.
fn push_decimal_u8(buffer: &mut Vec<u8>, value: u8)
    ensures
        final(buffer)@ == old(buffer)@ + decimal(value as nat),
{
    push_decimal_u64(buffer, value as u64);
}

/// Assembles the attribute parameters of `style` after `ESC [`.
fn push_attribute_params(buffer: &mut Vec<u8>, style: TextStyle)
    requires
        old(buffer)@.len() == 0,
    ensures
        final(buffer)@ == sgr_open(attribute_params(style)),
{
    let ghost p0 = Seq::<Seq<u8>>::empty();
    assert(buffer@ =~= sgr_open(p0));
    push_sgr_param(buffer, 49, style.is_bold(), Ghost(p0));
    let ghost p1 = p0 + param_if(style.has(BOLD), 49u8);
    push_sgr_param(buffer, 50, style.is_dim(), Ghost(p1));
    let ghost p2 = p1 + param_if(style.has(DIM), 50u8);
    push_sgr_param(buffer, 51, style.is_italic(), Ghost(p2));
    let ghost p3 = p2 + param_if(style.has(ITALIC), 51u8);
    push_sgr_param(buffer, 52, style.is_underline(), Ghost(p3));
    let ghost p4 = p3 + param_if(style.has(UNDERLINE), 52u8);
    push_sgr_param(buffer, 57, style.is_strikethrough(), Ghost(p4));
    assert(p4 + param_if(style.has(STRIKETHROUGH), 57u8) =~= attribute_params(style));
}

/// Writes the foreground parameter `38;2;R;G;B`.
fn push_fg_param(buffer: &mut Vec<u8>, r: u8, g: u8, b: u8)
    ensures
        final(buffer)@ == old(buffer)@ + fg_param(r, g, b),
{
    let ghost before = buffer@;
    buffer.push(51);
    buffer.push(56);
    buffer.push(59);
    buffer.push(50);
    buffer.push(59);
    push_decimal_u8(buffer, r);
    buffer.push(59);
    push_decimal_u8(buffer, g);
    buffer.push(59);
    push_decimal_u8(buffer, b);
    assert(buffer@ =~= before + fg_param(r, g, b));
}

/// Builds the whole parameter list of `style` after `ESC [`.
fn sgr_sequence(style: TextStyle) -> (r: Vec<u8>)
    ensures
        r@ == sgr_open(sgr_params(style)),
{
    let mut buffer: Vec<u8> = Vec::new();
    push_attribute_params(&mut buffer, style);
    let ghost attrs = attribute_params(style);
    match style.fg {
        Some(color) => {
            proof {
                lemma_open_push(attrs, fg_param(color.r, color.g, color.b));
                assert(sgr_params(style) =~= attrs.push(fg_param(color.r, color.g, color.b)));
            }
            push_sgr_prefix(&mut buffer, Ghost(attrs));
            push_fg_param(&mut buffer, color.r, color.g, color.b);
        },
        None => {
            assert(sgr_params(style) =~= attrs);
        },
    }
    buffer
}

/// Writes the bytes that switch the terminal to `style`.
pub fn write_style_start(out: &mut Vec<u8>, options: RenderOptions, style: TextStyle)
    ensures
        final(out)@ == old(out)@ + style_start(options, style),
{
    if options.color != ColorMode::Ansi {
        assert(old(out)@ + style_start(options, style) =~= old(out)@);
        return;
    }
    let mut buffer = sgr_sequence(style);
    let ghost all = sgr_params(style);
    if buffer.len() > 0 {
        proof {
            if all.len() == 0 {
                assert(sgr_open(all).len() == 0);
            }
        }
        buffer.push(109);
        append_bytes(out, buffer.as_slice());
    } else {
        proof {
            if all.len() > 0 {
                assert(sgr_open(all).len() >= 2);
            }
        }
        assert(old(out)@ + style_start(options, style) =~= old(out)@);
    }
}

/// Writes the bytes that reset the style.
pub fn write_style_end(out: &mut Vec<u8>, options: RenderOptions)
    ensures
        final(out)@ == old(out)@ + style_end(options),
{
    if options.color == ColorMode::Ansi {
        let reset = [27u8, 91u8, 48u8, 109u8];
        let reset = reset.as_slice();
        assert(reset@ =~= sgr_reset());
        append_bytes(out, reset);
    } else {
        assert(old(out)@ + style_end(options) =~= old(out)@);
    }
}

/// Writes `text` in `style`; writes nothing at all for empty text.
pub fn write_styled_text(out: &mut Vec<u8>, options: RenderOptions, style: TextStyle, text: &[u8])
    ensures
        final(out)@ == old(out)@ + styled(options, style, text@),
{
    if text.len() == 0 {
        assert(old(out)@ + styled(options, style, text@) =~= old(out)@);
        return;
    }
    let ghost start = out@;
    write_style_start(out, options, style);
    append_bytes(out, text);
    write_style_end(out, options);
    assert(out@ =~= start + styled(options, style, text@));
}

/// Ends the current style and starts `style` again.
pub fn restore_style(out: &mut Vec<u8>, options: RenderOptions, style: TextStyle)
    ensures
        final(out)@ == old(out)@ + restore(options, style),
{
    let ghost start = out@;
    write_style_end(out, options);
    write_style_start(out, options, style);
    assert(out@ =~= start + restore(options, style));
}

} // verus!
