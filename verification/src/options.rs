//! Renderer configuration and the streaming state threaded between blocks.

use vstd::prelude::*;

use crate::theme::{dark_palette, spec_dark_palette, Palette};

verus! {

/// How colors and text styles are written to the output.
#[derive(Debug, Clone, Copy, PartialEq, Eq, Structural)]
pub enum ColorMode {
    /// Emit ANSI escape sequences for colors and text styles.
    Ansi,
    /// Emit plain text without escape sequences (the default).
    Plain,
}

impl Default for ColorMode {
    fn default() -> (r: Self)
        ensures
            r == ColorMode::Plain,
    {
        ColorMode::Plain
    }
}

/// Syntax-highlighting theme used for fenced code blocks.
#[derive(Debug, Clone, Copy, PartialEq, Eq, Structural)]
pub enum CodeTheme {
    /// Solarized Dark (the default).
    SolarizedDark,
    /// Solarized Light.
    SolarizedLight,
}

impl Default for CodeTheme {
    fn default() -> (r: Self)
        ensures
            r == CodeTheme::SolarizedDark,
    {
        CodeTheme::SolarizedDark
    }
}

/// Configuration for a renderer.
#[derive(Debug, Clone, Copy, PartialEq, Eq)]
pub struct RenderOptions {
    /// How colors and text styles are written to the output.
    pub color: ColorMode,
    /// Colors used for each kind of content; solarized dark by default.
    pub palette: Palette,
    /// Syntax-highlighting theme for fenced code blocks; solarized dark by default.
    pub code_theme: CodeTheme,
    /// Maximum display width of the output in columns; `None` means no limit.
    pub width: Option<usize>,
}

/// The default options: plain output, the solarized dark palette and code theme,
/// and no width limit.
pub open spec fn spec_default_options() -> RenderOptions {
    RenderOptions {
        color: ColorMode::Plain,
        palette: spec_dark_palette(),
        code_theme: CodeTheme::SolarizedDark,
        width: None,
    }
}

impl Default for RenderOptions {
    fn default() -> (r: Self)
        ensures
            r == spec_default_options(),
    {
        RenderOptions {
            color: ColorMode::Plain,
            palette: dark_palette(),
            code_theme: CodeTheme::SolarizedDark,
            width: None,
        }
    }
}

/// Streaming render state threaded through `Renderer::render_block` calls.
///
/// Tracks whether any bytes have been written and whether the output currently ends
/// with a newline, so block separators and the final newline are emitted correctly.
#[derive(Debug, Clone, Copy, PartialEq, Eq, Structural)]
pub struct RenderState {
    /// Whether any block has written bytes.
    pub has_rendered: bool,
    /// Whether the last byte written was a newline.
    pub ended_with_newline: bool,
}

impl RenderState {
    /// Whether any block has written bytes so far.
    pub fn has_rendered(&self) -> (r: bool)
        ensures
            r == self.has_rendered,
    {
        self.has_rendered
    }

    /// Whether the output written so far ends with a newline.
    pub fn ended_with_newline(&self) -> (r: bool)
        ensures
            r == self.ended_with_newline,
    {
        self.ended_with_newline
    }
}

/// The state of a session in which nothing has been rendered yet.
pub open spec fn initial_state() -> RenderState {
    RenderState { has_rendered: false, ended_with_newline: false }
}

impl Default for RenderState {
    fn default() -> (r: Self)
        ensures
            r == initial_state(),
    {
        RenderState { has_rendered: false, ended_with_newline: false }
    }
}

/// How a soft or hard line break inside inline content is emitted.
#[derive(Debug, Clone, Copy, PartialEq, Eq, Structural)]
pub enum LineBreak {
    /// Emit a newline, then indent the next line by the given number of spaces.
    Newline(Option<usize>),
    /// Emit a single space so the content stays on one line (table cells).
    Space,
    /// Emit a space for a soft break and a newline for a hard break, leaving
    /// line breaking to a wrapping writer (used when a width limit is set).
    Reflow,
}

} // verus!
