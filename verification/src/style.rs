//! Text styles: a foreground color plus bold, dim, italic, underline and
//! strikethrough attributes.

use vstd::prelude::*;

use crate::ast::HeadingLevel;
use crate::theme::{Palette, Rgb};

verus! {

/// Bold attribute bit.
pub const BOLD: u8 = 1;
/// Dim attribute bit.
pub const DIM: u8 = 2;
/// Italic attribute bit.
pub const ITALIC: u8 = 4;
/// Underline attribute bit.
pub const UNDERLINE: u8 = 8;
/// Strikethrough attribute bit.
pub const STRIKETHROUGH: u8 = 16;

/// A foreground color and a set of text attributes.
#[derive(Debug, Clone, Copy, PartialEq, Eq, Structural)]
pub struct TextStyle {
    /// Foreground color; `None` keeps the terminal's default.
    pub fg: Option<Rgb>,
    /// Attribute bits (`BOLD`, `DIM`, `ITALIC`, `UNDERLINE`, `STRIKETHROUGH`).
    pub flags: u8,
}

/// The unstyled style: no color, no attributes.
pub open spec fn plain_style() -> TextStyle {
    TextStyle { fg: None, flags: 0 }
}

impl TextStyle {
    /// The style with its foreground replaced.
    pub open spec fn with_fg(self, fg: Rgb) -> TextStyle {
        TextStyle { fg: Some(fg), flags: self.flags }
    }

    /// The style with `flag` added.
    pub open spec fn with(self, flag: u8) -> TextStyle {
        TextStyle { fg: self.fg, flags: self.flags | flag }
    }

    /// Whether `flag` is set.
    pub open spec fn has(self, flag: u8) -> bool {
        self.flags & flag != 0
    }

    /// Returns this style with the given foreground color.
    pub fn fg(self, fg: Rgb) -> (r: Self)
        ensures
            r == self.with_fg(fg),
    {
        TextStyle { fg: Some(fg), flags: self.flags }
    }

    /// Returns this style with bold added.
    pub fn bold(self) -> (r: Self)
        ensures
            r == self.with(BOLD),
    {
        self.with_flag(BOLD)
    }

    /// Returns this style with dim added.
    pub fn dim(self) -> (r: Self)
        ensures
            r == self.with(DIM),
    {
        self.with_flag(DIM)
    }

    /// Returns this style with italic added.
    pub fn italic(self) -> (r: Self)
        ensures
            r == self.with(ITALIC),
    {
        self.with_flag(ITALIC)
    }

    /// Returns this style with underline added.
    pub fn underline(self) -> (r: Self)
        ensures
            r == self.with(UNDERLINE),
    {
        self.with_flag(UNDERLINE)
    }

    /// Returns this style with strikethrough added.
    pub fn strikethrough(self) -> (r: Self)
        ensures
            r == self.with(STRIKETHROUGH),
    {
        self.with_flag(STRIKETHROUGH)
    }

    /// Whether the style is bold.
    pub fn is_bold(self) -> (r: bool)
        ensures
            r == self.has(BOLD),
    {
        self.has_flag(BOLD)
    }

    /// Whether the style is dim.
    pub fn is_dim(self) -> (r: bool)
        ensures
            r == self.has(DIM),
    {
        self.has_flag(DIM)
    }

    /// Whether the style is italic.
    pub fn is_italic(self) -> (r: bool)
        ensures
            r == self.has(ITALIC),
    {
        self.has_flag(ITALIC)
    }

    /// Whether the style is underlined.
    pub fn is_underline(self) -> (r: bool)
        ensures
            r == self.has(UNDERLINE),
    {
        self.has_flag(UNDERLINE)
    }

    /// Whether the style is struck through.
    pub fn is_strikethrough(self) -> (r: bool)
        ensures
            r == self.has(STRIKETHROUGH),
    {
        self.has_flag(STRIKETHROUGH)
    }

    fn with_flag(self, flag: u8) -> (r: Self)
        ensures
            r == self.with(flag),
    {
        TextStyle { fg: self.fg, flags: self.flags | flag }
    }

    fn has_flag(self, flag: u8) -> (r: bool)
        ensures
            r == self.has(flag),
    {
        self.flags & flag != 0
    }
}

impl Default for TextStyle {
    fn default() -> (r: Self)
        ensures
            r == plain_style(),
    {
        TextStyle { fg: None, flags: 0 }
    }
}

/// The style of a heading: its level's palette color, bold and underlined for `H1`
/// and `H2`, bold for `H3` and `H4`, color only for `H5` and `H6`.
pub open spec fn spec_heading_style(level: HeadingLevel, palette: Palette) -> TextStyle {
    let color = palette.heading_colors@[crate::ast::spec_depth(level) - 1];
    match level {
        HeadingLevel::H1 | HeadingLevel::H2 => plain_style().with_fg(color).with(BOLD).with(
            UNDERLINE,
        ),
        HeadingLevel::H3 | HeadingLevel::H4 => plain_style().with_fg(color).with(BOLD),
        HeadingLevel::H5 | HeadingLevel::H6 => plain_style().with_fg(color),
    }
}

/// Returns the style for a heading of the given level.
pub fn heading_style(level: HeadingLevel, palette: Palette) -> (r: TextStyle)
    ensures
        r == spec_heading_style(level, palette),
{
    let depth = level.depth();
    let color = palette.heading_colors[(depth - 1) as usize];
    match level {
        HeadingLevel::H1 | HeadingLevel::H2 => TextStyle::default().fg(color).bold().underline(),
        HeadingLevel::H3 | HeadingLevel::H4 => TextStyle::default().fg(color).bold(),
        HeadingLevel::H5 | HeadingLevel::H6 => TextStyle::default().fg(color),
    }
}

/// Heading emphasis decreases with depth: `H1`/`H2` are bold and underlined,
/// `H3`/`H4` bold only, `H5`/`H6` neither, and no heading is dim.
pub proof fn lemma_heading_emphasis_decreases(level: HeadingLevel, palette: Palette)
    ensures
        spec_heading_style(level, palette).has(BOLD) <==> (crate::ast::spec_depth(level) <= 4),
        spec_heading_style(level, palette).has(UNDERLINE) <==> (crate::ast::spec_depth(level)
            <= 2),
        !spec_heading_style(level, palette).has(DIM),
        spec_heading_style(level, palette).fg == Some(
            palette.heading_colors@[crate::ast::spec_depth(level) - 1],
        ),
{
    assert(((0u8 | 1u8) | 8u8) & 1u8 != 0u8) by (bit_vector);
    assert(((0u8 | 1u8) | 8u8) & 8u8 != 0u8) by (bit_vector);
    assert(((0u8 | 1u8) | 8u8) & 2u8 == 0u8) by (bit_vector);
    assert((0u8 | 1u8) & 1u8 != 0u8) by (bit_vector);
    assert((0u8 | 1u8) & 8u8 == 0u8) by (bit_vector);
    assert((0u8 | 1u8) & 2u8 == 0u8) by (bit_vector);
    assert(0u8 & 1u8 == 0u8) by (bit_vector);
    assert(0u8 & 8u8 == 0u8) by (bit_vector);
    assert(0u8 & 2u8 == 0u8) by (bit_vector);
}

} // verus!
