//! Colors and the default solarized palette.

use vstd::prelude::*;

use crate::ast::HeadingLevel;

verus! {

/// Number of heading levels a [`Palette`] assigns colors to, tied to
/// [`HeadingLevel`] so the palette and the enum cannot drift apart.
pub const HEADING_LEVEL_COUNT: usize = HeadingLevel::COUNT;

/// A 24-bit RGB color.
#[derive(Debug, Clone, Copy, PartialEq, Eq, Structural)]
pub struct Rgb {
    /// Red channel.
    pub r: u8,
    /// Green channel.
    pub g: u8,
    /// Blue channel.
    pub b: u8,
}

/// Colors a renderer uses for each kind of content.
///
/// The default palette is solarized dark.
#[derive(Debug, Clone, Copy, PartialEq, Eq)]
pub struct Palette {
    /// Body text.
    pub body: Rgb,
    /// De-emphasized decorations such as quote bars and URL displays.
    pub muted: Rgb,
    /// List and task markers.
    pub list_marker: Rgb,
    /// Inline code spans.
    pub inline_code: Rgb,
    /// Code block fences.
    pub code_fence: Rgb,
    /// Link text.
    pub link: Rgb,
    /// Heading colors, indexed by heading depth (`H1` first).
    pub heading_colors: [Rgb; 6],
}

/// Solarized base01.
pub open spec fn base01() -> Rgb {
    Rgb { r: 0x58, g: 0x6e, b: 0x75 }
}

/// Solarized base0.
pub open spec fn base0() -> Rgb {
    Rgb { r: 0x83, g: 0x94, b: 0x96 }
}

/// Solarized yellow.
pub open spec fn yellow() -> Rgb {
    Rgb { r: 0xb5, g: 0x89, b: 0x00 }
}

/// Solarized orange.
pub open spec fn orange() -> Rgb {
    Rgb { r: 0xcb, g: 0x4b, b: 0x16 }
}

/// Solarized violet.
pub open spec fn violet() -> Rgb {
    Rgb { r: 0x6c, g: 0x71, b: 0xc4 }
}

/// Solarized magenta.
pub open spec fn magenta() -> Rgb {
    Rgb { r: 0xd3, g: 0x36, b: 0x82 }
}

/// Solarized blue.
pub open spec fn blue() -> Rgb {
    Rgb { r: 0x26, g: 0x8b, b: 0xd2 }
}

/// Solarized cyan.
pub open spec fn cyan() -> Rgb {
    Rgb { r: 0x2a, g: 0xa1, b: 0x98 }
}

/// The solarized dark palette: heading colors step from warm/bright to cool/muted so
/// perceived salience decreases with depth.
pub open spec fn spec_dark_palette() -> Palette {
    Palette {
        body: base0(),
        muted: base01(),
        list_marker: cyan(),
        inline_code: cyan(),
        code_fence: base01(),
        link: violet(),
        heading_colors: [yellow(), orange(), magenta(), cyan(), blue(), violet()],
    }
}

/// Builds the solarized dark palette.
pub fn dark_palette() -> (r: Palette)
    ensures
        r == spec_dark_palette(),
{
    let base01 = Rgb { r: 0x58, g: 0x6e, b: 0x75 };
    let base0 = Rgb { r: 0x83, g: 0x94, b: 0x96 };
    let yellow = Rgb { r: 0xb5, g: 0x89, b: 0x00 };
    let orange = Rgb { r: 0xcb, g: 0x4b, b: 0x16 };
    let violet = Rgb { r: 0x6c, g: 0x71, b: 0xc4 };
    let magenta = Rgb { r: 0xd3, g: 0x36, b: 0x82 };
    let blue = Rgb { r: 0x26, g: 0x8b, b: 0xd2 };
    let cyan = Rgb { r: 0x2a, g: 0xa1, b: 0x98 };
    let r = Palette {
        body: base0,
        muted: base01,
        list_marker: cyan,
        inline_code: cyan,
        code_fence: base01,
        link: violet,
        heading_colors: [yellow, orange, magenta, cyan, blue, violet],
    };
    assert(r.heading_colors =~= spec_dark_palette().heading_colors);
    r
}

impl Default for Palette {
    fn default() -> (r: Self)
        ensures
            r == spec_dark_palette(),
    {
        dark_palette()
    }
}

/// The default palette gives every heading level its own color, and none of them
/// is the body color: headings stay distinguishable from each other and from text.
pub proof fn lemma_dark_heading_colors_distinct(i: int, j: int)
    requires
        0 <= i < 6,
        0 <= j < 6,
    ensures
        spec_dark_palette().heading_colors@[i] != spec_dark_palette().body,
        i != j ==> spec_dark_palette().heading_colors@[i] != spec_dark_palette().heading_colors@[j],
{
    let colors = spec_dark_palette().heading_colors@;
    assert(colors == seq![yellow(), orange(), magenta(), cyan(), blue(), violet()]);
}

} // verus!
