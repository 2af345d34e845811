use mp::{heading_style, HeadingLevel, Palette};

#[test]
fn heading_style_applies_decreasing_emphasis_per_level() {
    let palette = Palette::default();

    let h1 = heading_style(HeadingLevel::H1, palette);
    assert!(h1.is_bold() && h1.is_underline(), "H1 should be bold and underlined");

    let h2 = heading_style(HeadingLevel::H2, palette);
    assert!(h2.is_bold() && h2.is_underline(), "H2 should be bold and underlined");

    let h3 = heading_style(HeadingLevel::H3, palette);
    assert!(h3.is_bold() && !h3.is_underline(), "H3 should be bold without underline");

    let h4 = heading_style(HeadingLevel::H4, palette);
    assert!(h4.is_bold() && !h4.is_underline(), "H4 should be bold without underline");

    let h5 = heading_style(HeadingLevel::H5, palette);
    assert!(
        !h5.is_bold() && !h5.is_underline() && !h5.is_dim(),
        "H5 should be plain color only"
    );

    let h6 = heading_style(HeadingLevel::H6, palette);
    assert!(
        !h6.is_bold() && !h6.is_underline() && !h6.is_dim(),
        "H6 should be plain color only"
    );
    let shallower_levels = [
        HeadingLevel::H1,
        HeadingLevel::H2,
        HeadingLevel::H3,
        HeadingLevel::H4,
        HeadingLevel::H5,
    ];
    for level in shallower_levels {
        assert_ne!(
            h6.fg,
            heading_style(level, palette).fg,
            "H6 color must differ from the {level:?} color"
        );
    }
    assert_ne!(h6.fg, Some(palette.body), "H6 color must differ from the body color");
}

#[test]
fn heading_style_uses_the_level_color_from_the_palette() {
    let palette = Palette::default();

    for (index, level) in [HeadingLevel::H1, HeadingLevel::H3, HeadingLevel::H6].into_iter().enumerate() {
        let depth = level.depth() as usize;
        assert_eq!(heading_style(level, palette).fg, Some(palette.heading_colors[depth - 1]), "case {index}");
    }
}
