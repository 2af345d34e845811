use mp::{dark_palette, Palette, Rgb, HEADING_LEVEL_COUNT};

#[test]
fn heading_colors_are_pairwise_distinct_and_differ_from_the_body_color() {
    let palette = dark_palette();
    for (index, color) in palette.heading_colors.iter().enumerate() {
        assert_ne!(*color, palette.body, "heading color {index} must differ from the body color");
        for (other_index, other) in palette.heading_colors.iter().enumerate().skip(index + 1) {
            assert_ne!(color, other, "heading colors {index} and {other_index} must be distinct");
        }
    }
}

#[test]
fn reexports_let_callers_build_a_palette_without_reaching_into_mp_renderer() {
    let color = Rgb { r: 1, g: 2, b: 3 };
    let palette = Palette { heading_colors: [color; HEADING_LEVEL_COUNT], ..Palette::default() };

    assert!(palette.heading_colors.iter().all(|&value| value == color));
}

#[test]
fn default_palette_is_solarized_dark() {
    let palette = Palette::default();

    assert_eq!(palette.body, Rgb { r: 0x83, g: 0x94, b: 0x96 });
    assert_eq!(palette.muted, Rgb { r: 0x58, g: 0x6e, b: 0x75 });
    assert_eq!(palette.link, Rgb { r: 0x6c, g: 0x71, b: 0xc4 });
}
