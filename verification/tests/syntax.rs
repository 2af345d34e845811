use mp::{language_token, syntax_name_for_info, theme_name, CodeTheme};

#[test]
fn resolves_each_code_theme_to_its_bundled_solarized_variant() {
    assert_eq!(theme_name(CodeTheme::SolarizedDark).as_deref(), Some("Solarized (dark)"));
    assert_eq!(theme_name(CodeTheme::SolarizedLight).as_deref(), Some("Solarized (light)"));
}

#[test]
fn selects_rust_from_rustdoc_style_info_strings() {
    assert_eq!(syntax_name_for_info("rust,no_run").as_deref(), Some("Rust"));
}

#[test]
fn selects_rust_from_info_strings_with_extra_words() {
    assert_eq!(syntax_name_for_info("rust linenums").as_deref(), Some("Rust"));
}

#[test]
fn rejects_empty_and_unsupported_language_tokens() {
    assert_eq!(syntax_name_for_info("   "), None);
    assert_eq!(syntax_name_for_info("definitely-not-a-language"), None);
}

#[test]
fn rejects_code_blocks_over_the_line_guardrail() {
    let source = "x\n".repeat(10_001);

    assert_eq!(mp::highlighted_ranges(Some("rust"), &source, CodeTheme::SolarizedDark), None);
}

#[test]
fn language_tokens_skip_leading_space_and_stop_at_spaces_and_commas() {
    assert_eq!(language_token("  rust,no_run extra"), Some("rust"));
    assert_eq!(language_token("\tpython3 linenums"), Some("python3"));
    assert_eq!(language_token(",flags"), None);
    assert_eq!(language_token(""), None);
}

#[test]
fn code_blocks_at_the_line_limit_are_still_highlighted() {
    let source = "x\n".repeat(10_000);

    assert!(mp::is_within_highlight_limits(&source));
    assert!(!mp::is_within_highlight_limits(&"y\n".repeat(10_001)));
    assert!(mp::highlighted_ranges(Some("rust"), "fn main() {}\n", CodeTheme::SolarizedDark).is_some());
}

#[test]
fn returns_no_highlighted_ranges_when_highlighting_fails() {
    let plain = mp::SyntaxStyle { fg: mp::Rgb { r: 1, g: 2, b: 3 }, font_style: 0 };
    let lines = vec![Some(vec![(plain, String::from("fn main() {}\n"))]), None];

    assert!(mp::collect_highlighted_ranges(lines).is_none());
}

#[test]
fn collects_the_non_empty_pieces_of_every_line_in_order() {
    let bold = mp::SyntaxStyle { fg: mp::Rgb { r: 1, g: 2, b: 3 }, font_style: 1 };
    let lines = vec![
        Some(vec![(bold, String::from("fn")), (bold, String::new())]),
        Some(vec![]),
        Some(vec![(bold, String::from(" main"))]),
    ];

    let ranges = mp::collect_highlighted_ranges(lines).expect("every line highlighted");
    let texts: Vec<&str> = ranges.iter().map(|(_, text)| text.as_str()).collect();
    assert_eq!(texts, vec!["fn", " main"]);
    assert!(ranges.iter().all(|(style, _)| style.is_bold()));
}
