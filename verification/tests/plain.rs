use mp::{plain_inlines_width, Inline, LinkKind, Text};

#[test]
fn plain_width_counts_text_and_the_delimiters_the_renderer_writes() {
    let inlines = vec![
        Inline::Text(Text::borrowed("ab")),
        Inline::Code(Text::borrowed("c")),
        Inline::Strong(vec![Inline::Text(Text::borrowed("日本"))]),
        Inline::Link {
            destination: Text::borrowed("u"),
            title: Some(Text::borrowed("t")),
            kind: LinkKind::Regular,
            children: vec![Inline::Text(Text::borrowed("l"))],
        },
    ];

    // "ab" 2 + "`c`" 3 + "日本" 4 + "l(u) — t" 8.
    assert_eq!(plain_inlines_width(&inlines), 17);
}

#[test]
fn autolinks_show_only_their_text_and_images_their_placeholder() {
    let autolink = vec![Inline::Link {
        destination: Text::borrowed("https://example.com"),
        title: None,
        kind: LinkKind::Autolink,
        children: vec![Inline::Text(Text::borrowed("https://example.com"))],
    }];
    let image = vec![Inline::Image {
        destination: Text::borrowed("i.png"),
        title: None,
        alt: vec![Inline::Text(Text::borrowed("alt"))],
    }];

    assert_eq!(plain_inlines_width(&autolink), 19);
    assert_eq!(plain_inlines_width(&image), "[img: alt](i.png)".len());
}
