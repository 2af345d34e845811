use mp::{Text, INLINE_CAPACITY};

#[test]
fn borrowed_text_uses_the_borrowed_variant() {
    let text = Text::borrowed("short");

    assert!(text.is_borrowed());
    assert_eq!(text.as_str(), "short");
}

#[test]
fn short_inline_text_avoids_a_heap_allocation() {
    let text = Text::inline("a&b");

    assert!(text.is_inline());
    assert_eq!(text.as_str(), "a&b");
}

#[test]
fn inline_text_longer_than_the_capacity_falls_back_to_owned() {
    let long = "x".repeat(INLINE_CAPACITY + 1);
    let text = Text::inline(&long);

    assert!(text.is_owned());
    assert_eq!(text.as_str(), long);
}

#[test]
fn appends_to_inline_text_by_promoting_it_to_owned_text() {
    let mut text = Text::inline("hello");

    text.push_str(" world");

    assert!(text.is_owned());
    assert_eq!(text.as_str(), "hello world");
}

#[test]
fn inline_text_at_exactly_the_capacity_stays_inline() {
    let exact = "y".repeat(INLINE_CAPACITY);
    let text = Text::inline(&exact);

    assert!(text.is_inline());
    assert_eq!(text.as_str(), exact);
}

#[test]
fn texts_compare_by_content_across_storage_kinds() {
    assert_eq!(Text::borrowed("same"), Text::owned(String::from("same")));
    assert_eq!(Text::inline("same"), Text::borrowed("same"));
    assert_ne!(Text::inline("same"), Text::borrowed("other"));
    assert!(Text::borrowed("").is_empty());
    assert!(!Text::owned(String::from("x")).is_empty());
}
