use mp::write_preview;

#[test]
fn writes_preview_text() {
    let mut output = Vec::new();

    write_preview(&mut output);

    assert_eq!(output, b"Hello, world!\n");
}

