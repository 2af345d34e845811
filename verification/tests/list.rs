use mp::{display_width, marker_text_width, marker_width, task_marker, write_list_marker, ListMarkerDisplay, TaskState};

#[test]
fn ordered_marker_text_width_matches_the_written_marker() -> std::io::Result<()> {
    for value in [1, 9, 10, 999, u64::MAX] {
        let marker = ListMarkerDisplay::OrderedGenerated(value);
        let mut buffer = Vec::new();
        write_list_marker(&mut buffer, marker);
        let written = String::from_utf8(buffer)
            .map_err(|error| std::io::Error::new(std::io::ErrorKind::InvalidData, error))?;

        assert_eq!(display_width(&written), marker_text_width(marker), "value {value}");
    }
    Ok(())
}

#[test]
fn marker_column_counts_the_marker_space_and_checkbox() {
    assert_eq!(marker_width(ListMarkerDisplay::Text("•"), None), 2);
    assert_eq!(marker_width(ListMarkerDisplay::OrderedGenerated(10), None), 4);
    assert_eq!(marker_width(ListMarkerDisplay::Text("•"), Some(TaskState::Checked)), 4);
    assert_eq!(task_marker(TaskState::Checked), "☑");
    assert_eq!(task_marker(TaskState::Unchecked), "☐");
}
