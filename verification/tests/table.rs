use mp::{display_width, shrink_to_fit, table_layout, table_total_width, Alignment, Inline, Table, Text};

fn measure_text(cell: &Vec<Inline<'_>>) -> usize {
    cell.iter()
        .map(|inline| match inline {
            Inline::Text(text) => display_width(text.as_str()),
            _ => 0,
        })
        .sum()
}

fn cell(text: &'static str) -> Vec<Inline<'static>> {
    vec![Inline::Text(Text::borrowed(text))]
}

#[test]
fn table_layout_ignores_cells_beyond_the_header_columns() {
    let table = Table {
        header: vec![cell("H")],
        alignments: vec![Alignment::Left],
        rows: vec![vec![cell("a"), cell("ignored extra cell")]],
    };

    let widths = table_layout(&table, measure_text, None);

    assert_eq!(widths.len(), 1, "column count follows the header, not ragged rows");
}

#[test]
fn table_layout_preserves_measured_unicode_cell_widths() {
    let table = Table {
        header: vec![cell("H")],
        alignments: vec![Alignment::Left],
        rows: vec![vec![cell("日本語")], vec![cell("e\u{301}")], vec![cell("👩\u{200d}💻")]],
    };

    let widths = table_layout(&table, measure_text, None);

    assert_eq!(widths, vec![6]);
}

#[test]
fn shrinks_the_widest_column_first_to_fit_the_available_width() {
    let table = Table {
        header: vec![cell("HH"), cell("HHHH")],
        alignments: vec![Alignment::Left, Alignment::Left],
        rows: vec![vec![cell("aaaa"), cell("bbbbbbbbbbbb")]],
    };

    // Natural widths are [4, 12]; borders and padding add 7, so the table
    // is 23 columns wide. Fitting into 19 must take 4 from the widest.
    let widths = table_layout(&table, measure_text, Some(19));

    assert_eq!(widths, vec![4, 8]);
}

#[test]
fn tied_columns_shrink_only_by_the_remaining_overflow() {
    let table = Table {
        header: vec![cell("aaaaaaaaaa"), cell("bbbbbbbbbb")],
        alignments: vec![Alignment::Left, Alignment::Left],
        rows: vec![],
    };

    // Natural widths are [10, 10]; borders and padding add 7, so the
    // table is 27 columns wide. Fitting into 26 must shrink only one
    // content column, not every tied widest column.
    let widths = table_layout(&table, measure_text, Some(26));

    assert_eq!(table_total_width(&widths), 26);
    assert_eq!(
        widths.iter().filter(|width| **width == 10).count(),
        1,
        "one tied column should keep its full width: {widths:?}"
    );
}

#[test]
fn columns_never_shrink_below_the_minimum_width() {
    let table = Table {
        header: vec![cell("HHHHHHH"), cell("HHHHHHH")],
        alignments: vec![Alignment::Left, Alignment::Left],
        rows: vec![],
    };

    // Even a 5-column budget cannot push content widths below 3.
    let widths = table_layout(&table, measure_text, Some(5));

    assert_eq!(widths, vec![3, 3]);
}

#[test]
fn alignment_row_wider_than_the_header_adds_columns() {
    let table = Table {
        header: vec![cell("H")],
        alignments: vec![Alignment::Left, Alignment::Right],
        rows: vec![],
    };

    let widths = table_layout(&table, measure_text, None);

    assert_eq!(widths, vec![3, 3]);
}

#[test]
fn shrinking_leaves_fitting_widths_unchanged_and_never_goes_below_the_budget() {
    let mut fitting = vec![4, 5];
    shrink_to_fit(&mut fitting, 100);
    assert_eq!(fitting, vec![4, 5]);

    let mut wide = vec![20, 9, 3];
    shrink_to_fit(&mut wide, 30);
    assert_eq!(table_total_width(&wide), 30);
    assert!(wide.iter().all(|width| *width >= 3));
    assert!(wide[0] <= 20 && wide[1] <= 9 && wide[2] == 3);
}

#[test]
fn total_width_counts_borders_and_padding() {
    assert_eq!(table_total_width(&[4, 12]), 23);
    assert_eq!(table_total_width(&[]), 1);
}

#[test]
fn columns_already_below_the_minimum_stay_as_they_are_when_shrinking() {
    let mut widths = vec![1, 10];
    shrink_to_fit(&mut widths, 5);

    assert_eq!(widths, vec![1, 3]);
}
