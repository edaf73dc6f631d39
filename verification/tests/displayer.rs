use show_files::displayer::{Displayer, Rows, SpaceOpt};

#[test]
fn test_row_len() {
    let mut items: Vec<String> = [
        "fasdfsdfffffffffff",
        "afsfsfsfsfsfsfsfswwwwwbasxefgasdfq",
        "aaaaaaaaaaaaaaaaaaaaaaaaaaaaaaaaaaaaaaaaaaa",
        "1234123412341234123412342134",
        "fafa..:::::::::!!@fafafsdfiiiii",
    ]
    .iter()
    .map(|s| s.to_string())
    .collect();

    items.push((0..50).map(|_| 'a').collect());

    let rows = Rows::new(100, items, 4);

    for row in rows.collect_rows() {
        if row.len() > 100 {
            panic!("row.len is greater than 100:\n{}", &row);
        }
    }
}

#[test]
fn rows_fit_width_scenario() {
    // Width 100, minimum spacing 4, items of lengths 18, 35, 44, 29, 32, 50:
    // no emitted row exceeds 100 characters.
    let lengths: [usize; 6] = [18, 35, 44, 29, 32, 50];
    let items: Vec<String> = lengths.iter().map(|n| "x".repeat(*n)).collect();
    let rows = Rows::new(100, items, 4);
    for row in rows.collect_rows() {
        assert!(row.len() <= 100);
    }
}

#[test]
fn three_short_items_one_row() {
    // Three one-character items at width 100 and spacing 2 pack into a
    // single row with columns of width one at offsets 0, 3 and 6.
    let items = vec!["a".to_string(), "b".to_string(), "c".to_string()];
    let rows = Rows::new(100, items, 2);
    assert_eq!(rows.collect_rows(), vec!["a  b  c".to_string()]);
}

#[test]
fn format_bare_keeps_path() {
    assert_eq!(SpaceOpt::Bare.format("a b"), "a b".to_string());
    assert_eq!(SpaceOpt::Bare.format("plain"), "plain".to_string());
}

#[test]
fn format_quoted() {
    // No space: unchanged.
    assert_eq!(SpaceOpt::Quoted.format("plain"), "plain".to_string());
    // A space and no single quote: wrapped in single quotes.
    assert_eq!(SpaceOpt::Quoted.format("a b"), "'a b'".to_string());
    // A space and a single quote: double quotes, backslashes doubled.
    assert_eq!(SpaceOpt::Quoted.format("a 'b\\c"), "\"a 'b\\\\c\"".to_string());
}

#[test]
fn format_escaped() {
    // No space: unchanged, backslashes kept.
    assert_eq!(SpaceOpt::Escaped.format("a\\b"), "a\\b".to_string());
    // Spaces escaped, backslashes doubled first.
    assert_eq!(SpaceOpt::Escaped.format("a b"), "a\\ b".to_string());
    assert_eq!(SpaceOpt::Escaped.format("a\\ b"), "a\\\\\\ b".to_string());
}

#[test]
fn render_one_per_line() {
    let d = Displayer { one_per_line: true, space_opt: SpaceOpt::Bare, width: 80 };
    let lines = d.render(vec!["one".to_string(), "two".to_string()]);
    assert_eq!(lines, vec!["one".to_string(), "two".to_string()]);
}

#[test]
fn render_grid_formats_before_packing() {
    let d = Displayer { one_per_line: false, space_opt: SpaceOpt::Quoted, width: 100 };
    let lines = d.render(vec!["a b".to_string(), "c".to_string()]);
    assert_eq!(lines, vec!["'a b'    c".to_string()]);
}

#[test]
fn render_empty_batch_prints_nothing() {
    let d = Displayer { one_per_line: false, space_opt: SpaceOpt::Bare, width: 80 };
    let lines = d.render(Vec::new());
    assert!(lines.is_empty());
}

#[test]
fn grid_with_two_rows_pads_columns() {
    // Four items, width 12, spacing 2: two columns of widths 2 and 3.
    let items = vec![
        "aa".to_string(),
        "bbb".to_string(),
        "c".to_string(),
        "d".to_string(),
    ];
    let rows = Rows::new(12, items, 2);
    assert_eq!(rows.collect_rows(), vec!["aa  bbb".to_string(), "c   d".to_string()]);
}

#[test]
fn oversized_item_gets_its_own_row() {
    let items = vec!["x".repeat(12), "ab".to_string()];
    let rows = Rows::new(8, items, 2);
    assert_eq!(rows.collect_rows(), vec!["x".repeat(12), "ab".to_string()]);
}
