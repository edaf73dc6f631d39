use show_files::table::{calc_offsets, early_accept, RowBuf};

#[test]
fn test_calc_offsets() {
    let cols: Vec<usize> = vec![1, 1, 1];
    let offsets = calc_offsets(&cols, 2);
    assert_eq!(offsets, vec![0, 3, 6]);
}

#[test]
fn test_rowbuf() {
    let mut items = vec!["a".to_string(), "b".to_string(), "c".to_string()];
    let mut buf = RowBuf::new(100, &items, 2);
    assert_eq!(&buf.offsets, &vec![0, 3, 6]);
    for _ in 0..items.len() {
        assert_eq!(buf.push(items.remove(0)), None);
    }
    assert_eq!(buf.push("1".to_string()), Some("a  b  c".to_string()),);

    assert!(buf.push("2".to_string()).is_none());
    assert!(buf.push("3".to_string()).is_none());
    assert_eq!(
        buf.push("pls work".to_string()),
        Some("1  2  3".to_string()),
    );
}

#[test]
fn test_n_columns() {
    let items: Vec<String> = (25..30)
        .map(|n| (0..n).map(|_| 'a').collect::<String>())
        .collect();

    let buf = RowBuf::new(64, &items, 4);

    assert_eq!(0_usize, buf.offsets[0]);
    assert_eq!(2, buf.offsets.len());
}

#[test]
fn single_column_when_items_too_wide() {
    // One item is wider than the target width: the search falls back to a
    // single zero-width column and every item gets its own row.
    let items: Vec<String> = vec!["a".repeat(20), "b".repeat(3)];
    let buf = RowBuf::new(10, &items, 2);
    assert_eq!(buf.offsets, vec![0]);
}

#[test]
fn early_accept_rule() {
    // Fills the width exactly.
    assert!(early_accept(10, 10, 1, 6));
    // Fits, at least half the width, at least half as many columns as items.
    assert!(early_accept(6, 10, 3, 6));
    // Fits but too narrow relative to the width.
    assert!(!early_accept(4, 10, 3, 6));
    // Fits but too few columns relative to the item count.
    assert!(!early_accept(6, 10, 2, 6));
    // Does not fit.
    assert!(!early_accept(11, 10, 6, 6));
}

#[test]
fn flush_and_is_empty() {
    let items = vec!["ab".to_string(), "c".to_string()];
    let mut buf = RowBuf::new(10, &items, 2);
    assert!(buf.is_empty());
    assert_eq!(buf.push("ab".to_string()), None);
    assert_eq!(buf.push("c".to_string()), None);
    assert!(!buf.is_empty());
    assert_eq!(buf.flush(), "ab  c".to_string());
    assert!(buf.is_empty());
}
