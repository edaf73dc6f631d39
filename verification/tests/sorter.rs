use show_files::filepath::{FileMeta, FilePath};
use show_files::sorter::{cmp_opt, SortBy, Sorter};

#[test]
fn cmp_opt_orders_missing_first() {
    assert_eq!(cmp_opt(&None, &None), std::cmp::Ordering::Equal);
    assert_eq!(cmp_opt(&None, &Some(1)), std::cmp::Ordering::Less);
    assert_eq!(cmp_opt(&Some(1), &None), std::cmp::Ordering::Greater);
    assert_eq!(cmp_opt(&Some(1), &Some(2)), std::cmp::Ordering::Less);
    assert_eq!(cmp_opt(&Some(2), &Some(2)), std::cmp::Ordering::Equal);
    assert_eq!(cmp_opt(&Some(3), &Some(2)), std::cmp::Ordering::Greater);
}

#[test]
fn sort_by_size_ascending_orders_sizes() {
    let mut files = vec![
        FilePath::with_size("c".to_string(), 30),
        FilePath::with_size("a".to_string(), 10),
        FilePath::with_size("b".to_string(), 20),
    ];
    SortBy::Size.sort_ascending(&mut files);
    let sizes: Vec<u64> = files.iter().map(|f| f.size).collect();
    assert_eq!(sizes, vec![10, 20, 30]);
    for pair in sizes.windows(2) {
        assert!(pair[0] <= pair[1]);
    }
}

#[test]
fn sort_by_size_descending_orders_sizes() {
    let mut files = vec![
        FilePath::with_size("a".to_string(), 10),
        FilePath::with_size("c".to_string(), 30),
        FilePath::with_size("b".to_string(), 20),
    ];
    SortBy::Size.sort_descending(&mut files);
    let sizes: Vec<u64> = files.iter().map(|f| f.size).collect();
    assert_eq!(sizes, vec![30, 20, 10]);
}

#[test]
fn sort_is_stable_for_equal_keys() {
    let mut files = vec![
        FilePath::with_size("first".to_string(), 5),
        FilePath::with_size("second".to_string(), 5),
        FilePath::with_size("third".to_string(), 1),
    ];
    SortBy::Size.sort_ascending(&mut files);
    let names: Vec<&str> = files.iter().map(|f| f.path.as_str()).collect();
    assert_eq!(names, vec!["third", "first", "second"]);
}

#[test]
fn sort_by_timestamp_missing_first() {
    let mut files = vec![
        FilePath::with_last_modified("late".to_string(), Some(200)),
        FilePath::with_last_modified("unknown".to_string(), None),
        FilePath::with_last_modified("early".to_string(), Some(100)),
    ];
    SortBy::LastModified.sort_ascending(&mut files);
    let names: Vec<&str> = files.iter().map(|f| f.path.as_str()).collect();
    assert_eq!(names, vec!["unknown", "early", "late"]);
}

#[test]
fn sort_by_name_compares_stems() {
    let mut files = vec![
        FilePath::new("dir/c.txt".to_string()),
        FilePath::new("dir/a.zip".to_string()),
        FilePath::new("dir/b".to_string()),
    ];
    SortBy::Name.sort_ascending(&mut files);
    let names: Vec<&str> = files.iter().map(|f| f.path.as_str()).collect();
    assert_eq!(names, vec!["dir/a.zip", "dir/b", "dir/c.txt"]);
}

#[test]
fn sorting_twice_gives_identical_sequence() {
    let mut files = vec![
        FilePath::with_size("c".to_string(), 3),
        FilePath::with_size("a".to_string(), 1),
        FilePath::with_size("b".to_string(), 3),
        FilePath::with_size("d".to_string(), 2),
    ];
    let sorter = Sorter::new(false, SortBy::Size);
    sorter.sort(&mut files);
    let once: Vec<String> = files.iter().map(|f| f.path.clone()).collect();
    sorter.sort(&mut files);
    let twice: Vec<String> = files.iter().map(|f| f.path.clone()).collect();
    assert_eq!(once, twice);
}

#[test]
fn no_sort_keeps_enumeration_order_both_directions() {
    let make = || {
        vec![
            FilePath::new("z".to_string()),
            FilePath::new("a".to_string()),
            FilePath::new("m".to_string()),
        ]
    };
    let mut asc = make();
    Sorter::new(false, SortBy::NoSort).sort(&mut asc);
    let mut desc = make();
    Sorter::new(true, SortBy::NoSort).sort(&mut desc);
    let order_asc: Vec<&str> = asc.iter().map(|f| f.path.as_str()).collect();
    let order_desc: Vec<&str> = desc.iter().map(|f| f.path.as_str()).collect();
    assert_eq!(order_asc, vec!["z", "a", "m"]);
    assert_eq!(order_desc, vec!["z", "a", "m"]);
}

#[test]
fn new_filepath_carries_only_the_sorted_field() {
    let md = FileMeta {
        is_file: true,
        is_dir: false,
        size: 42,
        created: Some(1),
        modified: Some(2),
        accessed: Some(3),
    };
    let by_size = SortBy::Size.new_filepath("p".to_string(), &md);
    assert_eq!(by_size.size, 42);
    assert_eq!(by_size.date_created, None);
    let by_name = SortBy::Name.new_filepath("p".to_string(), &md);
    assert_eq!(by_name.size, 0);
    let by_created = SortBy::DateCreated.new_filepath("p".to_string(), &md);
    assert_eq!(by_created.date_created, Some(1));
    assert_eq!(by_created.size, 0);
    let by_modified = SortBy::LastModified.new_filepath("p".to_string(), &md);
    assert_eq!(by_modified.last_modified, Some(2));
    let by_accessed = SortBy::LastAccessed.new_filepath("p".to_string(), &md);
    assert_eq!(by_accessed.last_accessed, Some(3));
}

#[test]
fn sort_by_timestamp_descending_missing_last() {
    let mut files = vec![
        FilePath::with_last_accessed("unknown".to_string(), None),
        FilePath::with_last_accessed("late".to_string(), Some(200)),
        FilePath::with_last_accessed("early".to_string(), Some(100)),
    ];
    SortBy::LastAccessed.sort_descending(&mut files);
    let names: Vec<&str> = files.iter().map(|f| f.path.as_str()).collect();
    assert_eq!(names, vec!["late", "early", "unknown"]);
}

#[test]
fn hidden_names_keep_their_whole_stem() {
    // A leading dot is no extension separator: ".bashrc" sorts as itself.
    let mut files = vec![
        FilePath::new(".bashrc".to_string()),
        FilePath::new(".aliases".to_string()),
    ];
    SortBy::Name.sort_ascending(&mut files);
    let names: Vec<&str> = files.iter().map(|f| f.path.as_str()).collect();
    assert_eq!(names, vec![".aliases", ".bashrc"]);
}
