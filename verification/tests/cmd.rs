use show_files::cmd::{
    classify_arg, failure_class, failure_message, ArgAction, Cmd, ErrClass, ExitStatus,
    FailureKind, RawEntry, StatOutcome,
};
use show_files::displayer::{Displayer, SpaceOpt};
use show_files::filepath::{FileMeta, FilePath};
use show_files::filter::{FileType, Filter, HiddenType};
use show_files::sorter::{SortBy, Sorter};

fn plain_cmd(args: Vec<String>) -> Cmd {
    Cmd {
        args,
        filter: Filter { file_type: FileType::Any, hidden: HiddenType::NotHidden },
        sorter: Sorter::new(false, SortBy::Name),
        displayer: Displayer { one_per_line: true, space_opt: SpaceOpt::Bare, width: 80 },
    }
}

fn meta(is_file: bool) -> FileMeta {
    FileMeta {
        is_file,
        is_dir: !is_file,
        size: 0,
        created: None,
        modified: None,
        accessed: None,
    }
}

#[test]
fn exit_code_zero_without_errors() {
    let mut st = ExitStatus::new();
    st.merge(&None);
    st.merge(&None);
    assert_eq!(st.code(), 0);
}

#[test]
fn exit_code_single_classes() {
    let mut sys = ExitStatus::new();
    sys.merge(&Some(ErrClass::System));
    sys.merge(&None);
    assert_eq!(sys.code(), 1);

    let mut user = ExitStatus::new();
    user.merge(&None);
    user.merge(&Some(ErrClass::User));
    assert_eq!(user.code(), 2);
}

#[test]
fn exit_code_both_classes_is_three_in_any_order() {
    let mut a = ExitStatus::new();
    a.merge(&Some(ErrClass::System));
    a.merge(&Some(ErrClass::User));
    assert_eq!(a.code(), 3);

    let mut b = ExitStatus::new();
    b.merge(&Some(ErrClass::User));
    b.merge(&Some(ErrClass::System));
    b.merge(&Some(ErrClass::User));
    assert_eq!(b.code(), 3);
}

#[test]
fn classify_existing_paths() {
    assert_eq!(classify_arg("notes.txt", &StatOutcome::IsFile), ArgAction::PrintLiteralFile);
    assert_eq!(classify_arg("photos/", &StatOutcome::IsDir), ArgAction::ListDirectory);
}

#[test]
fn classify_missing_paths() {
    assert_eq!(
        classify_arg("*.missing_ext", &StatOutcome::NotFound),
        ArgAction::ExpandPattern
    );
    assert_eq!(classify_arg("gone", &StatOutcome::NotFound), ArgAction::ReportNotFound);
    assert_eq!(
        classify_arg("secret", &StatOutcome::PermissionDenied),
        ArgAction::ReportPermissionDenied
    );
    assert_eq!(classify_arg("odd", &StatOutcome::OtherError), ArgAction::ReportFailure);
}

#[test]
fn failure_classes_and_messages() {
    assert_eq!(failure_class(&FailureKind::NotFound), ErrClass::User);
    assert_eq!(failure_class(&FailureKind::InvalidPattern), ErrClass::User);
    assert_eq!(failure_class(&FailureKind::PermissionDenied), ErrClass::System);
    assert_eq!(failure_class(&FailureKind::ReadFailure), ErrClass::System);
    assert_eq!(
        failure_message("gone", &FailureKind::NotFound),
        "gone: the system cannot find the file specified".to_string()
    );
    assert_eq!(
        failure_message("secret", &FailureKind::PermissionDenied),
        "secret: permission denied".to_string()
    );
    assert_eq!(
        failure_message("[", &FailureKind::InvalidPattern),
        "[: invalid glob pattern".to_string()
    );
    assert_eq!(
        failure_message("dir", &FailureKind::ReadFailure),
        "dir: read error".to_string()
    );
}

#[test]
fn build_entries_visible_only_drops_hidden_names() {
    let cmd = plain_cmd(vec![".".to_string()]);
    let raw = vec![
        RawEntry { path: "./a.txt".to_string(), name: "a.txt".to_string(), meta: None },
        RawEntry { path: "./.hidden".to_string(), name: ".hidden".to_string(), meta: None },
        RawEntry { path: "./b.txt".to_string(), name: "b.txt".to_string(), meta: None },
    ];
    let files = cmd.build_entries(raw, true);
    let names: Vec<&str> = files.iter().map(|f| f.path.as_str()).collect();
    assert_eq!(names, vec!["./a.txt", "./b.txt"]);
}

#[test]
fn build_entries_hidden_only_keeps_hidden_names() {
    let mut cmd = plain_cmd(vec![".".to_string()]);
    cmd.filter.hidden = HiddenType::Hidden;
    let raw = vec![
        RawEntry { path: "./a.txt".to_string(), name: "a.txt".to_string(), meta: None },
        RawEntry { path: "./.hidden".to_string(), name: ".hidden".to_string(), meta: None },
    ];
    let files = cmd.build_entries(raw, true);
    let names: Vec<&str> = files.iter().map(|f| f.path.as_str()).collect();
    assert_eq!(names, vec!["./.hidden"]);
}

#[test]
fn build_entries_any_keeps_both() {
    let mut cmd = plain_cmd(vec![".".to_string()]);
    cmd.filter.hidden = HiddenType::Any;
    let raw = vec![
        RawEntry { path: "./a.txt".to_string(), name: "a.txt".to_string(), meta: None },
        RawEntry { path: "./.hidden".to_string(), name: ".hidden".to_string(), meta: None },
    ];
    let files = cmd.build_entries(raw, true);
    assert_eq!(files.len(), 2);
}

#[test]
fn build_entries_type_filter_needs_metadata() {
    let mut cmd = plain_cmd(vec![".".to_string()]);
    cmd.filter.file_type = FileType::File;
    assert!(cmd.should_md());
    let raw = vec![
        RawEntry { path: "f".to_string(), name: "f".to_string(), meta: Some(meta(true)) },
        RawEntry { path: "d".to_string(), name: "d".to_string(), meta: Some(meta(false)) },
        RawEntry { path: "x".to_string(), name: "x".to_string(), meta: None },
    ];
    let files = cmd.build_entries(raw, true);
    let names: Vec<&str> = files.iter().map(|f| f.path.as_str()).collect();
    assert_eq!(names, vec!["f"]);
}

#[test]
fn should_md_only_when_needed() {
    let cmd = plain_cmd(vec![".".to_string()]);
    assert!(!cmd.should_md());
    let mut by_size = plain_cmd(vec![".".to_string()]);
    by_size.sorter = Sorter::new(false, SortBy::Size);
    assert!(by_size.should_md());
    let mut dirs_only = plain_cmd(vec![".".to_string()]);
    dirs_only.filter.file_type = FileType::Folder;
    assert!(dirs_only.should_md());
}

#[test]
fn literal_file_bypasses_batch_and_directory_gets_header() {
    // Two arguments, the first a literal file: it is classified for a
    // direct single-line print with no header, while the directory's batch
    // is rendered under a header line naming the argument.
    let cmd = plain_cmd(vec!["notes.txt".to_string(), "photos/".to_string()]);
    assert_eq!(
        classify_arg("notes.txt", &StatOutcome::IsFile),
        ArgAction::PrintLiteralFile
    );
    let files = vec![
        FilePath::new("photos/b.jpg".to_string()),
        FilePath::new("photos/a.jpg".to_string()),
    ];
    let lines = cmd.render_batch("photos/", files, true);
    assert_eq!(
        lines,
        vec!["# photos/:".to_string(), "a.jpg".to_string(), "b.jpg".to_string()]
    );
}

#[test]
fn single_argument_batch_has_no_header() {
    let cmd = plain_cmd(vec!["photos/".to_string()]);
    let files = vec![FilePath::new("photos/a.jpg".to_string())];
    let lines = cmd.render_batch("photos/", files, true);
    assert_eq!(lines, vec!["a.jpg".to_string()]);
}

#[test]
fn pattern_with_no_matches_is_not_an_error() {
    // A well-formed pattern that matches nothing yields an empty batch and
    // contributes no error class, so the exit code stays 0.
    let cmd = plain_cmd(vec!["*.zz_no_such_ext".to_string()]);
    let expanded = cmd.expand_pattern("*.zz_no_such_ext");
    let (paths, read_error) = expanded.expect("a well-formed pattern expands");
    assert!(paths.is_empty());
    assert!(!read_error);
    let lines = cmd.render_batch("*.zz_no_such_ext", Vec::new(), false);
    assert!(lines.is_empty());
    let mut st = ExitStatus::new();
    st.merge(&None);
    assert_eq!(st.code(), 0);
}

#[test]
fn malformed_pattern_is_refused() {
    let cmd = plain_cmd(vec!["[".to_string()]);
    assert!(cmd.expand_pattern("[").is_err());
    assert!(cmd.expand_pattern("***").is_err());
    assert!(cmd.expand_pattern("*.ok").is_ok());
}

#[test]
fn hidden_matches_dropped_when_visible_only() {
    let cmd = plain_cmd(vec!["*".to_string()]);
    let kept = cmd.visible_matches(vec![
        "a.txt".to_string(),
        ".hidden".to_string(),
        "d/.x".to_string(),
        "d/y".to_string(),
    ]);
    assert_eq!(
        kept,
        vec!["a.txt".to_string(), "d/y".to_string()]
    );
}

#[test]
fn hidden_matches_kept_under_other_filters() {
    let mut all = plain_cmd(vec!["*".to_string()]);
    all.filter.hidden = HiddenType::Any;
    assert_eq!(
        all.visible_matches(vec![".hidden".to_string(), "a".to_string()]),
        vec![".hidden".to_string(), "a".to_string()]
    );
    let mut only_hidden = plain_cmd(vec!["*".to_string()]);
    only_hidden.filter.hidden = HiddenType::Hidden;
    assert_eq!(
        only_hidden.visible_matches(vec![".hidden".to_string()]),
        vec![".hidden".to_string()]
    );
}

#[test]
fn expansion_returns_no_hidden_names_when_visible_only() {
    // Whatever the current directory holds, a visible-only expansion never
    // hands back a match whose file name starts with a dot.
    let cmd = plain_cmd(vec!["*".to_string()]);
    let (paths, _) = cmd.expand_pattern("*").expect("a well-formed pattern expands");
    for p in paths {
        let name = p.rsplit('/').next().unwrap_or(&p);
        assert!(!name.starts_with('.'));
    }
}
