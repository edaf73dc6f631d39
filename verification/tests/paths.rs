use show_files::filepath::{FileMeta, FilePath};
use show_files::filter::{FileType, HiddenType};
use show_files::{is_glob, trim_folder};

#[test]
fn glob_metacharacters_are_recognised() {
    assert!(is_glob("*.rs"));
    assert!(is_glob("file?.txt"));
    assert!(is_glob("[abc]"));
    assert!(!is_glob("plain/path.txt"));
    assert!(!is_glob(""));
}

#[test]
fn trim_folder_strips_prefix_and_separator() {
    assert_eq!(trim_folder("photos", "photos/a.jpg"), "a.jpg".to_string());
    assert_eq!(trim_folder("photos/", "photos/a.jpg"), "a.jpg".to_string());
    assert_eq!(trim_folder("x", "other/a.jpg"), "other/a.jpg".to_string());
    assert_eq!(trim_folder("", "a.jpg"), "a.jpg".to_string());
}

#[test]
fn hidden_filter_judges_names() {
    assert!(HiddenType::Any.is_match(".profile"));
    assert!(HiddenType::Any.is_match("notes"));
    assert!(HiddenType::Hidden.is_match(".profile"));
    assert!(!HiddenType::Hidden.is_match("notes"));
    assert!(!HiddenType::NotHidden.is_match(".profile"));
    assert!(HiddenType::NotHidden.is_match("notes"));
    assert!(!HiddenType::Hidden.is_match(""));
}

#[test]
fn type_filter_judges_metadata() {
    let file = FileMeta {
        is_file: true,
        is_dir: false,
        size: 1,
        created: None,
        modified: None,
        accessed: None,
    };
    let dir = FileMeta {
        is_file: false,
        is_dir: true,
        size: 0,
        created: None,
        modified: None,
        accessed: None,
    };
    assert!(FileType::Any.is_match(&file));
    assert!(FileType::Any.is_match(&dir));
    assert!(FileType::File.is_match(&file));
    assert!(!FileType::File.is_match(&dir));
    assert!(FileType::Folder.is_match(&dir));
    assert!(!FileType::Folder.is_match(&file));
}

#[test]
fn filepath_constructors_set_one_field() {
    let bare = FilePath::new("p".to_string());
    assert_eq!(bare.path, "p");
    assert_eq!(bare.size, 0);
    assert_eq!(bare.date_created, None);
    assert_eq!(bare.last_modified, None);
    assert_eq!(bare.last_accessed, None);

    let sized = FilePath::with_size("p".to_string(), 7);
    assert_eq!(sized.size, 7);

    let created = FilePath::with_date_created("p".to_string(), Some(5));
    assert_eq!(created.date_created, Some(5));
    assert_eq!(created.size, 0);

    let modified = FilePath::with_last_modified("p".to_string(), Some(6));
    assert_eq!(modified.last_modified, Some(6));

    let accessed = FilePath::with_last_accessed("p".to_string(), Some(8));
    assert_eq!(accessed.last_accessed, Some(8));
}

#[test]
fn trim_folder_removes_repeated_prefix() {
    assert_eq!(trim_folder("ab", "ababx"), "x".to_string());
    assert_eq!(trim_folder("a", "b/"), "b/".to_string());
}
