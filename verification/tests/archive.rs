use remajiro_tools::archive::{
    any_escaping, archive_total_size, entry_needs_write, safe_relative_path, PathPart,
};

#[test]
fn relative_entry_names_are_kept() {
    assert_eq!(safe_relative_path("a/b.txt").unwrap(), "a/b.txt");
    assert_eq!(safe_relative_path("./script/start.mjo").unwrap(), "./script/start.mjo");
    assert_eq!(safe_relative_path("plain.mjo").unwrap(), "plain.mjo");
}

#[test]
fn parent_directory_is_refused() {
    let err = safe_relative_path("../evil.txt").unwrap_err();
    assert_eq!(err.name, "../evil.txt");
    assert!(safe_relative_path("a/../../b").is_err());
}

#[test]
fn absolute_names_are_refused() {
    let err = safe_relative_path("/etc/passwd").unwrap_err();
    assert_eq!(err.name, "/etc/passwd");
}

#[test]
fn total_size_adds_entry_sizes() {
    assert_eq!(archive_total_size(&vec![1, 2, 3]), Some(6));
    assert_eq!(archive_total_size(&vec![]), Some(0));
    assert_eq!(archive_total_size(&vec![usize::MAX, 1]), None);
}

#[test]
fn identical_files_are_not_rewritten() {
    let data: &[u8] = &[1, 2, 3];
    assert!(entry_needs_write(None, data));
    assert!(!entry_needs_write(Some(&[1, 2, 3]), data));
    assert!(entry_needs_write(Some(&[1, 2, 4]), data));
    assert!(entry_needs_write(Some(&[1, 2]), data));
}

#[test]
fn escaping_components() {
    assert!(!any_escaping(&vec![PathPart::CurDir, PathPart::Normal, PathPart::Normal]));
    assert!(any_escaping(&vec![PathPart::Normal, PathPart::ParentDir]));
    assert!(any_escaping(&vec![PathPart::RootDir, PathPart::Normal]));
    assert!(any_escaping(&vec![PathPart::Prefix]));
    assert!(!any_escaping(&vec![]));
}
