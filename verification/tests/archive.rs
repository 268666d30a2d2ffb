use ghrls::archive::{
    collect_top_level, detect_format, extraction_landing, is_symlink_mode, normalize_entry_path,
    to_forward_slashes, ArchiveFormat, EntryAction, EntryMatcher,
};
use ghrls::destination::Destination;
use ghrls::error::AppError;

#[test]
fn test_archive_path_has_preceeding_and_trailing_slash() {
    assert_eq!(normalize_entry_path("./foo/bar/"), "foo/bar");
}

#[test]
fn test_detect_format() {
    assert_eq!(
        detect_format("tool-v1.0.0-linux-amd64.tar.gz"),
        Some(ArchiveFormat::TarGz)
    );
    assert_eq!(
        detect_format("tool-v1.0.0-linux-amd64.tgz"),
        Some(ArchiveFormat::TarGz)
    );
    assert_eq!(
        detect_format("tool-v1.0.0-linux-amd64.zip"),
        Some(ArchiveFormat::Zip)
    );
    assert_eq!(detect_format("tool-v1.0.0-linux-amd64.tar.bz2"), None);
    assert_eq!(detect_format("tool-v1.0.0-linux-amd64"), None);
}

#[test]
fn normalize_strips_one_dot_slash_and_all_trailing_slashes() {
    assert_eq!(normalize_entry_path("././a//"), "./a");
    assert_eq!(normalize_entry_path("bin/tool"), "bin/tool");
    assert_eq!(normalize_entry_path("./"), "");
    assert_eq!(normalize_entry_path(""), "");
    assert_eq!(normalize_entry_path("/abs/dir/"), "/abs/dir");
}

#[test]
fn collect_top_level_keeps_each_first_component_once() {
    let mut top: Vec<String> = Vec::new();
    collect_top_level("bin/tool", &mut top);
    collect_top_level("bin/other", &mut top);
    collect_top_level("README.md", &mut top);
    collect_top_level("", &mut top);
    collect_top_level("/abs", &mut top);
    assert_eq!(top, vec!["bin".to_string(), "README.md".to_string()]);
}

#[test]
fn zip_symlink_mode_detection() {
    assert!(is_symlink_mode(Some(0o120777)));
    assert!(!is_symlink_mode(Some(0o100644)));
    assert!(!is_symlink_mode(Some(0o040755)));
    assert!(!is_symlink_mode(None));
}

#[test]
fn backslashes_become_slashes() {
    assert_eq!(to_forward_slashes("bin\\tool"), "bin/tool");
    assert_eq!(to_forward_slashes("a/b"), "a/b");
}

fn path_of(a: &EntryAction) -> Option<&str> {
    match a {
        EntryAction::Write(p) | EntryAction::WriteAndStop(p) => Some(p.as_str()),
        _ => None,
    }
}

#[test]
fn matcher_file_entry_written_and_stops() {
    let mut m = EntryMatcher::new("bin/tool", "/out/tool");
    let a = m.step_tar("./bin/", true, false).unwrap();
    assert!(matches!(a, EntryAction::Skip));
    let a = m.step_tar("README.md", false, false).unwrap();
    assert!(matches!(a, EntryAction::Skip));
    let a = m.step_tar("./bin/tool", false, false).unwrap();
    assert!(matches!(a, EntryAction::WriteAndStop(ref p) if p == "/out/tool"));
    assert!(m.finish().is_ok());
}

#[test]
fn matcher_directory_entry_writes_children_below_landing() {
    let mut m = EntryMatcher::new("share/config/", "/tmp/myconfig");
    let a = m.step_tar("share/config/a.conf", false, false).unwrap();
    assert_eq!(path_of(&a), Some("/tmp/myconfig/a.conf"));
    assert!(matches!(a, EntryAction::Write(_)));
    let a = m.step_tar("share/config/sub/b.conf", false, false).unwrap();
    assert_eq!(path_of(&a), Some("/tmp/myconfig/sub/b.conf"));
    let a = m.step_tar("share/configx/c.conf", false, false).unwrap();
    assert!(matches!(a, EntryAction::Skip));
    let a = m.step_tar("other/file.txt", false, false).unwrap();
    assert!(matches!(a, EntryAction::Skip));
    assert!(m.finish().is_ok());
}

#[test]
fn matcher_not_found_lists_sorted_top_level() {
    let mut m = EntryMatcher::new("no/such/path", "/out/path");
    for p in ["share/man/tool.1", "bin/tool", "bin/", "share/doc", "README.md"] {
        let is_dir = p.ends_with('/');
        assert!(matches!(m.step_tar(p, is_dir, false).unwrap(), EntryAction::Skip));
    }
    match m.finish() {
        Err(AppError::EntryNotFound(entry, top)) => {
            assert_eq!(entry, "no/such/path");
            assert_eq!(top, "README.md\n  bin\n  share");
        }
        other => panic!("unexpected {:?}", other),
    }
}

#[test]
fn matcher_direct_symlink_is_an_error() {
    let mut m = EntryMatcher::new("bin/tool", "/out/tool");
    match m.step_tar("bin/tool", false, true) {
        Err(AppError::SymlinkEntry(e)) => assert_eq!(e, "bin/tool"),
        other => panic!("unexpected {:?}", other),
    }
}

#[test]
fn matcher_child_symlinks_skipped() {
    let mut m = EntryMatcher::new("pkg", "/out/pkg");
    let a = m.step_tar("pkg/real.txt", false, false).unwrap();
    assert_eq!(path_of(&a), Some("/out/pkg/real.txt"));
    let a = m.step_tar("pkg/link.txt", false, true).unwrap();
    assert!(matches!(a, EntryAction::SkipSymlink(ref p) if p == "pkg/link.txt"));
    assert!(m.finish().is_ok());
}

#[test]
fn matcher_zip_names_with_backslashes_and_empty_names() {
    let mut m = EntryMatcher::new("bin/tool", "/out/tool");
    assert!(matches!(m.step_zip(None, false, None).unwrap(), EntryAction::Skip));
    assert!(matches!(m.step_zip(Some("./"), false, None).unwrap(), EntryAction::Skip));
    let a = m.step_zip(Some("bin\\tool"), false, Some(0o100644)).unwrap();
    assert!(matches!(a, EntryAction::WriteAndStop(ref p) if p == "/out/tool"));
    let mut m = EntryMatcher::new("bin/tool", "/out/tool");
    assert!(matches!(
        m.step_zip(Some("bin/tool"), false, Some(0o120777)),
        Err(AppError::SymlinkEntry(_))
    ));
    // an empty name is not listed among the top-level entries
    let mut m = EntryMatcher::new("x", "/out/x");
    m.step_zip(Some(""), false, None).unwrap();
    m.step_zip(Some("a/b"), false, None).unwrap();
    match m.finish() {
        Err(AppError::EntryNotFound(_, top)) => assert_eq!(top, "a"),
        other => panic!("unexpected {:?}", other),
    }
}

#[test]
fn landing_for_entries_and_whole_archives() {
    let into = Destination::Into("/tmp/x".to_string());
    assert_eq!(extraction_landing(None, &into), "/tmp/x");
    assert_eq!(extraction_landing(Some("bin/tool"), &into), "/tmp/x/tool");
    assert_eq!(extraction_landing(Some("./share/config/"), &into), "/tmp/x/config");
    assert_eq!(extraction_landing(Some(".."), &into), "/tmp/x/..");
    let exact = Destination::Exact("/tmp/mytool".to_string());
    assert_eq!(extraction_landing(Some("bin/tool"), &exact), "/tmp/mytool");
    let here = Destination::Into(".".to_string());
    assert_eq!(extraction_landing(Some("bin/tool"), &here), "./tool");
}
