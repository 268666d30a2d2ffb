use ghrls::output::{output_path_from_check, resolve_output_path};

fn s(p: &std::path::Path) -> String {
    p.to_str().unwrap().to_string()
}

#[test]
fn test_resolve_no_flags_uses_current_dir() {
    let path = resolve_output_path("asset.tar.gz", None, None).unwrap();
    assert_eq!(std::path::PathBuf::from(path), std::path::Path::new(".").join("asset.tar.gz"));
}

#[test]
fn test_resolve_dir_existing_appends_filename() {
    let tmp = tempfile::tempdir().unwrap();
    let path = resolve_output_path("asset.tar.gz", Some(&s(tmp.path())), None).unwrap();
    assert_eq!(std::path::PathBuf::from(path), tmp.path().join("asset.tar.gz"));
}

#[test]
fn test_resolve_dir_non_existing_appends_filename() {
    let tmp = tempfile::tempdir().unwrap();
    let non_existing = tmp.path().join("subdir");
    let path = resolve_output_path("asset.tar.gz", Some(&s(&non_existing)), None).unwrap();
    assert_eq!(std::path::PathBuf::from(path), non_existing.join("asset.tar.gz"));
}

#[test]
fn test_resolve_output_non_existing_path_used_as_is() {
    let path = resolve_output_path("asset.tar.gz", None, Some("/tmp/renamed.bin")).unwrap();
    assert_eq!(std::path::PathBuf::from(path), std::path::Path::new("/tmp/renamed.bin"));
}

#[test]
fn test_resolve_output_existing_file_used_as_is() {
    let tmp = tempfile::tempdir().unwrap();
    let file_path = tmp.path().join("existing.bin");
    let _file = tempfile::Builder::new()
        .prefix("existing")
        .suffix(".bin")
        .rand_bytes(0)
        .tempfile_in(tmp.path())
        .unwrap();
    assert!(file_path.is_file());
    let path = resolve_output_path("asset.tar.gz", None, Some(&s(&file_path))).unwrap();
    assert_eq!(std::path::PathBuf::from(path), file_path);
}

#[test]
fn test_resolve_output_existing_directory_returns_error() {
    let tmp = tempfile::tempdir().unwrap();
    let err = resolve_output_path("asset.tar.gz", None, Some(&s(tmp.path()))).unwrap_err();
    assert!(err.message().contains("existing directory"));
}

#[test]
fn output_path_from_check_cases() {
    assert!(output_path_from_check("a", None, Some("/d"), true).is_err());
    assert_eq!(output_path_from_check("a", None, Some("/d"), false).unwrap(), "/d");
    assert_eq!(output_path_from_check("a", Some(""), None, false).unwrap(), "a");
    assert_eq!(output_path_from_check("/abs", Some("dir"), None, false).unwrap(), "/abs");
}
