use ghrls::destination::{download_path, Destination};
use ghrls::error::AppError;

fn s(p: &std::path::Path) -> String {
    p.to_str().unwrap().to_string()
}

#[test]
fn test_destination_resolve_no_args_uses_current_dir() {
    let dest = Destination::resolve(None, None).unwrap();
    assert!(matches!(dest, Destination::Into(d) if std::path::Path::new(&d) == std::path::Path::new(".")));
}

#[test]
fn test_destination_resolve_into_existing_dir_appends_nothing() {
    let tmp = tempfile::tempdir().unwrap();
    let dest = Destination::resolve(Some(&s(tmp.path())), None).unwrap();
    assert!(matches!(dest, Destination::Into(d) if std::path::Path::new(&d) == tmp.path()));
}

#[test]
fn test_destination_resolve_into_non_existing_dir() {
    let tmp = tempfile::tempdir().unwrap();
    let non_existing = tmp.path().join("subdir");
    let dest = Destination::resolve(Some(&s(&non_existing)), None).unwrap();
    assert!(matches!(dest, Destination::Into(d) if std::path::Path::new(&d) == non_existing));
}

#[test]
fn test_destination_resolve_exact_non_existing_path_used_as_is() {
    let dest = Destination::resolve(None, Some("/tmp/renamed.bin")).unwrap();
    assert!(matches!(dest, Destination::Exact(p) if std::path::Path::new(&p) == std::path::Path::new("/tmp/renamed.bin")));
}

#[test]
fn test_destination_resolve_exact_existing_file_used_as_is() {
    let tmp = tempfile::tempdir().unwrap();
    let file_path = tmp.path().join("existing.bin");
    let _file = tempfile::Builder::new()
        .prefix("existing")
        .suffix(".bin")
        .rand_bytes(0)
        .tempfile_in(tmp.path())
        .unwrap();
    assert!(file_path.is_file());
    let dest = Destination::resolve(None, Some(&s(&file_path))).unwrap();
    assert!(matches!(dest, Destination::Exact(p) if std::path::Path::new(&p) == file_path));
}

#[test]
fn test_destination_resolve_exact_existing_directory_returns_error() {
    let tmp = tempfile::tempdir().unwrap();
    let err = Destination::resolve(None, Some(&s(tmp.path()))).unwrap_err();
    assert!(matches!(err, AppError::OutputIsDir(_)));
}

#[test]
fn test_destination_resolve_into_existing_file_returns_error() {
    let tmp = tempfile::tempdir().unwrap();
    let file_path = tmp.path().join("existing.bin");
    let _file = tempfile::Builder::new()
        .prefix("existing")
        .suffix(".bin")
        .rand_bytes(0)
        .tempfile_in(tmp.path())
        .unwrap();
    assert!(file_path.is_file());
    let err = Destination::resolve(Some(&s(&file_path)), None).unwrap_err();
    assert!(matches!(err, AppError::DirIsFile(_)));
}

#[test]
fn exact_takes_precedence_over_into() {
    let dest = Destination::resolve(Some("/definitely/not/here"), Some("/tmp/renamed.bin")).unwrap();
    assert!(matches!(dest, Destination::Exact(p) if p == "/tmp/renamed.bin"));
}

#[test]
fn from_checks_decides_on_the_given_answers() {
    assert!(matches!(
        Destination::from_checks(None, Some("/x"), true, false),
        Err(AppError::OutputIsDir(p)) if p == "/x"
    ));
    assert!(matches!(
        Destination::from_checks(Some("/d"), None, false, true),
        Err(AppError::DirIsFile(p)) if p == "/d"
    ));
    assert!(matches!(
        Destination::from_checks(None, None, false, false),
        Ok(Destination::Into(p)) if p == "."
    ));
}

#[test]
fn download_path_joins_or_renames() {
    let into = Destination::Into("/tmp/dl".to_string());
    assert_eq!(download_path("asset.bin", &into), "/tmp/dl/asset.bin");
    let into_slash = Destination::Into("/tmp/dl/".to_string());
    assert_eq!(download_path("asset.bin", &into_slash), "/tmp/dl/asset.bin");
    let exact = Destination::Exact("/tmp/renamed.bin".to_string());
    assert_eq!(download_path("ignored", &exact), "/tmp/renamed.bin");
}
