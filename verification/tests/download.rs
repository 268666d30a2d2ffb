use ghrls::archive::ArchiveFormat;
use ghrls::download::{check_download_flags, check_executable_target, check_extractable, FlagConflict};
use ghrls::destination::Destination;
use ghrls::error::AppError;

#[test]
fn test_extract_and_output_whole_archive_rejected() {
    assert_eq!(
        check_download_flags(true, None, Some("/tmp/file.bin"), false),
        Err(FlagConflict::OutputWithWholeArchive)
    );
}

#[test]
fn test_extract_and_executable_without_archive_entry_rejected() {
    assert_eq!(
        check_download_flags(true, None, None, true),
        Err(FlagConflict::ExecutableWithWholeArchive)
    );
}

#[test]
fn test_extract_with_archive_entry_and_executable_accepted() {
    assert_eq!(check_download_flags(true, Some("bin/tool"), None, true), Ok(()));
}

#[test]
fn output_with_entry_or_without_extract_accepted() {
    assert_eq!(check_download_flags(true, Some("bin/tool"), Some("/tmp/mytool"), false), Ok(()));
    assert_eq!(check_download_flags(false, None, Some("/tmp/file.bin"), true), Ok(()));
}

#[test]
fn conflict_messages() {
    assert_eq!(
        FlagConflict::OutputWithWholeArchive.message(),
        "--output cannot be used when extracting a whole archive; use --dir instead"
    );
    assert!(FlagConflict::ExecutableWithWholeArchive.message().contains("--archive-entry"));
}

#[test]
fn extractable_formats() {
    assert!(matches!(check_extractable("a.tgz"), Ok(ArchiveFormat::TarGz)));
    assert!(matches!(check_extractable("a.zip"), Ok(ArchiveFormat::Zip)));
    assert!(matches!(check_extractable("a.exe"), Err(AppError::UnsupportedFormat(n)) if n == "a.exe"));
}

#[test]
fn executable_target_must_be_a_file() {
    assert!(matches!(
        check_executable_target(true, "/x", true),
        Err(AppError::ExecutableTargetIsDir(p)) if p == "/x"
    ));
    assert!(check_executable_target(true, "/x", false).is_ok());
    assert!(check_executable_target(false, "/x", true).is_ok());
}

#[test]
fn accepted_whole_archive_extraction_resolves_to_a_directory() {
    assert_eq!(check_download_flags(true, None, None, false), Ok(()));
    let tmp = tempfile::tempdir().unwrap();
    let dir = tmp.path().to_str().unwrap().to_string();
    let dest = Destination::resolve(Some(&dir), None).unwrap();
    assert!(matches!(dest, Destination::Into(d) if d == dir));
}
