use ghrls::error::AppError;
use ghrls::path::{file_name, join_path};

#[test]
fn join_follows_unix_path_rules() {
    assert_eq!(join_path("a", "b"), "a/b");
    assert_eq!(join_path("a/", "b"), "a/b");
    assert_eq!(join_path("", "b"), "b");
    assert_eq!(join_path("a", "/b"), "/b");
    assert_eq!(join_path("a", ""), "a/");
}

#[test]
fn file_name_follows_path_components() {
    assert_eq!(file_name("a/b").as_deref(), Some("b"));
    assert_eq!(file_name("a/b/").as_deref(), Some("b"));
    assert_eq!(file_name("a/.").as_deref(), Some("a"));
    assert_eq!(file_name("./a").as_deref(), Some("a"));
    assert_eq!(file_name("a/.."), None);
    assert_eq!(file_name("."), None);
    assert_eq!(file_name("/"), None);
    assert_eq!(file_name(""), None);
    for p in ["a/b", "a/b/", "a/.", "./a", "a/..", ".", "/", "", "x//y", "/./z/./"] {
        let expected = std::path::Path::new(p)
            .file_name()
            .map(|s| s.to_str().unwrap().to_string());
        assert_eq!(file_name(p), expected, "file name of {:?}", p);
    }
}

#[test]
fn error_messages() {
    assert_eq!(
        AppError::OutputIsDir("/tmp".to_string()).message(),
        "--output path '/tmp' is an existing directory; use --dir to save into a directory"
    );
    assert_eq!(
        AppError::EntryNotFound("x".to_string(), "a\n  b".to_string()).message(),
        "Entry 'x' not found in archive. Top-level entries:\n  a\n  b"
    );
    assert_eq!(
        AppError::MultipleMatches { pattern: "p".to_string(), matched: "m".to_string() }.message(),
        "Pattern 'p' matched multiple assets \u{2014} refine your pattern:\n  m"
    );
}
