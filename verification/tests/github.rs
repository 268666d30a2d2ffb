use ghrls::error::AppError;
use ghrls::github::{
    select_asset, strip_tag_prefix, to_api_url, url_path_segments, Asset, AssetPattern, UrlParts,
};

fn make_asset(name: &str) -> Asset {
    Asset {
        name: name.to_string(),
        browser_download_url: format!("https://example.com/{}", name),
    }
}

#[test]
fn test_no_matching_assets() {
    let assets = vec![
        make_asset("gh_2.40.1_linux_amd64.tar.gz"),
        make_asset("gh_2.40.1_darwin_amd64.tar.gz"),
    ];
    let pattern = AssetPattern::new("windows").unwrap();
    let err = select_asset(&assets, &pattern);
    assert!(matches!(
        err,
        Err(AppError::NoMatch{pattern:p, available:a})
            if p == "windows" && a.contains("gh_2.40.1_linux_amd64.tar.gz") && a.contains("gh_2.40.1_darwin_amd64.tar.gz")
    ));
}

#[test]
fn test_multiple_matching_assets() {
    let assets = vec![
        make_asset("gh_2.40.1_linux_amd64.tar.gz"),
        make_asset("gh_2.40.1_linux_arm64.tar.gz"),
        make_asset("gh_2.40.1_darwin_amd64.tar.gz"),
    ];
    let pattern = AssetPattern::new("linux").unwrap();
    let err = select_asset(&assets, &pattern);
    assert!(matches!(
        err,
        Err(AppError::MultipleMatches{pattern:p, matched:m})
            if p == "linux" && m.contains("gh_2.40.1_linux_amd64.tar.gz") && m.contains("gh_2.40.1_linux_arm64.tar.gz") && !m.contains("darwin")
    ));
}

#[test]
fn test_single_matching_asset() {
    let assets = vec![
        make_asset("gh_2.40.1_linux_amd64.tar.gz"),
        make_asset("gh_2.40.1_darwin_amd64.tar.gz"),
    ];
    let pattern = AssetPattern::new(r"linux_amd64").unwrap();
    let asset = select_asset(&assets, &pattern).unwrap();
    assert_eq!(asset.name, "gh_2.40.1_linux_amd64.tar.gz");
}

#[test]
fn test_standard_url() {
    let url = UrlParts::parse("https://github.com/owner/repo").unwrap();
    assert!(to_api_url(&url).is_ok());
    assert_eq!(
        to_api_url(&url).unwrap().serialized,
        "https://api.github.com/repos/owner/repo/releases/latest"
    );
}

#[test]
fn test_trailing_slash_url() {
    let url = UrlParts::parse("https://github.com/owner/repo/").unwrap();
    assert!(to_api_url(&url).is_ok());
    assert_eq!(
        to_api_url(&url).unwrap().serialized,
        "https://api.github.com/repos/owner/repo/releases/latest"
    );
}

#[test]
fn test_non_github_domain() {
    let url = UrlParts::parse("https://gitlab.com/owner/repo").unwrap();
    assert!(matches!(to_api_url(&url), Err(AppError::InvalidHost(h)) if h == "gitlab.com"));
}

#[test]
fn test_missing_repo_segment() {
    let url = UrlParts::parse("https://github.com/owner").unwrap();
    assert!(matches!(to_api_url(&url), Err(AppError::InvalidPath(p)) if p == "/owner"));
}

#[test]
fn listing_separator_and_order() {
    let assets = vec![make_asset("b"), make_asset("a")];
    let pattern = AssetPattern::new("^z$").unwrap();
    match select_asset(&assets, &pattern) {
        Err(AppError::NoMatch { available, .. }) => assert_eq!(available, "b\n  a"),
        other => panic!("unexpected {:?}", other),
    }
    let pattern = AssetPattern::new("^[ab]$").unwrap();
    match select_asset(&assets, &pattern) {
        Err(AppError::MultipleMatches { matched, .. }) => assert_eq!(matched, "b\n  a"),
        other => panic!("unexpected {:?}", other),
    }
}

#[test]
fn invalid_pattern_is_refused() {
    assert!(AssetPattern::new("foo(bar").is_err());
    assert_eq!(AssetPattern::new("a.b").unwrap().as_str(), "a.b");
}

#[test]
fn url_parse_normalizes() {
    let u = UrlParts::parse("HTTPS://GitHub.COM/Owner/Repo").unwrap();
    assert_eq!(u.host.as_deref(), Some("github.com"));
    assert_eq!(u.path, "/Owner/Repo");
    assert_eq!(u.serialized, "https://github.com/Owner/Repo");
    assert!(UrlParts::parse("not a url").is_err());
}

#[test]
fn api_url_from_segments_with_empty_pieces() {
    let url = UrlParts::parse("https://github.com//owner//repo/extra").unwrap();
    assert_eq!(
        to_api_url(&url).unwrap().serialized,
        "https://api.github.com/repos/owner/repo/releases/latest"
    );
    let url = UrlParts::parse("https://github.com/").unwrap();
    assert!(matches!(to_api_url(&url), Err(AppError::InvalidPath(p)) if p == "/"));
}

#[test]
fn path_segments_drop_empty_pieces() {
    assert_eq!(url_path_segments("/a//b/"), vec!["a".to_string(), "b".to_string()]);
    assert!(url_path_segments("a/b").is_empty());
    assert!(url_path_segments("/").is_empty());
}

#[test]
fn tag_prefix_removed_once_when_present() {
    assert_eq!(strip_tag_prefix("v1.2.3", Some("v")), "1.2.3");
    assert_eq!(strip_tag_prefix("vv1", Some("v")), "v1");
    assert_eq!(strip_tag_prefix("1.2.3", Some("v")), "1.2.3");
    assert_eq!(strip_tag_prefix("V1.0", Some("v")), "V1.0");
    assert_eq!(strip_tag_prefix("v1.0", None), "v1.0");
}
