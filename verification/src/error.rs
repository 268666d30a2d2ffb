//! Everything that can go wrong while finding, fetching, saving or unpacking a
//! release asset.
use vstd::prelude::*;
use vstd::string::*;

verus! {

/// The errors of the downloader. Where a failure comes from the operating
/// system, `source` holds that failure's own message.
#[derive(Debug)]
pub enum AppError {
    InvalidHost(String),
    InvalidPath(String),
    UrlConstruct(String),
    ApiRequest(String),
    JsonParse(String),
    NoMatch { pattern: String, available: String },
    MultipleMatches { pattern: String, matched: String },
    OutputIsDir(String),
    DirIsFile(String),
    CreateDir { path: String, source: String },
    CreateFile { path: String, source: String },
    WriteFile { path: String, source: String },
    Download(String),
    UnsupportedFormat(String),
    SymlinkEntry(String),
    EntryNotFound(String, String),
    ArchiveRead(String),
    ArchiveExtract(String),
    SetPermissions { path: String, source: String },
    ExecutableTargetIsDir(String),
}

/// The text shown to the user for `e`.
pub open spec fn error_message(e: AppError) -> Seq<char> {
    match e {
        AppError::InvalidHost(h) => "Invalid URL: host must be github.com, got "@ + h@,
        AppError::InvalidPath(p) => "Invalid URL: expected owner/repo path, got "@ + p@,
        AppError::UrlConstruct(m) => "Internal error: failed to construct API URL: "@ + m@,
        AppError::ApiRequest(m) => "API request failed: "@ + m@,
        AppError::JsonParse(m) => "Failed to parse release JSON: "@ + m@,
        AppError::NoMatch { pattern, available } => "No assets matched pattern '"@ + pattern@
            + "'. Available assets:\n  "@ + available@,
        AppError::MultipleMatches { pattern, matched } => "Pattern '"@ + pattern@
            + "' matched multiple assets \u{2014} refine your pattern:\n  "@ + matched@,
        AppError::OutputIsDir(p) => "--output path '"@ + p@
            + "' is an existing directory; use --dir to save into a directory"@,
        AppError::DirIsFile(p) => "--dir path '"@ + p@ + "' is an existing file; it must be a directory"@,
        AppError::CreateDir { path, source } => "Failed to create directory '"@ + path@ + "': "@
            + source@,
        AppError::CreateFile { path, source } => "Failed to create file '"@ + path@ + "': "@
            + source@,
        AppError::WriteFile { path, source } => "Failed to write '"@ + path@ + "': "@ + source@,
        AppError::Download(m) => "Download failed: "@ + m@,
        AppError::UnsupportedFormat(n) =>
            "--extract requires a supported archive format (.tar.gz or .tgz), but '"@ + n@
            + "' is not supported"@,
        AppError::SymlinkEntry(n) => "Entry '"@ + n@
            + "' is a symlink; symlink extraction is not supported"@,
        AppError::EntryNotFound(n, top) => "Entry '"@ + n@
            + "' not found in archive. Top-level entries:\n  "@ + top@,
        AppError::ArchiveRead(m) => "Failed to read archive: "@ + m@,
        AppError::ArchiveExtract(m) => "Failed to extract archive: "@ + m@,
        AppError::SetPermissions { path, source } => "Asset written to '"@ + path@
            + "' but could not set executable bit: "@ + source@,
        AppError::ExecutableTargetIsDir(p) => "--executable requires a file target, but '"@ + p@
            + "' is a directory"@,
    }
}

fn cat2(a: &str, b: &str) -> (r: String)
    ensures
        r@ == a@ + b@,
{
    let mut r = String::from_str(a);
    r.append(b);
    r
}

fn cat3(a: &str, b: &str, c: &str) -> (r: String)
    ensures
        r@ == a@ + b@ + c@,
{
    let mut r = String::from_str(a);
    r.append(b);
    r.append(c);
    r
}

fn cat4(a: &str, b: &str, c: &str, d: &str) -> (r: String)
    ensures
        r@ == a@ + b@ + c@ + d@,
{
    let mut r = String::from_str(a);
    r.append(b);
    r.append(c);
    r.append(d);
    r
}

impl AppError {
    /// The text shown to the user for this error.
    pub fn message(&self) -> (r: String)
        ensures
            r@ == error_message(*self),
    {
        match self {
            AppError::InvalidHost(h) => cat2("Invalid URL: host must be github.com, got ", h),
            AppError::InvalidPath(p) => cat2("Invalid URL: expected owner/repo path, got ", p),
            AppError::UrlConstruct(m) => cat2("Internal error: failed to construct API URL: ", m),
            AppError::ApiRequest(m) => cat2("API request failed: ", m),
            AppError::JsonParse(m) => cat2("Failed to parse release JSON: ", m),
            AppError::NoMatch { pattern, available } => cat4(
                "No assets matched pattern '",
                pattern,
                "'. Available assets:\n  ",
                available,
            ),
            AppError::MultipleMatches { pattern, matched } => cat4(
                "Pattern '",
                pattern,
                "' matched multiple assets \u{2014} refine your pattern:\n  ",
                matched,
            ),
            AppError::OutputIsDir(p) => cat3(
                "--output path '",
                p,
                "' is an existing directory; use --dir to save into a directory",
            ),
            AppError::DirIsFile(p) => cat3(
                "--dir path '",
                p,
                "' is an existing file; it must be a directory",
            ),
            AppError::CreateDir { path, source } => cat4(
                "Failed to create directory '",
                path,
                "': ",
                source,
            ),
            AppError::CreateFile { path, source } => cat4(
                "Failed to create file '",
                path,
                "': ",
                source,
            ),
            AppError::WriteFile { path, source } => cat4("Failed to write '", path, "': ", source),
            AppError::Download(m) => cat2("Download failed: ", m),
            AppError::UnsupportedFormat(n) => cat3(
                "--extract requires a supported archive format (.tar.gz or .tgz), but '",
                n,
                "' is not supported",
            ),
            AppError::SymlinkEntry(n) => cat3(
                "Entry '",
                n,
                "' is a symlink; symlink extraction is not supported",
            ),
            AppError::EntryNotFound(n, top) => cat4(
                "Entry '",
                n,
                "' not found in archive. Top-level entries:\n  ",
                top,
            ),
            AppError::ArchiveRead(m) => cat2("Failed to read archive: ", m),
            AppError::ArchiveExtract(m) => cat2("Failed to extract archive: ", m),
            AppError::SetPermissions { path, source } => cat4(
                "Asset written to '",
                path,
                "' but could not set executable bit: ",
                source,
            ),
            AppError::ExecutableTargetIsDir(p) => cat3(
                "--executable requires a file target, but '",
                p,
                "' is a directory",
            ),
        }
    }
}

} // verus!
