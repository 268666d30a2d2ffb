//! Finding, fetching and unpacking the latest release asset of a GitHub
//! repository: the rules of the downloader, with their proofs.
pub mod archive;
pub mod destination;
pub mod download;
pub mod error;
pub mod github;
pub mod output;
pub mod path;
pub mod plan;
pub mod text;
