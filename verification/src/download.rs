//! The rules of the `download` command that argument parsing cannot express.
use vstd::prelude::*;
use vstd::string::*;
use crate::archive::{detect_format, format_of, lemma_format_by_suffix, ArchiveFormat};
use crate::text::has_suffix;
use crate::destination::{resolved, Destination};
use crate::error::AppError;

verus! {

/// A combination of `download` options that is refused after parsing.
#[derive(Debug, Clone, Copy, PartialEq, Eq, Structural)]
pub enum FlagConflict {
    /// `--output` while a whole archive is extracted: that makes a directory
    /// of files, not one path to rename.
    OutputWithWholeArchive,
    /// `--executable` while a whole archive is extracted.
    ExecutableWithWholeArchive,
}

impl FlagConflict {
    /// The text shown to the user.
    pub fn message(&self) -> (r: String)
        ensures
            r@ == match *self {
                FlagConflict::OutputWithWholeArchive =>
                    "--output cannot be used when extracting a whole archive; use --dir instead"@,
                FlagConflict::ExecutableWithWholeArchive =>
                    "--executable cannot be used with whole-archive extraction; use --archive-entry to select a single entry"@,
            },
    {
        match self {
            FlagConflict::OutputWithWholeArchive => String::from_str(
                "--output cannot be used when extracting a whole archive; use --dir instead",
            ),
            FlagConflict::ExecutableWithWholeArchive => String::from_str(
                "--executable cannot be used with whole-archive extraction; use --archive-entry to select a single entry",
            ),
        }
    }
}

/// The verdict on the `download` options: extracting a whole archive (no
/// `--archive-entry`) refuses `--output`, and then `--executable`.
pub open spec fn flags_verdict(
    extract: bool,
    has_archive_entry: bool,
    has_output: bool,
    executable: bool,
) -> Result<(), FlagConflict> {
    if extract && !has_archive_entry && has_output {
        Err(FlagConflict::OutputWithWholeArchive)
    } else if executable && extract && !has_archive_entry {
        Err(FlagConflict::ExecutableWithWholeArchive)
    } else {
        Ok(())
    }
}

/// Checks the `download` options against the rules that parsing cannot
/// express.
pub fn check_download_flags(
    extract: bool,
    archive_entry: Option<&str>,
    output: Option<&str>,
    executable: bool,
) -> (r: Result<(), FlagConflict>)
    ensures
        r == flags_verdict(extract, archive_entry is Some, output is Some, executable),
        !extract ==> r is Ok,
        archive_entry is Some ==> r is Ok,
        r == Err::<(), FlagConflict>(FlagConflict::OutputWithWholeArchive) <==> (extract
            && archive_entry is None && output is Some),
        r == Err::<(), FlagConflict>(FlagConflict::ExecutableWithWholeArchive) <==> (extract
            && archive_entry is None && output is None && executable),
{
    if extract && archive_entry.is_none() && output.is_some() {
        return Err(FlagConflict::OutputWithWholeArchive);
    }
    if executable && extract && archive_entry.is_none() {
        return Err(FlagConflict::ExecutableWithWholeArchive);
    }
    Ok(())
}

/// The archive format of the asset to extract; an asset of no supported
/// format cannot be extracted.
pub fn check_extractable(asset_name: &str) -> (r: Result<ArchiveFormat, AppError>)
    ensures
        match format_of(asset_name@) {
            Some(f) => r == Ok::<ArchiveFormat, AppError>(f),
            None => r matches Err(AppError::UnsupportedFormat(n)) && n@ == asset_name@,
        },
        (r == Ok::<ArchiveFormat, AppError>(ArchiveFormat::TarGz)) <==> (has_suffix(
            asset_name@,
            ".tar.gz"@,
        ) || has_suffix(asset_name@, ".tgz"@)),
        (r == Ok::<ArchiveFormat, AppError>(ArchiveFormat::Zip)) <==> (!has_suffix(
            asset_name@,
            ".tar.gz"@,
        ) && !has_suffix(asset_name@, ".tgz"@) && has_suffix(asset_name@, ".zip"@)),
        r is Err <==> (!has_suffix(asset_name@, ".tar.gz"@) && !has_suffix(asset_name@, ".tgz"@)
            && !has_suffix(asset_name@, ".zip"@)),
        r matches Err(e) ==> (e matches AppError::UnsupportedFormat(n) && n@ == asset_name@),
{
    proof {
        lemma_format_by_suffix(asset_name@);
    }
    match detect_format(asset_name) {
        Some(f) => Ok(f),
        None => Err(AppError::UnsupportedFormat(String::from_str(asset_name))),
    }
}

/// `--executable` needs a file: an extracted result that is a directory is
/// refused.
pub fn check_executable_target(executable: bool, landing: &str, landing_is_dir: bool) -> (r: Result<
    (),
    AppError,
>)
    ensures
        executable && landing_is_dir ==> (r matches Err(AppError::ExecutableTargetIsDir(p)) && p@
            == landing@),
        !(executable && landing_is_dir) ==> r is Ok,
{
    if executable && landing_is_dir {
        Err(AppError::ExecutableTargetIsDir(String::from_str(landing)))
    } else {
        Ok(())
    }
}

/// Options that pass `check_download_flags` never ask to extract a whole
/// archive to an exact path: whatever the file system answers, the
/// destination that `Destination::resolve` accepts for them is a directory,
/// as whole-archive extraction requires.
pub proof fn lemma_accepted_whole_archive_lands_in_dir(
    into: Option<Seq<char>>,
    output: Option<Seq<char>>,
    executable: bool,
    exact_is_dir: bool,
    into_is_file: bool,
    r: Result<Destination, AppError>,
)
    requires
        flags_verdict(true, false, output is Some, executable) is Ok,
        resolved(into, output, exact_is_dir, into_is_file, r),
        r is Ok,
    ensures
        r matches Ok(Destination::Into(_)),
{
}

/// The only refused combinations are those of whole-archive extraction
/// (`--extract` without `--archive-entry`): with `--output`, and otherwise
/// with `--executable`. A plain download, or the extraction of one entry,
/// accepts every combination.
pub proof fn lemma_flag_conflicts(
    extract: bool,
    has_archive_entry: bool,
    has_output: bool,
    executable: bool,
)
    ensures
        !extract ==> flags_verdict(extract, has_archive_entry, has_output, executable) is Ok,
        has_archive_entry ==> flags_verdict(extract, has_archive_entry, has_output, executable) is Ok,
        flags_verdict(extract, has_archive_entry, has_output, executable) == Err::<
            (),
            FlagConflict,
        >(FlagConflict::OutputWithWholeArchive) <==> (extract && !has_archive_entry && has_output),
        flags_verdict(extract, has_archive_entry, has_output, executable) == Err::<
            (),
            FlagConflict,
        >(FlagConflict::ExecutableWithWholeArchive) <==> (extract && !has_archive_entry
            && !has_output && executable),
        extract && !has_archive_entry && !has_output && !executable ==> flags_verdict(
            extract,
            has_archive_entry,
            has_output,
            executable,
        ) is Ok,
{
}

} // verus!
