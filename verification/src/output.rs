//! Where a downloaded asset is saved.
use vstd::prelude::*;
use vstd::string::*;
use crate::destination::{default_dir, dir_or_default, opt_view, path_is_dir};
use crate::error::AppError;
use crate::path::{join_path, path_join};

verus! {

/// The save path once the file system has said whether `output` is an
/// existing directory: `output` verbatim unless it is one (an error), else
/// `asset_name` inside `dir` (default `.`).
pub open spec fn output_path_result(
    asset_name: Seq<char>,
    dir: Option<Seq<char>>,
    output: Option<Seq<char>>,
    output_is_dir: bool,
    r: Result<String, AppError>,
) -> bool {
    match output {
        Some(o) => if output_is_dir {
            r matches Err(AppError::OutputIsDir(q)) && q@ == o
        } else {
            r matches Ok(p) && p@ == o
        },
        None => {
            let base = match dir {
                Some(d) => d,
                None => default_dir(),
            };
            r matches Ok(p) && p@ == path_join(base, asset_name)
        },
    }
}

/// The path at which to save the asset `asset_name`: `output` if given (it must
/// not be an existing directory), else `asset_name` inside `dir`, or inside
/// the current directory.
pub fn resolve_output_path(asset_name: &str, dir: Option<&str>, output: Option<&str>) -> (r: Result<
    String,
    AppError,
>)
    ensures
        exists|d: bool| output_path_result(asset_name@, opt_view(dir), opt_view(output), d, r),
        output is None ==> output_path_result(
            asset_name@,
            opt_view(dir),
            opt_view(output),
            false,
            r,
        ),
        output matches Some(o) ==> match r {
            Ok(p) => p@ == o@,
            Err(e) => e matches AppError::OutputIsDir(q) && q@ == o@,
        },
        output is None ==> (r matches Ok(p) && p@ == path_join(dir_or_default(opt_view(dir)), asset_name@)),
{
    let d = match output {
        Some(o) => path_is_dir(o),
        None => false,
    };
    output_path_from_check(asset_name, dir, output, d)
}

/// `resolve_output_path` once the file system has said whether `output` is an
/// existing directory.
pub fn output_path_from_check(
    asset_name: &str,
    dir: Option<&str>,
    output: Option<&str>,
    output_is_dir: bool,
) -> (r: Result<String, AppError>)
    ensures
        output_path_result(asset_name@, opt_view(dir), opt_view(output), output_is_dir, r),
        output matches Some(o) ==> if output_is_dir {
            r matches Err(AppError::OutputIsDir(q)) && q@ == o@
        } else {
            r matches Ok(p) && p@ == o@
        },
        output is None ==> (r matches Ok(p) && p@ == path_join(dir_or_default(opt_view(dir)), asset_name@)),
{
    match output {
        Some(o) => {
            if output_is_dir {
                Err(AppError::OutputIsDir(String::from_str(o)))
            } else {
                Ok(String::from_str(o))
            }
        },
        None => {
            let base = match dir {
                Some(d) => d,
                None => ".",
            };
            Ok(join_path(base, asset_name))
        },
    }
}

} // verus!
