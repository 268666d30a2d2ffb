//! Where an extracted or downloaded result lands.
use vstd::prelude::*;
use vstd::string::*;
use crate::error::AppError;
use crate::path::{file_name_of, join_path, lemma_join_then_file_name, path_join};

verus! {

/// Where the result should land.
///
/// - `Into(dir)`: the naturally named result goes *into* this directory (a
///   whole archive unpacks directly into `dir`; a single entry lands at
///   `dir/basename(entry)`).
/// - `Exact(path)`: this path is used verbatim (the result is renamed). It is
///   meant for a single entry; a whole archive cannot land at an exact path.
#[derive(Debug)]
pub enum Destination {
    Into(String),
    Exact(String),
}

/// Whether `p` names an existing directory.
///
/// Trusted: calls `std::path::Path::is_dir`, which asks the file system; the
/// answer depends on what is on disk, so nothing is claimed of it.
#[verifier::external_body]
pub(crate) fn path_is_dir(p: &str) -> bool {
    std::path::Path::new(p).is_dir()
}

/// Whether `p` names an existing regular file.
///
/// Trusted: calls `std::path::Path::is_file`, which asks the file system; the
/// answer depends on what is on disk, so nothing is claimed of it.
#[verifier::external_body]
pub(crate) fn path_is_file(p: &str) -> bool {
    std::path::Path::new(p).is_file()
}

/// The directory used when none is given: the current one.
pub open spec fn default_dir() -> Seq<char> {
    "."@
}

/// What `resolve` gives once the file system has answered: `exact_is_dir`
/// tells whether `exact` is an existing directory, `into_is_file` whether the
/// directory path (`into`, or `.`) is an existing file; only the answer for the
/// path in use matters.
pub open spec fn resolved(
    into: Option<Seq<char>>,
    exact: Option<Seq<char>>,
    exact_is_dir: bool,
    into_is_file: bool,
    r: Result<Destination, AppError>,
) -> bool {
    match exact {
        Some(p) => if exact_is_dir {
            r matches Err(AppError::OutputIsDir(q)) && q@ == p
        } else {
            r matches Ok(Destination::Exact(q)) && q@ == p
        },
        None => {
            let base = match into {
                Some(d) => d,
                None => default_dir(),
            };
            if into_is_file {
                r matches Err(AppError::DirIsFile(q)) && q@ == base
            } else {
                r matches Ok(Destination::Into(q)) && q@ == base
            }
        },
    }
}

/// The directory given, or the current one `.` when none is.
pub open spec fn dir_or_default(into: Option<Seq<char>>) -> Seq<char> {
    match into {
        Some(d) => d,
        None => "."@,
    }
}

/// The view of an optional text.
pub open spec fn opt_view(o: Option<&str>) -> Option<Seq<char>> {
    match o {
        Some(s) => Some(s@),
        None => None,
    }
}

impl Destination {
    /// Resolves a `Destination` from two optional paths: `exact` takes
    /// precedence; otherwise `into`, defaulting to `.`. `exact` must not be an
    /// existing directory, and the directory must not be an existing file.
    pub fn resolve(into: Option<&str>, exact: Option<&str>) -> (r: Result<Self, AppError>)
        ensures
            exists|d: bool, f: bool| resolved(opt_view(into), opt_view(exact), d, f, r),
            exact matches Some(p) ==> match r {
                Ok(d) => d matches Destination::Exact(q) && q@ == p@,
                Err(e) => e matches AppError::OutputIsDir(q) && q@ == p@,
            },
            exact is None ==> match r {
                Ok(d) => d matches Destination::Into(q) && q@ == dir_or_default(opt_view(into)),
                Err(e) => e matches AppError::DirIsFile(q) && q@ == dir_or_default(opt_view(into)),
            },
    {
        match exact {
            Some(p) => {
                let d = path_is_dir(p);
                Self::from_checks(into, exact, d, false)
            },
            None => {
                let f = match into {
                    Some(dir) => path_is_file(dir),
                    None => path_is_file("."),
                };
                Self::from_checks(into, exact, false, f)
            },
        }
    }

    /// `resolve` once the file system has answered whether `exact` is a
    /// directory and whether the directory path is a file.
    pub fn from_checks(
        into: Option<&str>,
        exact: Option<&str>,
        exact_is_dir: bool,
        into_is_file: bool,
    ) -> (r: Result<Self, AppError>)
        ensures
            resolved(opt_view(into), opt_view(exact), exact_is_dir, into_is_file, r),
            exact matches Some(p) ==> if exact_is_dir {
                r matches Err(AppError::OutputIsDir(q)) && q@ == p@
            } else {
                r matches Ok(Destination::Exact(q)) && q@ == p@
            },
            exact is None ==> if into_is_file {
                r matches Err(AppError::DirIsFile(q)) && q@ == dir_or_default(opt_view(into))
            } else {
                r matches Ok(Destination::Into(q)) && q@ == dir_or_default(opt_view(into))
            },
    {
        match exact {
            Some(p) => {
                if exact_is_dir {
                    Err(AppError::OutputIsDir(String::from_str(p)))
                } else {
                    Ok(Destination::Exact(String::from_str(p)))
                }
            },
            None => {
                let base = match into {
                    Some(d) => String::from_str(d),
                    None => String::from_str("."),
                };
                if into_is_file {
                    Err(AppError::DirIsFile(base))
                } else {
                    Ok(Destination::Into(base))
                }
            },
        }
    }
}

/// Where a downloaded asset named `asset_name` is saved: inside the directory
/// of an `Into` destination under its own name, or at an `Exact` path verbatim.
pub open spec fn download_path_of(asset_name: Seq<char>, dest: Destination) -> Seq<char> {
    match dest {
        Destination::Into(d) => path_join(d@, asset_name),
        Destination::Exact(p) => p@,
    }
}

/// The path at which a downloaded asset named `asset_name` is saved.
pub fn download_path(asset_name: &str, dest: &Destination) -> (r: String)
    ensures
        r@ == download_path_of(asset_name@, *dest),
        dest matches Destination::Exact(p) ==> r@ == p@,
        dest matches Destination::Into(d) ==> r@ == path_join(d@, asset_name@),
        dest is Into && asset_name@.len() > 0 && (forall|i: int|
            0 <= i < asset_name@.len() ==> asset_name@[i] != '/') && asset_name@ != seq!['.']
            && asset_name@ != seq!['.', '.'] ==> file_name_of(r@) == Some(asset_name@),
{
    if let Destination::Into(d) = dest {
        if asset_name.unicode_len() > 0 {
            proof {
                if (forall|i: int| 0 <= i < asset_name@.len() ==> asset_name@[i] != '/')
                    && asset_name@ != seq!['.'] && asset_name@ != seq!['.', '.'] {
                    lemma_join_then_file_name(d@, asset_name@);
                }
            }
        }
    }
    match dest {
        Destination::Into(d) => join_path(d.as_str(), asset_name),
        Destination::Exact(p) => p.clone(),
    }
}

} // verus!
