//! A crate that lies in a directory on this machine.

use vstd::prelude::*;
use crate::copier::TreeCopier;
use crate::error::CopyError;
use crate::path::{normalize_path, normalized};

verus! {

/// The words before the path in the description of a local crate.
pub const DESCRIPTION_PREFIX: &'static str = "local crate at ";

/// Whether `r` is what starting a copy from `src` to `dest` gives, with
/// relative paths taken from `cwd`: a copier between the normal forms of the
/// two, or an input failure that names the first of them without one.
pub open spec fn starts_copy(
    src: Seq<char>,
    dest: Seq<char>,
    cwd: Seq<char>,
    r: Result<TreeCopier, CopyError>,
) -> bool {
    match r {
        Ok(copier) => {
            &&& normalized(src, cwd) == Some(copier.spec_source())
            &&& normalized(dest, cwd) == Some(copier.spec_destination())
        },
        Err(error) => {
            &&& error is Input
            &&& error.spec_path() == if normalized(src, cwd).is_none() {
                src
            } else {
                dest
            }
            &&& normalized(src, cwd).is_none() || normalized(dest, cwd).is_none()
        },
    }
}

/// Starts a copy of the tree below `src` into `dest`: brings both roots into
/// normal form, relative ones taken from the working directory `cwd`, and
/// returns the copier that decides what to do for each entry of the walk.
pub fn copy_dir(src: &str, dest: &str, cwd: &str) -> (r: Result<TreeCopier, CopyError>)
    ensures
        starts_copy(src@, dest@, cwd@, r),
{
    let src = match normalize_path(src, cwd) {
        Ok(p) => p,
        Err(e) => {
            return Err(e);
        },
    };
    let dest = match normalize_path(dest, cwd) {
        Ok(p) => p,
        Err(e) => {
            return Err(e);
        },
    };
    Ok(TreeCopier::new(src, dest))
}

/// What every source of crates can do.
pub trait CrateSource {
    /// Brings the crate to this machine.
    fn fetch(&self) -> Result<(), CopyError>;

    /// Removes what `fetch` has stored of the crate.
    fn purge_from_cache(&self) -> Result<(), CopyError>;

    /// Starts a copy of the crate's source into `dest`.
    fn copy_source_to(&self, dest: &str, cwd: &str) -> Result<TreeCopier, CopyError>;
}

/// A crate in a directory on this machine.
#[derive(Debug, Clone, PartialEq, Eq)]
pub struct Local {
    path: String,
}

impl Local {
    /// The directory of the crate, as it was given.
    pub closed spec fn spec_path(&self) -> Seq<char> {
        self.path@
    }

    /// The crate in the directory `path`.
    pub fn new(path: &str) -> (local: Self)
        ensures
            local.spec_path() == path@,
    {
        Local { path: path.to_owned() }
    }

    /// The directory of the crate, as it was given.
    pub fn path(&self) -> (p: &str)
        ensures
            p@ == self.spec_path(),
    {
        self.path.as_str()
    }

    /// The crate in words, for diagnostics.
    pub fn describe(&self) -> (text: String)
        ensures
            text@ == DESCRIPTION_PREFIX@ + self.spec_path(),
    {
        let mut text = DESCRIPTION_PREFIX.to_owned();
        text.append(self.path.as_str());
        text
    }
}

impl CrateSource for Local {
    /// Nothing is to be brought: the crate is here already.
    fn fetch(&self) -> (r: Result<(), CopyError>)
        ensures
            r is Ok,
    {
        Ok(())
    }

    /// Nothing is to be removed: nothing was stored.
    fn purge_from_cache(&self) -> (r: Result<(), CopyError>)
        ensures
            r is Ok,
    {
        Ok(())
    }

    /// Starts a copy of the crate's directory into `dest`.
    fn copy_source_to(&self, dest: &str, cwd: &str) -> (r: Result<TreeCopier, CopyError>)
        ensures
            starts_copy(self.spec_path(), dest@, cwd@, r),
    {
        copy_dir(self.path.as_str(), dest, cwd)
    }
}

} // verus!
