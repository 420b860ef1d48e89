//! The failures a copy can end with.

use vstd::prelude::*;

verus! {

/// Why a copy was given up. Each failure names the path it concerns.
#[derive(Debug, Clone, PartialEq, Eq)]
pub enum CopyError {
    /// A path could not be resolved to an absolute form.
    Input { path: String },
    /// An entry of the source tree could not be read while walking it.
    Traversal { path: String },
}

impl CopyError {
    /// The path that the failure concerns.
    pub open spec fn spec_path(&self) -> Seq<char> {
        match self {
            CopyError::Input { path } => path@,
            CopyError::Traversal { path } => path@,
        }
    }

    /// The path that the failure concerns.
    pub fn path(&self) -> (p: &str)
        ensures
            p@ == self.spec_path(),
    {
        match self {
            CopyError::Input { path } => path.as_str(),
            CopyError::Traversal { path } => path.as_str(),
        }
    }
}

} // verus!
