//! The place of the log in the file system.

use std::path::PathBuf;
use vstd::prelude::*;

verus! {

/// `std::path::PathBuf`, an owned path. Nothing inside it is visible.
#[verifier::external_type_specification]
#[verifier::external_body]
pub struct ExPathBuf(PathBuf);

/// The file that holds the log. It is opened anew for every operation.
pub struct WorkingFile {
    path: PathBuf,
}

impl WorkingFile {
    /// The path that the file was made with.
    pub closed spec fn spec_path(&self) -> PathBuf {
        self.path
    }

    /// Names the file at `path` as the one that holds the log.
    pub fn new(path: PathBuf) -> (file: Self)
        ensures
            file.spec_path() == path,
    {
        Self { path }
    }

    /// The path of the file.
    pub fn path(&self) -> (path: &PathBuf)
        ensures
            *path == self.spec_path(),
    {
        &self.path
    }
}

} // verus!
