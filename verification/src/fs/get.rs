//! Retrieving blobs from files, and checking for them, step by step.
//!
//! The key is validated before anything is touched. Then the root directory is
//! looked at, and then what is at the path of the blob.

use vstd::prelude::*;

use crate::error;
use crate::error::BlobStorageError;
use crate::error::ErrorView;
use crate::error::IoErrorKind;
use crate::error::IoFailure;
use crate::error::Result;
use crate::fs;
use crate::fs::check_root;
use crate::fs::meta_of_stat;
use crate::fs::storage_error;
use crate::fs::FileStat;
use crate::fs::FsBlobStore;
use crate::types;
use crate::types::BlobMeta;

verus! {

/// Resumes a retrieval or a check once the root directory has been looked at.
pub struct AwaitRoot {
    pub root: String,
    pub path: String,
    pub key: String,
}

/// Resumes a retrieval or a check once the path of the blob has been looked at.
pub struct AwaitLook {
    pub key: String,
}

/// The next step of a retrieval or a check.
#[allow(inconsistent_fields)]
pub enum ReadStep {
    /// Look at the root directory.
    CheckRoot { then: AwaitRoot },
    /// Look at what is at the path.
    Look { path: String, then: AwaitLook },
    /// The operation failed.
    Done(BlobStorageError),
}

/// The mathematical value of a [`ReadStep`].
pub enum ReadStepView {
    CheckRoot { root: Seq<char>, path: Seq<char>, key: Seq<char> },
    Look { path: Seq<char>, key: Seq<char> },
    Done(ErrorView),
}

impl View for ReadStep {
    type V = ReadStepView;

    open spec fn view(&self) -> ReadStepView {
        match self {
            ReadStep::CheckRoot { then } => ReadStepView::CheckRoot {
                root: then.root@,
                path: then.path@,
                key: then.key@,
            },
            ReadStep::Look { path, then } => ReadStepView::Look { path: path@, key: then.key@ },
            ReadStep::Done(e) => ReadStepView::Done(e@),
        }
    }
}

/// What a retrieval or a check does first.
pub open spec fn begin(root: Seq<char>, key: Seq<char>) -> ReadStepView {
    match fs::path_of(root, key) {
        Err(e) => ReadStepView::Done(e),
        Ok(path) => ReadStepView::CheckRoot { root, path, key },
    }
}

/// What a retrieval or a check does when the root directory has been looked at.
pub open spec fn after_root(
    root: Seq<char>,
    path: Seq<char>,
    key: Seq<char>,
    reply: core::result::Result<bool, IoFailure>,
) -> ReadStepView {
    match fs::root_check(root, reply) {
        Err(e) => ReadStepView::Done(e),
        Ok(()) => ReadStepView::Look { path, key },
    }
}

impl FsBlobStore {
    /// Begin a retrieval of a blob, or a check for it.
    pub fn get(&self, key: &str) -> (r: ReadStep)
        ensures
            r@ == begin(self.root(), key@),
    {
        match self.key_to_path(key) {
            Err(e) => ReadStep::Done(e),
            Ok(path) => ReadStep::CheckRoot {
                then: AwaitRoot { root: self.root_path().to_owned(), path, key: key.to_owned() },
            },
        }
    }
}

impl AwaitRoot {
    /// Go on with what the system told of the root directory: whether it is a
    /// directory.
    pub fn checked(self, reply: core::result::Result<bool, IoFailure>) -> (r: ReadStep)
        ensures
            r@ == after_root(self.root@, self.path@, self.key@, reply),
    {
        match check_root(self.root.as_str(), reply) {
            Err(e) => ReadStep::Done(e),
            Ok(()) => ReadStep::Look { path: self.path, then: AwaitLook { key: self.key } },
        }
    }
}

impl AwaitLook {
    /// Whether there is a blob, from what the system told of its path. A directory
    /// is no blob, nor is what cannot be looked at.
    pub fn blob_exists(self, reply: core::result::Result<FileStat, IoFailure>) -> (r: bool)
        ensures
            r == fs::holds_blob(reply),
    {
        match reply {
            Ok(stat) => stat.is_file,
            Err(_) => false,
        }
    }

    /// Whether the file of the blob can be opened, from what the system told of
    /// its path.
    pub fn found(self, reply: core::result::Result<FileStat, IoFailure>) -> (r: Result<()>)
        ensures
            error::result_view(r) == fs::retrieval(self.key@, fs::holds_blob(reply)),
    {
        match reply {
            Ok(stat) => if stat.is_file {
                Ok(())
            } else {
                Err(BlobStorageError::NotFound(self.key))
            },
            Err(_) => Err(BlobStorageError::NotFound(self.key)),
        }
    }

    /// The metadata of the blob, from what the system told of its path.
    pub fn file_meta(self, reply: core::result::Result<FileStat, IoFailure>) -> (r: Result<
        BlobMeta,
    >)
        ensures
            types::meta_result_view(r) == fs::file_check(self.key@, reply),
    {
        match reply {
            Ok(stat) => if stat.is_file {
                Ok(meta_of_stat(self.key.as_str(), stat))
            } else {
                Err(BlobStorageError::NotFound(self.key))
            },
            Err(failure) => if failure.kind == IoErrorKind::NotFound {
                Err(BlobStorageError::NotFound(self.key))
            } else {
                Err(storage_error("stat failed for '", self.key.as_str(), "'", failure))
            },
        }
    }
}

} // verus!
