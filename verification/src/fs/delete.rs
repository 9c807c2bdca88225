//! Deleting files, step by step.
//!
//! All keys are validated before anything is touched. A file that is gone
//! already counts as deleted; other failures are collected.

use std::collections::VecDeque;
use vstd::prelude::*;

use crate::error;
use crate::error::BatchError;
use crate::error::BatchErrorView;
use crate::error::BlobStorageError;
use crate::error::ErrorView;
use crate::error::IoErrorKind;
use crate::error::IoFailure;
use crate::error::KeyError;
use crate::error::KeyErrorView;
use crate::error::Result;
use crate::fs;
use crate::fs::check_root;
use crate::fs::map_io_error_to_per_key;
use crate::fs::FsBlobStore;
use crate::order;
use crate::text;
use crate::validate;
use crate::validate::validate_blob_keys;

verus! {

/// What is left to delete, and what came of the rest.
pub struct DeleteRest {
    root: String,
    pending: VecDeque<String>,
    succeeded: Vec<String>,
    errors: Vec<KeyError>,
}

/// The mathematical value of a [`DeleteRest`].
#[verifier::ext_equal]
pub struct DeleteRestView {
    pub root: Seq<char>,
    pub pending: Seq<Seq<char>>,
    pub succeeded: Seq<Seq<char>>,
    pub errors: Seq<KeyErrorView>,
}

impl View for DeleteRest {
    type V = DeleteRestView;

    closed spec fn view(&self) -> DeleteRestView {
        DeleteRestView {
            root: self.root@,
            pending: self.pending.deep_view(),
            succeeded: self.succeeded.deep_view(),
            errors: self.errors.deep_view(),
        }
    }
}

/// Resumes a delete once the root directory has been looked at.
pub struct AwaitRoot {
    pub rest: DeleteRest,
}

/// Resumes a delete once the system has removed a file, or has refused to.
pub struct AwaitRemoved {
    pub key: String,
    pub rest: DeleteRest,
}

/// The next step of a delete.
#[allow(inconsistent_fields)]
pub enum DeleteStep {
    /// Look at the root directory.
    CheckRoot { then: AwaitRoot },
    /// Remove a file.
    Remove { path: String, then: AwaitRemoved },
    /// The delete is over.
    Done(Result<()>),
}

/// The mathematical value of a [`DeleteStep`].
#[verifier::ext_equal]
pub enum DeleteStepView {
    CheckRoot { rest: DeleteRestView },
    Remove { path: Seq<char>, key: Seq<char>, rest: DeleteRestView },
    Done(core::result::Result<(), ErrorView>),
}

impl View for DeleteStep {
    type V = DeleteStepView;

    open spec fn view(&self) -> DeleteStepView {
        match self {
            DeleteStep::CheckRoot { then } => DeleteStepView::CheckRoot { rest: then.rest@ },
            DeleteStep::Remove { path, then } => DeleteStepView::Remove {
                path: path@,
                key: then.key@,
                rest: then.rest@,
            },
            DeleteStep::Done(r) => DeleteStepView::Done(error::result_view(*r)),
        }
    }
}

/// What a delete does first.
pub open spec fn begin(root: Seq<char>, keys: Seq<Seq<char>>) -> DeleteStepView {
    match validate::validation_of_all(keys) {
        Err(e) => DeleteStepView::Done(Err(e)),
        Ok(()) => DeleteStepView::CheckRoot {
            rest: DeleteRestView { root, pending: keys, succeeded: seq![], errors: seq![] },
        },
    }
}

/// What a delete does next.
pub open spec fn next_file(rest: DeleteRestView) -> DeleteStepView {
    if rest.pending.len() > 0 {
        DeleteStepView::Remove {
            path: rest.root + rest.pending[0],
            key: rest.pending[0],
            rest: DeleteRestView { pending: rest.pending.skip(1), ..rest },
        }
    } else if rest.errors.len() == 0 {
        DeleteStepView::Done(Ok(()))
    } else {
        DeleteStepView::Done(
            Err(
                ErrorView::Batch(
                    BatchErrorView { succeeded: rest.succeeded, errors: rest.errors },
                ),
            ),
        )
    }
}

/// What a delete does when the root directory has been looked at.
pub open spec fn after_root(
    rest: DeleteRestView,
    reply: core::result::Result<bool, IoFailure>,
) -> DeleteStepView {
    match fs::root_check(rest.root, reply) {
        Err(e) => DeleteStepView::Done(Err(e)),
        Ok(()) => next_file(rest),
    }
}

/// Whether a file is gone after the attempt to remove it.
pub open spec fn is_gone(reply: core::result::Result<(), IoFailure>) -> bool {
    match reply {
        Ok(()) => true,
        Err(failure) => failure.kind == IoErrorKind::NotFound,
    }
}

/// What a delete does when the system has answered about the file of `key`.
pub open spec fn after_removed(
    key: Seq<char>,
    rest: DeleteRestView,
    reply: core::result::Result<(), IoFailure>,
) -> DeleteStepView {
    if is_gone(reply) {
        next_file(DeleteRestView { succeeded: rest.succeeded.push(key), ..rest })
    } else {
        next_file(
            DeleteRestView {
                errors: rest.errors.push(
                    KeyErrorView { key, error: fs::per_key_failure(reply->Err_0) },
                ),
                ..rest
            },
        )
    }
}

impl DeleteRest {
    /// The step for the next file.
    fn next(self) -> (r: DeleteStep)
        ensures
            r@ == next_file(self@),
    {
        let ghost before = self@;
        let mut pending = self.pending;
        match pending.pop_front() {
            Some(key) => {
                let path = text::concat(self.root.as_str(), key.as_str());
                let rest = DeleteRest {
                    root: self.root,
                    pending,
                    succeeded: self.succeeded,
                    errors: self.errors,
                };
                assert(rest@ =~= (DeleteRestView { pending: before.pending.skip(1), ..before }));
                DeleteStep::Remove { path, then: AwaitRemoved { key, rest } }
            },
            None => {
                if self.errors.len() == 0 {
                    DeleteStep::Done(Ok(()))
                } else {
                    DeleteStep::Done(
                        Err(
                            BlobStorageError::Batch(
                                BatchError { succeeded: self.succeeded, errors: self.errors },
                            ),
                        ),
                    )
                }
            },
        }
    }
}

impl AwaitRoot {
    /// Go on with what the system told of the root directory: whether it is a
    /// directory.
    pub fn checked(self, reply: core::result::Result<bool, IoFailure>) -> (r: DeleteStep)
        ensures
            r@ == after_root(self.rest@, reply),
    {
        match check_root(self.rest.root.as_str(), reply) {
            Err(e) => DeleteStep::Done(Err(e)),
            Ok(()) => self.rest.next(),
        }
    }
}

impl AwaitRemoved {
    /// Go on with what came of removing the file.
    pub fn removed(self, reply: core::result::Result<(), IoFailure>) -> (r: DeleteStep)
        ensures
            r@ == after_removed(self.key@, self.rest@, reply),
    {
        let ghost before = self.rest@;
        let gone = match &reply {
            Ok(()) => true,
            Err(failure) => failure.kind == IoErrorKind::NotFound,
        };
        let mut rest = self.rest;
        let key = self.key;
        match reply {
            Err(failure) if !gone => {
                let error = map_io_error_to_per_key(failure);
                let ghost entry = KeyErrorView { key: key@, error: error@ };
                rest.errors.push(KeyError { key, error });
                assert(rest@ =~= (DeleteRestView { errors: before.errors.push(entry), ..before }));
                rest.next()
            },
            _ => {
                rest.succeeded.push(key);
                assert(rest@ =~= (DeleteRestView {
                    succeeded: before.succeeded.push(key@),
                    ..before
                }));
                rest.next()
            },
        }
    }
}

impl FsBlobStore {
    /// Begin a delete.
    pub fn delete(&self, keys: Vec<String>) -> (r: DeleteStep)
        ensures
            r@ == begin(self.root(), keys.deep_view()),
    {
        match validate_blob_keys(&keys) {
            Err(e) => DeleteStep::Done(Err(e)),
            Ok(()) => {
                let rest = DeleteRest {
                    root: self.root_path().to_owned(),
                    pending: order::queue_of(keys),
                    succeeded: Vec::new(),
                    errors: Vec::new(),
                };
                assert(rest@ =~= (DeleteRestView {
                    root: self.root(),
                    pending: keys.deep_view(),
                    succeeded: seq![],
                    errors: seq![],
                }));
                DeleteStep::CheckRoot { then: AwaitRoot { rest } }
            },
        }
    }
}

} // verus!
