//! Storing blobs in files, step by step.
//!
//! All keys are validated before anything is touched. The files are written in
//! order. The first blob that fails ends the put; the error names it, and the
//! blobs that were stored before it.

use std::collections::VecDeque;
use vstd::prelude::*;

use crate::batch;
use crate::error::ErrorView;
use crate::error::IoFailure;
use crate::error::Result;
use crate::fs;
use crate::fs::check_root;
use crate::fs::directory_of;
use crate::fs::map_io_error_to_per_key;
use crate::fs::meta_of_stat;
use crate::fs::FileStat;
use crate::fs::FsBlobStore;
use crate::order;
use crate::text;
use crate::types;
use crate::types::BlobInput;
use crate::types::BlobInputView;
use crate::types::BlobMeta;
use crate::types::BlobMetaView;
use crate::types::PutResult;
use crate::validate;
use crate::validate::validate_blobs;

verus! {

/// What is left to store, and what has been stored.
pub struct PutRest<D> {
    root: String,
    pending: VecDeque<BlobInput<D>>,
    metas: Vec<BlobMeta>,
}

/// The mathematical value of a [`PutRest`].
#[verifier::ext_equal]
pub struct PutRestView<D> {
    pub root: Seq<char>,
    pub pending: Seq<BlobInputView<D>>,
    pub metas: Seq<BlobMetaView>,
}

impl<D> View for PutRest<D> {
    type V = PutRestView<D>;

    closed spec fn view(&self) -> PutRestView<D> {
        PutRestView {
            root: self.root@,
            pending: self.pending.deep_view(),
            metas: self.metas.deep_view(),
        }
    }
}

/// Resumes a put once the root directory has been looked at.
pub struct AwaitRoot<D> {
    pub rest: PutRest<D>,
}

/// Resumes a put once a file has been written and looked at.
pub struct AwaitWritten<D> {
    pub key: String,
    pub rest: PutRest<D>,
}

/// The next step of a put.
#[allow(inconsistent_fields)]
pub enum PutStep<D> {
    /// Look at the root directory.
    CheckRoot { then: AwaitRoot<D> },
    /// Create the directory `dir` with its parents, write the data to the file
    /// `path`, and look at the file.
    Write { dir: String, path: String, data: D, then: AwaitWritten<D> },
    /// The put is over.
    Done(Result<PutResult>),
}

/// The mathematical value of a [`PutStep`].
#[verifier::ext_equal]
pub enum PutStepView<D> {
    CheckRoot { rest: PutRestView<D> },
    Write { dir: Seq<char>, path: Seq<char>, data: D, key: Seq<char>, rest: PutRestView<D> },
    Done(core::result::Result<Seq<BlobMetaView>, ErrorView>),
}

impl<D> View for PutStep<D> {
    type V = PutStepView<D>;

    open spec fn view(&self) -> PutStepView<D> {
        match self {
            PutStep::CheckRoot { then } => PutStepView::CheckRoot { rest: then.rest@ },
            PutStep::Write { dir, path, data, then } => PutStepView::Write {
                dir: dir@,
                path: path@,
                data: *data,
                key: then.key@,
                rest: then.rest@,
            },
            PutStep::Done(r) => PutStepView::Done(types::put_result_view(*r)),
        }
    }
}

/// What a put does first.
pub open spec fn begin<D>(root: Seq<char>, blobs: Seq<BlobInputView<D>>) -> PutStepView<D> {
    match validate::validation_of_all(validate::blob_keys(blobs)) {
        Err(e) => PutStepView::Done(Err(e)),
        Ok(()) => PutStepView::CheckRoot {
            rest: PutRestView { root, pending: blobs, metas: seq![] },
        },
    }
}

/// What a put does next.
pub open spec fn next_file<D>(rest: PutRestView<D>) -> PutStepView<D> {
    if rest.pending.len() == 0 {
        PutStepView::Done(Ok(rest.metas))
    } else {
        let blob = rest.pending[0];
        PutStepView::Write {
            dir: fs::dir_part(rest.root + blob.key),
            path: rest.root + blob.key,
            data: blob.data,
            key: blob.key,
            rest: PutRestView { pending: rest.pending.skip(1), ..rest },
        }
    }
}

/// What a put does when the root directory has been looked at.
pub open spec fn after_root<D>(
    rest: PutRestView<D>,
    reply: core::result::Result<bool, IoFailure>,
) -> PutStepView<D> {
    match fs::root_check(rest.root, reply) {
        Err(e) => PutStepView::Done(Err(e)),
        Ok(()) => next_file(rest),
    }
}

/// What a put does when the file of `key` has been written and looked at.
pub open spec fn after_written<D>(
    key: Seq<char>,
    rest: PutRestView<D>,
    reply: core::result::Result<FileStat, IoFailure>,
) -> PutStepView<D> {
    match reply {
        Err(failure) => PutStepView::Done(
            Err(batch::ended_at(rest.metas, key, fs::per_key_failure(failure))),
        ),
        Ok(stat) => next_file(
            PutRestView { metas: rest.metas.push(fs::stat_meta(key, stat)), ..rest },
        ),
    }
}

impl<D> PutRest<D> {
    /// The step for the next file.
    fn next(self) -> (r: PutStep<D>)
        ensures
            r@ == next_file(self@),
    {
        let ghost before = self@;
        let mut pending = self.pending;
        match pending.pop_front() {
            None => PutStep::Done(Ok(PutResult::multiple(self.metas))),
            Some(blob) => {
                assert(blob@ == before.pending[0]);
                let path = text::concat(self.root.as_str(), blob.key.as_str());
                let rest = PutRest { root: self.root, pending, metas: self.metas };
                assert(rest@ =~= (PutRestView { pending: before.pending.skip(1), ..before }));
                PutStep::Write {
                    dir: directory_of(path.as_str()),
                    path,
                    data: blob.data,
                    then: AwaitWritten { key: blob.key, rest },
                }
            },
        }
    }
}

impl<D> AwaitRoot<D> {
    /// Go on with what the system told of the root directory: whether it is a
    /// directory.
    pub fn checked(self, reply: core::result::Result<bool, IoFailure>) -> (r: PutStep<D>)
        ensures
            r@ == after_root(self.rest@, reply),
    {
        match check_root(self.rest.root.as_str(), reply) {
            Err(e) => PutStep::Done(Err(e)),
            Ok(()) => self.rest.next(),
        }
    }
}

impl<D> AwaitWritten<D> {
    /// Go on with what the system told of the written file.
    pub fn written(self, reply: core::result::Result<FileStat, IoFailure>) -> (r: PutStep<D>)
        ensures
            r@ == after_written(self.key@, self.rest@, reply),
    {
        match reply {
            Err(failure) => PutStep::Done(
                Err(
                    batch::ended_put(self.rest.metas, self.key, map_io_error_to_per_key(failure)),
                ),
            ),
            Ok(stat) => {
                let ghost before = self.rest@;
                let mut rest = self.rest;
                let meta = meta_of_stat(self.key.as_str(), stat);
                rest.metas.push(meta);
                assert(rest@ =~= (PutRestView { metas: before.metas.push(meta@), ..before }));
                rest.next()
            },
        }
    }
}

impl FsBlobStore {
    /// Begin a put.
    pub fn put<D>(&self, blobs: Vec<BlobInput<D>>) -> (r: PutStep<D>)
        ensures
            r@ == begin(self.root(), blobs.deep_view()),
    {
        match validate_blobs(&blobs) {
            Err(e) => PutStep::Done(Err(e)),
            Ok(()) => {
                let rest = PutRest {
                    root: self.root_path().to_owned(),
                    pending: order::queue_of(blobs),
                    metas: Vec::new(),
                };
                assert(rest@ =~= (PutRestView {
                    root: self.root(),
                    pending: blobs.deep_view(),
                    metas: seq![],
                }));
                PutStep::CheckRoot { then: AwaitRoot { rest } }
            },
        }
    }
}

} // verus!
