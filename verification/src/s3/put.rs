//! Storing blobs as objects, step by step.
//!
//! All keys are validated before anything is sent. Of each blob at most 5 MiB
//! are read ahead: a blob that ends before that is stored by a single request,
//! and a larger one is uploaded in parts. The first blob that fails ends the put;
//! the error names it, and the blobs that were stored before it. A missing bucket
//! is no failure of a blob and is reported as such.

use std::collections::VecDeque;
use vstd::prelude::*;

use bytes::Bytes;
use bytes::BytesMut;

use crate::batch;
use crate::buffer;
use crate::error::BlobStorageError;
use crate::error::ErrorView;
use crate::error::IoFailure;
use crate::error::Result;
use crate::order;
use crate::s3;
use crate::s3::request_error;
use crate::s3::upload;
use crate::s3::S3BlobStore;
use crate::s3::S3Failure;
use crate::s3::MIN_MULTIPART_PART_SIZE;
use crate::text;
use crate::timestamp::utc_now;
use crate::timestamp::Timestamp;
use crate::types;
use crate::types::BlobInput;
use crate::types::BlobInputView;
use crate::types::BlobMeta;
use crate::types::BlobMetaView;
use crate::types::PutResult;
use crate::validate;
use crate::validate::validate_blobs;

verus! {

/// What is left to store, and what has been stored.
pub struct PutRest<D> {
    bucket: String,
    pending: VecDeque<BlobInput<D>>,
    metas: Vec<BlobMeta>,
}

/// The mathematical value of a [`PutRest`].
#[verifier::ext_equal]
pub struct PutRestView<D> {
    pub bucket: Seq<char>,
    pub pending: Seq<BlobInputView<D>>,
    pub metas: Seq<BlobMetaView>,
}

impl<D> View for PutRest<D> {
    type V = PutRestView<D>;

    closed spec fn view(&self) -> PutRestView<D> {
        PutRestView {
            bucket: self.bucket@,
            pending: self.pending.deep_view(),
            metas: self.metas.deep_view(),
        }
    }
}

/// Resumes a put once more of the blob has been read.
pub struct AwaitChunk<D> {
    key: String,
    lookahead: BytesMut,
    rest: PutRest<D>,
}

/// The mathematical value of an [`AwaitChunk`].
#[verifier::ext_equal]
pub struct AwaitChunkView<D> {
    pub key: Seq<char>,
    pub lookahead: Seq<u8>,
    pub rest: PutRestView<D>,
}

impl<D> View for AwaitChunk<D> {
    type V = AwaitChunkView<D>;

    closed spec fn view(&self) -> AwaitChunkView<D> {
        AwaitChunkView {
            key: self.key@,
            lookahead: buffer::buffered(self.lookahead),
            rest: self.rest@,
        }
    }
}

/// Resumes a put once the service has answered to the request for one blob.
pub struct AwaitObject<D> {
    pub key: String,
    pub size: u64,
    pub rest: PutRest<D>,
}

/// Resumes a put once a blob has been uploaded in parts.
pub struct AwaitMultipart<D> {
    pub key: String,
    pub rest: PutRest<D>,
}

/// The next step of a put.
#[allow(inconsistent_fields)]
pub enum PutStep<D> {
    /// Read some more bytes of `data`, at most `limit`.
    Read { data: D, limit: usize, then: AwaitChunk<D> },
    /// Store `body` under the key by a single request.
    PutObject { key: String, body: Bytes, then: AwaitObject<D> },
    /// Upload `lookahead`, followed by what is left of `data`, in parts.
    Multipart { key: String, lookahead: Bytes, data: D, then: AwaitMultipart<D> },
    /// The put is over.
    Done(Result<PutResult>),
}

/// The mathematical value of a [`PutStep`].
#[verifier::ext_equal]
pub enum PutStepView<D> {
    Read { data: D, limit: int, then: AwaitChunkView<D> },
    PutObject { key: Seq<char>, body: Seq<u8>, then_key: Seq<char>, size: int, rest: PutRestView<D> },
    Multipart {
        key: Seq<char>,
        lookahead: Seq<u8>,
        data: D,
        then_key: Seq<char>,
        rest: PutRestView<D>,
    },
    Done(core::result::Result<Seq<BlobMetaView>, ErrorView>),
}

impl<D> View for PutStep<D> {
    type V = PutStepView<D>;

    open spec fn view(&self) -> PutStepView<D> {
        match self {
            PutStep::Read { data, limit, then } => PutStepView::Read {
                data: *data,
                limit: *limit as int,
                then: then@,
            },
            PutStep::PutObject { key, body, then } => PutStepView::PutObject {
                key: key@,
                body: buffer::frozen(*body),
                then_key: then.key@,
                size: then.size as int,
                rest: then.rest@,
            },
            PutStep::Multipart { key, lookahead, data, then } => PutStepView::Multipart {
                key: key@,
                lookahead: buffer::frozen(*lookahead),
                data: *data,
                then_key: then.key@,
                rest: then.rest@,
            },
            PutStep::Done(r) => PutStepView::Done(types::put_result_view(*r)),
        }
    }
}

/// What a put does first.
pub open spec fn begin<D>(bucket: Seq<char>, blobs: Seq<BlobInputView<D>>) -> PutStepView<D> {
    match validate::validation_of_all(validate::blob_keys(blobs)) {
        Err(e) => PutStepView::Done(Err(e)),
        Ok(()) => next_blob(PutRestView { bucket, pending: blobs, metas: seq![] }),
    }
}

/// What a put does next when no blob is under way.
pub open spec fn next_blob<D>(rest: PutRestView<D>) -> PutStepView<D> {
    if rest.pending.len() == 0 {
        PutStepView::Done(Ok(rest.metas))
    } else {
        PutStepView::Read {
            data: rest.pending[0].data,
            limit: MIN_MULTIPART_PART_SIZE as int,
            then: AwaitChunkView {
                key: rest.pending[0].key,
                lookahead: seq![],
                rest: PutRestView { pending: rest.pending.skip(1), ..rest },
            },
        }
    }
}

/// What a put does when more of a blob has been read; no bytes mean that the blob
/// has ended.
pub open spec fn after_chunk<D>(
    then: AwaitChunkView<D>,
    data: D,
    reply: core::result::Result<Seq<u8>, IoFailure>,
) -> PutStepView<D> {
    match reply {
        Err(failure) => PutStepView::Done(
            Err(
                batch::failed_at(
                    then.rest.metas,
                    then.key,
                    ErrorView::Storage {
                        message: s3::about("failed to read initial chunk for key '"@, then.key),
                        source: Some(failure.source_spec()),
                    },
                ),
            ),
        ),
        Ok(chunk) => {
            let lookahead = then.lookahead + chunk;
            if chunk.len() == 0 {
                PutStepView::PutObject {
                    key: then.key,
                    body: then.lookahead,
                    then_key: then.key,
                    size: then.lookahead.len() as int,
                    rest: then.rest,
                }
            } else if lookahead.len() < MIN_MULTIPART_PART_SIZE {
                PutStepView::Read {
                    data,
                    limit: MIN_MULTIPART_PART_SIZE - lookahead.len(),
                    then: AwaitChunkView { lookahead, ..then },
                }
            } else {
                PutStepView::Multipart {
                    key: then.key,
                    lookahead,
                    data,
                    then_key: then.key,
                    rest: then.rest,
                }
            }
        },
    }
}

/// What a put does when the service has answered to the request for one blob, at
/// the given time.
pub open spec fn after_object<D>(
    key: Seq<char>,
    size: u64,
    rest: PutRestView<D>,
    reply: core::result::Result<Option<Seq<char>>, S3Failure>,
    now: Timestamp,
) -> PutStepView<D> {
    match reply {
        Err(failure) => PutStepView::Done(
            Err(
                batch::failed_at(
                    rest.metas,
                    key,
                    s3::request_failed(
                        rest.bucket,
                        failure,
                        s3::about("S3 PutObject failed for key '"@, key),
                    ),
                ),
            ),
        ),
        Ok(etag) => next_blob(
            PutRestView {
                metas: rest.metas.push(
                    BlobMetaView { key, stored_size: size, modified_at: now, etag },
                ),
                ..rest
            },
        ),
    }
}

/// What a put does when the blob under `key` has been uploaded in parts.
pub open spec fn after_multipart<D>(
    key: Seq<char>,
    rest: PutRestView<D>,
    reply: core::result::Result<BlobMetaView, ErrorView>,
) -> PutStepView<D> {
    match reply {
        Err(e) => PutStepView::Done(Err(batch::failed_at(rest.metas, key, e))),
        Ok(meta) => next_blob(PutRestView { metas: rest.metas.push(meta), ..rest }),
    }
}

/// What reading a chunk gave, taken by its mathematical value.
pub open spec fn chunk_view(
    reply: core::result::Result<&[u8], IoFailure>,
) -> core::result::Result<Seq<u8>, IoFailure> {
    match reply {
        Ok(chunk) => Ok(chunk@),
        Err(failure) => Err(failure),
    }
}

impl<D> PutRest<D> {
    /// The step that begins the next blob.
    fn next(self) -> (r: PutStep<D>)
        ensures
            r@ == next_blob(self@),
    {
        let ghost before = self@;
        let mut pending = self.pending;
        match pending.pop_front() {
            None => PutStep::Done(Ok(PutResult::multiple(self.metas))),
            Some(blob) => {
                assert(blob@ == before.pending[0]);
                let rest = PutRest { bucket: self.bucket, pending, metas: self.metas };
                assert(rest@ =~= (PutRestView { pending: before.pending.skip(1), ..before }));
                let limit: usize = MIN_MULTIPART_PART_SIZE as usize;
                PutStep::Read {
                    data: blob.data,
                    limit,
                    then: AwaitChunk { key: blob.key, lookahead: buffer::new_buffer(limit), rest },
                }
            },
        }
    }
}

impl<D> AwaitChunk<D> {
    /// Less has been read than would be uploaded in parts.
    #[verifier::type_invariant]
    spec fn wf(&self) -> bool {
        buffer::buffered(self.lookahead).len() < MIN_MULTIPART_PART_SIZE
    }

    /// Go on with the bytes that were read, none at the end of the blob.
    pub fn read(self, data: D, reply: core::result::Result<&[u8], IoFailure>) -> (r: PutStep<D>)
        requires
            reply matches Ok(chunk) ==> self@.lookahead.len() + chunk@.len()
                <= MIN_MULTIPART_PART_SIZE,
        ensures
            r@ == after_chunk(self@, data, chunk_view(reply)),
    {
        proof {
            use_type_invariant(&self);
        }
        let chunk = match reply {
            Err(failure) => {
                let error = BlobStorageError::Storage {
                    message: text::concat3(
                        "failed to read initial chunk for key '",
                        self.key.as_str(),
                        "'",
                    ),
                    source: Some(failure.into_source()),
                };
                return PutStep::Done(Err(batch::failed_put(self.rest.metas, self.key, error)));
            },
            Ok(chunk) => chunk,
        };
        let mut lookahead = self.lookahead;
        if chunk.len() == 0 {
            let body = buffer::freeze_buffer(lookahead);
            let size: u64 = buffer::frozen_len(&body) as u64;
            return PutStep::PutObject {
                key: self.key.clone(),
                body,
                then: AwaitObject { key: self.key, size, rest: self.rest },
            };
        }
        buffer::extend_buffer(&mut lookahead, chunk);
        let total: usize = buffer::buffer_len(&lookahead);
        if (total as u64) < MIN_MULTIPART_PART_SIZE {
            PutStep::Read {
                data,
                limit: MIN_MULTIPART_PART_SIZE as usize - total,
                then: AwaitChunk { key: self.key, lookahead, rest: self.rest },
            }
        } else {
            PutStep::Multipart {
                key: self.key.clone(),
                lookahead: buffer::freeze_buffer(lookahead),
                data,
                then: AwaitMultipart { key: self.key, rest: self.rest },
            }
        }
    }
}

impl<D> AwaitObject<D> {
    /// Go on with the tag that the service gave to the object, at the given time.
    pub fn stored_at(
        self,
        reply: core::result::Result<Option<String>, S3Failure>,
        now: Timestamp,
    ) -> (r: PutStep<D>)
        ensures
            r@ == after_object(
                self.key@,
                self.size,
                self.rest@,
                upload::text_reply_view(reply),
                now,
            ),
    {
        match reply {
            Err(failure) => {
                let message = text::concat3("S3 PutObject failed for key '", self.key.as_str(), "'");
                let error = request_error(self.rest.bucket.as_str(), failure, message);
                PutStep::Done(Err(batch::failed_put(self.rest.metas, self.key, error)))
            },
            Ok(etag) => {
                let ghost before = self.rest@;
                let mut rest = self.rest;
                let meta = BlobMeta {
                    key: self.key,
                    stored_size: self.size,
                    modified_at: now,
                    etag,
                };
                rest.metas.push(meta);
                assert(rest@ =~= (PutRestView { metas: before.metas.push(meta@), ..before }));
                rest.next()
            },
        }
    }

    /// Go on with the tag that the service gave to the object, at the current
    /// time.
    pub fn stored(self, reply: core::result::Result<Option<String>, S3Failure>) -> (r: PutStep<D>)
        ensures
            exists|now: Timestamp|
                r@ == #[trigger] after_object(
                    self.key@,
                    self.size,
                    self.rest@,
                    upload::text_reply_view(reply),
                    now,
                ),
    {
        self.stored_at(reply, utc_now())
    }
}

impl<D> AwaitMultipart<D> {
    /// Go on with what the upload in parts ended with.
    pub fn uploaded(self, reply: Result<BlobMeta>) -> (r: PutStep<D>)
        ensures
            r@ == after_multipart(self.key@, self.rest@, types::meta_result_view(reply)),
    {
        match reply {
            Err(e) => PutStep::Done(Err(batch::failed_put(self.rest.metas, self.key, e))),
            Ok(meta) => {
                let ghost before = self.rest@;
                let mut rest = self.rest;
                rest.metas.push(meta);
                assert(rest@ =~= (PutRestView { metas: before.metas.push(meta@), ..before }));
                rest.next()
            },
        }
    }
}

impl<C> S3BlobStore<C> {
    /// Begin a put.
    pub fn put<D>(&self, blobs: Vec<BlobInput<D>>) -> (r: PutStep<D>)
        ensures
            r@ == begin(self.bucket(), blobs.deep_view()),
    {
        match validate_blobs(&blobs) {
            Err(e) => PutStep::Done(Err(e)),
            Ok(()) => {
                let rest = PutRest {
                    bucket: self.bucket_name().to_owned(),
                    pending: order::queue_of(blobs),
                    metas: Vec::new(),
                };
                assert(rest@ =~= (PutRestView {
                    bucket: self.bucket(),
                    pending: blobs.deep_view(),
                    metas: seq![],
                }));
                rest.next()
            },
        }
    }
}

} // verus!
