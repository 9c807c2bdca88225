//! Deleting objects, step by step.
//!
//! All keys are validated before anything is sent. The service takes up to a
//! thousand keys per request. Every key is processed: where a request fails, its
//! keys have failed, and the delete goes on with the others. Only a missing bucket
//! ends the delete at once.

use std::collections::VecDeque;
use vstd::prelude::*;

use crate::batch;
use crate::error;
use crate::error::BatchError;
use crate::error::BatchErrorView;
use crate::error::BlobStorageError;
use crate::error::ErrorView;
use crate::error::KeyError;
use crate::error::KeyErrorView;
use crate::error::PerKeyError;
use crate::error::PerKeyErrorView;
use crate::error::Result;
use crate::order;
use crate::s3;
use crate::s3::is_misconfigured;
use crate::s3::missing_bucket;
use crate::s3::S3BlobStore;
use crate::s3::S3Failure;
use crate::text;
use crate::types;
use crate::validate;
use crate::validate::validate_blob_keys;

verus! {

/// The number of keys that the service takes in one request.
pub const MAX_KEYS_PER_REQUEST: usize = 1000;

/// What the service tells of an object that it did not delete.
pub struct ObjectError {
    pub key: Option<String>,
    pub code: Option<String>,
    pub message: Option<String>,
}

/// What the service answers to the deletion of several objects.
pub struct DeleteReply {
    /// The keys of the deleted objects.
    pub deleted: Vec<Option<String>>,
    /// The objects that were not deleted.
    pub errors: Vec<ObjectError>,
}

/// The mathematical value of an [`ObjectError`].
pub struct ObjectErrorView {
    pub key: Option<Seq<char>>,
    pub code: Option<Seq<char>>,
    pub message: Option<Seq<char>>,
}

impl DeepView for ObjectError {
    type V = ObjectErrorView;

    open spec fn deep_view(&self) -> ObjectErrorView {
        ObjectErrorView {
            key: types::text_view(self.key),
            code: types::text_view(self.code),
            message: types::text_view(self.message),
        }
    }
}

/// The mathematical value of a [`DeleteReply`].
#[verifier::ext_equal]
pub struct DeleteReplyView {
    pub deleted: Seq<Option<Seq<char>>>,
    pub errors: Seq<ObjectErrorView>,
}

impl View for DeleteReply {
    type V = DeleteReplyView;

    open spec fn view(&self) -> DeleteReplyView {
        DeleteReplyView {
            deleted: self.deleted@.map_values(|k: Option<String>| types::text_view(k)),
            errors: self.errors.deep_view(),
        }
    }
}

/// The key of an object that was not deleted.
pub open spec fn error_key(e: ObjectErrorView) -> Seq<char> {
    match e.key {
        Some(k) => k,
        None => "unknown"@,
    }
}

/// The code with which an object was not deleted.
pub open spec fn error_code(e: ObjectErrorView) -> Seq<char> {
    match e.code {
        Some(c) => c,
        None => "Unknown"@,
    }
}

/// The text of the failure: the code, and the message where there is one.
pub open spec fn error_text(e: ObjectErrorView) -> Seq<char> {
    match e.message {
        Some(m) => if m.len() == 0 {
            error_code(e)
        } else {
            error_code(e) + ": "@ + m
        },
        None => error_code(e),
    }
}

/// Whether the object was not deleted because it is gone already.
pub open spec fn is_gone(e: ObjectErrorView) -> bool {
    error_code(e) == "NoSuchKey"@ || error_code(e) == "NotFound"@
}

/// The failure of an object that was not deleted.
pub open spec fn per_key_failure(e: ObjectErrorView) -> KeyErrorView {
    KeyErrorView {
        key: error_key(e),
        error: if error_code(e) == "AccessDenied"@ {
            PerKeyErrorView::PermissionDenied(error_text(e))
        } else {
            PerKeyErrorView::Unknown { message: error_text(e) }
        },
    }
}

/// The keys that count as deleted according to a reply.
pub open spec fn deleted_keys(reply: DeleteReplyView) -> Seq<Seq<char>> {
    reply.deleted.filter_map(|k: Option<Seq<char>>| k) + reply.errors.filter_map(
        |e: ObjectErrorView|
            if is_gone(e) {
                Some(error_key(e))
            } else {
                None
            },
    )
}

/// The failures according to a reply.
pub open spec fn failed_keys(reply: DeleteReplyView) -> Seq<KeyErrorView> {
    reply.errors.filter_map(
        |e: ObjectErrorView|
            if is_gone(e) {
                None
            } else {
                Some(per_key_failure(e))
            },
    )
}

/// What is left to delete, and what came of the rest.
pub struct DeleteRest {
    bucket: String,
    pending: VecDeque<String>,
    succeeded: Vec<String>,
    errors: Vec<KeyError>,
}

/// The mathematical value of a [`DeleteRest`].
#[verifier::ext_equal]
pub struct DeleteRestView {
    pub bucket: Seq<char>,
    pub pending: Seq<Seq<char>>,
    pub succeeded: Seq<Seq<char>>,
    pub errors: Seq<KeyErrorView>,
}

impl View for DeleteRest {
    type V = DeleteRestView;

    closed spec fn view(&self) -> DeleteRestView {
        DeleteRestView {
            bucket: self.bucket@,
            pending: self.pending.deep_view(),
            succeeded: self.succeeded.deep_view(),
            errors: self.errors.deep_view(),
        }
    }
}

/// Resumes a delete once the service has answered to a request.
pub struct AwaitDeleted {
    /// The keys that the request names.
    pub sent: Vec<String>,
    pub rest: DeleteRest,
}

/// The next step of a delete.
pub enum DeleteStep {
    /// Delete the objects of the given keys by one request.
    DeleteObjects { keys: Vec<String>, then: AwaitDeleted },
    /// The delete is over.
    Done(Result<()>),
}

/// The mathematical value of a [`DeleteStep`].
#[verifier::ext_equal]
pub enum DeleteStepView {
    DeleteObjects { keys: Seq<Seq<char>>, sent: Seq<Seq<char>>, rest: DeleteRestView },
    Done(core::result::Result<(), ErrorView>),
}

impl View for DeleteStep {
    type V = DeleteStepView;

    open spec fn view(&self) -> DeleteStepView {
        match self {
            DeleteStep::DeleteObjects { keys, then } => DeleteStepView::DeleteObjects {
                keys: keys.deep_view(),
                sent: then.sent.deep_view(),
                rest: then.rest@,
            },
            DeleteStep::Done(r) => DeleteStepView::Done(error::result_view(*r)),
        }
    }
}

/// The number of keys of the next request.
pub open spec fn chunk_len(pending: nat) -> int {
    if pending < MAX_KEYS_PER_REQUEST {
        pending as int
    } else {
        MAX_KEYS_PER_REQUEST as int
    }
}

/// What a delete does first.
pub open spec fn begin(bucket: Seq<char>, keys: Seq<Seq<char>>) -> DeleteStepView {
    match validate::validation_of_all(keys) {
        Err(e) => DeleteStepView::Done(Err(e)),
        Ok(()) => next_chunk(
            DeleteRestView { bucket, pending: keys, succeeded: seq![], errors: seq![] },
        ),
    }
}

/// What a delete does next.
pub open spec fn next_chunk(rest: DeleteRestView) -> DeleteStepView {
    let n = chunk_len(rest.pending.len());
    if rest.pending.len() > 0 {
        DeleteStepView::DeleteObjects {
            keys: rest.pending.take(n),
            sent: rest.pending.take(n),
            rest: DeleteRestView { pending: rest.pending.skip(n), ..rest },
        }
    } else if rest.errors.len() == 0 {
        DeleteStepView::Done(Ok(()))
    } else {
        DeleteStepView::Done(
            Err(
                ErrorView::Batch(
                    BatchErrorView { succeeded: rest.succeeded, errors: rest.errors },
                ),
            ),
        )
    }
}

/// The failure of each key of a request that failed.
pub open spec fn request_failure(failure: S3Failure) -> PerKeyErrorView {
    let text = batch::with_cause("S3 batch delete failed"@, Some(failure.source@));
    if s3::has_code(failure, "AccessDenied"@) {
        PerKeyErrorView::PermissionDenied(text)
    } else {
        PerKeyErrorView::Unknown { message: text }
    }
}

/// The failures of the keys of a request that failed.
pub open spec fn all_failed_with(keys: Seq<Seq<char>>, error: PerKeyErrorView) -> Seq<
    KeyErrorView,
> {
    keys.map_values(|key: Seq<char>| KeyErrorView { key, error })
}

/// What a delete does when the service has answered to a request that names the
/// keys `sent`.
pub open spec fn after_deleted(
    sent: Seq<Seq<char>>,
    rest: DeleteRestView,
    reply: core::result::Result<DeleteReplyView, S3Failure>,
) -> DeleteStepView {
    match reply {
        Err(failure) => if s3::misconfigured(failure) {
            DeleteStepView::Done(Err(s3::bucket_error(rest.bucket)))
        } else {
            next_chunk(
                DeleteRestView {
                    errors: rest.errors + all_failed_with(sent, request_failure(failure)),
                    ..rest
                },
            )
        },
        Ok(reply) => next_chunk(
            DeleteRestView {
                succeeded: rest.succeeded + deleted_keys(reply),
                errors: rest.errors + failed_keys(reply),
                ..rest
            },
        ),
    }
}

/// A reply, taken by its mathematical value.
pub open spec fn reply_view(
    reply: core::result::Result<DeleteReply, S3Failure>,
) -> core::result::Result<DeleteReplyView, S3Failure> {
    match reply {
        Ok(r) => Ok(r@),
        Err(failure) => Err(failure),
    }
}

/// A text or, where there is none, another one.
fn text_or(t: Option<String>, other: &str) -> (r: String)
    ensures
        r@ == match types::text_view(t) {
            Some(s) => s,
            None => other@,
        },
{
    match t {
        Some(s) => s,
        None => other.to_owned(),
    }
}

/// What an object that was not deleted counts as: deleted, as its key, or failed.
fn classify(e: ObjectError) -> (r: core::result::Result<String, KeyError>)
    ensures
        match r {
            Ok(key) => is_gone(e.deep_view()) && key@ == error_key(e.deep_view()),
            Err(error) => !is_gone(e.deep_view()) && error@ == per_key_failure(e.deep_view()),
        },
{
    let key = text_or(e.key, "unknown");
    let code = text_or(e.code, "Unknown");
    if text::str_eq(code.as_str(), "NoSuchKey") || text::str_eq(code.as_str(), "NotFound") {
        return Ok(key);
    }
    let denied = text::str_eq(code.as_str(), "AccessDenied");
    let shown = match e.message {
        Some(m) => if m.as_str().is_empty() {
            code
        } else {
            text::concat3(code.as_str(), ": ", m.as_str())
        },
        None => code,
    };
    if denied {
        Err(KeyError { key, error: PerKeyError::PermissionDenied(shown) })
    } else {
        Err(KeyError { key, error: PerKeyError::Unknown { message: shown } })
    }
}

impl DeleteRest {
    /// The step for the next request.
    fn next(self) -> (r: DeleteStep)
        ensures
            r@ == next_chunk(self@),
    {
        let ghost before = self@;
        let ghost n = chunk_len(before.pending.len());
        let mut pending = self.pending;
        if pending.len() == 0 {
            if self.errors.len() == 0 {
                return DeleteStep::Done(Ok(()));
            }
            return DeleteStep::Done(
                Err(
                    BlobStorageError::Batch(
                        BatchError { succeeded: self.succeeded, errors: self.errors },
                    ),
                ),
            );
        }
        let mut keys: Vec<String> = Vec::new();
        let mut sent: Vec<String> = Vec::new();
        assert(before.pending.skip(0) =~= before.pending);
        assert(sent.deep_view() =~= keys.deep_view());
        while keys.len() < MAX_KEYS_PER_REQUEST && pending.len() > 0
            invariant
                keys.len() <= n,
                n == chunk_len(before.pending.len()),
                keys.deep_view() == before.pending.take(keys.len() as int),
                sent.deep_view() == keys.deep_view(),
                pending.deep_view() == before.pending.skip(keys.len() as int),
                pending.len() + keys.len() == before.pending.len(),
            ensures
                keys.len() == n,
            decreases pending.len(),
        {
            let ghost taken = keys.deep_view();
            let ghost left = pending.deep_view();
            match pending.pop_front() {
                Some(key) => {
                    assert(left[0] == key@);
                    sent.push(key.clone());
                    keys.push(key);
                    assert(keys.deep_view() =~= taken.push(key@));
                    assert(sent.deep_view() =~= taken.push(key@));
                    assert(keys.deep_view() =~= before.pending.take(keys.len() as int));
                    assert(pending.deep_view() =~= left.skip(1));
                    assert(pending.deep_view() =~= before.pending.skip(keys.len() as int));
                },
                None => {},
            }
        }
        let rest = DeleteRest {
            bucket: self.bucket,
            pending,
            succeeded: self.succeeded,
            errors: self.errors,
        };
        assert(rest@ =~= (DeleteRestView { pending: before.pending.skip(n), ..before }));
        DeleteStep::DeleteObjects { keys, then: AwaitDeleted { sent, rest } }
    }
}

/// The failure of each key of a request that failed.
fn failure_of_request(failure: S3Failure) -> (r: PerKeyError)
    ensures
        r@ == request_failure(failure),
{
    let denied = match &failure.code {
        Some(code) => text::str_eq(code.as_str(), "AccessDenied"),
        None => false,
    };
    let message = batch::caused_message(
        "S3 batch delete failed".to_owned(),
        &Some(failure.source),
    );
    if denied {
        PerKeyError::PermissionDenied(message)
    } else {
        PerKeyError::Unknown { message }
    }
}

/// The same failure once more.
fn same_failure(error: &PerKeyError) -> (r: PerKeyError)
    ensures
        r@ == error@,
{
    match error {
        PerKeyError::NotFound => PerKeyError::NotFound,
        PerKeyError::PermissionDenied(m) => PerKeyError::PermissionDenied(m.clone()),
        PerKeyError::Unknown { message } => PerKeyError::Unknown { message: message.clone() },
    }
}

impl AwaitDeleted {
    /// Go on when the request failed.
    fn failed(self, failure: S3Failure) -> (r: DeleteStep)
        ensures
            r@ == after_deleted(self.sent.deep_view(), self.rest@, Err(failure)),
    {
        if is_misconfigured(&failure) {
            return DeleteStep::Done(Err(missing_bucket(self.rest.bucket.as_str())));
        }
        let ghost before = self.rest@;
        let ghost sent = self.sent.deep_view();
        let error = failure_of_request(failure);
        let ghost entry = |key: Seq<char>| KeyErrorView { key, error: error@ };
        let mut errors = self.rest.errors;
        assert(errors.deep_view() =~= before.errors + sent.take(0).map_values(entry));
        for key in it: self.sent
            invariant
                it.seq() == self.sent@,
                sent == self.sent.deep_view(),
                entry == (|key: Seq<char>| KeyErrorView { key, error: error@ }),
                errors.deep_view() == before.errors + sent.take(it.index()).map_values(entry),
        {
            let ghost so_far = errors.deep_view();
            let ghost i = it.index();
            assert(sent[i] == key@);
            let failed = KeyError { key, error: same_failure(&error) };
            errors.push(failed);
            assert(errors.deep_view() =~= so_far.push(failed@));
            assert(errors.deep_view() =~= before.errors + sent.take(i + 1).map_values(entry));
        }
        assert(sent.take(sent.len() as int) =~= sent);
        let rest = DeleteRest {
            bucket: self.rest.bucket,
            pending: self.rest.pending,
            succeeded: self.rest.succeeded,
            errors,
        };
        assert(rest@ =~= (DeleteRestView {
            errors: before.errors + all_failed_with(sent, error@),
            ..before
        }));
        rest.next()
    }

    /// Go on with what the service answered.
    pub fn deleted(self, reply: core::result::Result<DeleteReply, S3Failure>) -> (r: DeleteStep)
        ensures
            r@ == after_deleted(self.sent.deep_view(), self.rest@, reply_view(reply)),
    {
        let reply = match reply {
            Err(failure) => {
                return self.failed(failure);
            },
            Ok(reply) => reply,
        };
        let ghost before = self.rest@;
        let mut succeeded = self.rest.succeeded;
        let mut errors = self.rest.errors;
        let ghost done = reply@.deleted;
        let ghost own = |k: Option<Seq<char>>| k;
        assert(succeeded.deep_view() =~= before.succeeded + done.take(0).filter_map(own));
        for key in it: reply.deleted
            invariant
                it.seq() == reply.deleted@,
                done == reply@.deleted,
                own == (|k: Option<Seq<char>>| k),
                succeeded.deep_view() == before.succeeded + done.take(it.index()).filter_map(own),
        {
            let ghost so_far = succeeded.deep_view();
            let ghost i = it.index();
            proof {
                done.lemma_filter_map_take_succ(own, i);
                assert(done[i] == types::text_view(key));
            }
            if let Some(k) = key {
                succeeded.push(k);
                assert(succeeded.deep_view() =~= so_far.push(k@));
            }
            assert(succeeded.deep_view() =~= before.succeeded + done.take(i + 1).filter_map(own));
        }
        assert(done.take(done.len() as int) =~= done);
        let ghost middle = succeeded.deep_view();
        let ghost failed = reply@.errors;
        let ghost gone = |e: ObjectErrorView|
            if is_gone(e) {
                Some(error_key(e))
            } else {
                None
            };
        let ghost bad = |e: ObjectErrorView|
            if is_gone(e) {
                None
            } else {
                Some(per_key_failure(e))
            };
        assert(succeeded.deep_view() =~= middle + failed.take(0).filter_map(gone));
        assert(errors.deep_view() =~= before.errors + failed.take(0).filter_map(bad));
        for error in it: reply.errors
            invariant
                it.seq() == reply.errors@,
                failed == reply.errors.deep_view(),
                gone == (|e: ObjectErrorView|
                    if is_gone(e) {
                        Some(error_key(e))
                    } else {
                        None
                    }),
                bad == (|e: ObjectErrorView|
                    if is_gone(e) {
                        None
                    } else {
                        Some(per_key_failure(e))
                    }),
                succeeded.deep_view() == middle + failed.take(it.index()).filter_map(gone),
                errors.deep_view() == before.errors + failed.take(it.index()).filter_map(bad),
        {
            let ghost so_far = succeeded.deep_view();
            let ghost so_bad = errors.deep_view();
            let ghost i = it.index();
            proof {
                failed.lemma_filter_map_take_succ(gone, i);
                failed.lemma_filter_map_take_succ(bad, i);
                assert(failed[i] == error.deep_view());
            }
            match classify(error) {
                Ok(key) => {
                    succeeded.push(key);
                    assert(succeeded.deep_view() =~= so_far.push(key@));
                },
                Err(e) => {
                    errors.push(e);
                    assert(errors.deep_view() =~= so_bad.push(e@));
                },
            }
            assert(succeeded.deep_view() =~= middle + failed.take(i + 1).filter_map(gone));
            assert(errors.deep_view() =~= before.errors + failed.take(i + 1).filter_map(bad));
        }
        assert(failed.take(failed.len() as int) =~= failed);
        let rest = DeleteRest {
            bucket: self.rest.bucket,
            pending: self.rest.pending,
            succeeded,
            errors,
        };
        assert(rest@ =~= (DeleteRestView {
            succeeded: before.succeeded + deleted_keys(reply@),
            errors: before.errors + failed_keys(reply@),
            ..before
        }));
        rest.next()
    }
}

impl<C> S3BlobStore<C> {
    /// Begin a delete.
    pub fn delete(&self, keys: Vec<String>) -> (r: DeleteStep)
        ensures
            r@ == begin(self.bucket(), keys.deep_view()),
    {
        match validate_blob_keys(&keys) {
            Err(e) => DeleteStep::Done(Err(e)),
            Ok(()) => {
                let rest = DeleteRest {
                    bucket: self.bucket_name().to_owned(),
                    pending: order::queue_of(keys),
                    succeeded: Vec::new(),
                    errors: Vec::new(),
                };
                assert(rest@ =~= (DeleteRestView {
                    bucket: self.bucket(),
                    pending: keys.deep_view(),
                    succeeded: seq![],
                    errors: seq![],
                }));
                rest.next()
            },
        }
    }
}

} // verus!
