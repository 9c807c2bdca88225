//! The batch error of a put that ends at a blob.

use vstd::prelude::*;

use crate::error::BatchError;
use crate::error::BatchErrorView;
use crate::error::BlobStorageError;
use crate::error::ErrorView;
use crate::error::KeyError;
use crate::error::KeyErrorView;
use crate::error::PerKeyError;
use crate::error::PerKeyErrorView;
use crate::order;
use crate::text;
use crate::types::BlobMeta;
use crate::types::BlobMetaView;

verus! {

/// The error of a put that ends at the blob under `key`: the blobs before it have
/// been stored, and it has failed.
pub open spec fn ended_at(
    stored: Seq<BlobMetaView>,
    key: Seq<char>,
    error: PerKeyErrorView,
) -> ErrorView {
    ErrorView::Batch(
        BatchErrorView {
            succeeded: order::keys_of(stored),
            errors: seq![KeyErrorView { key, error }],
        },
    )
}

/// A message, followed by the outermost cause where there is one.
pub open spec fn with_cause(message: Seq<char>, source: Option<Seq<Seq<char>>>) -> Seq<char> {
    match source {
        Some(causes) => if causes.len() > 0 {
            message + ": "@ + causes[0]
        } else {
            message
        },
        None => message,
    }
}

/// The failure of one key, from the error of the operation on its blob.
pub open spec fn key_failure(e: ErrorView) -> PerKeyErrorView {
    match e {
        ErrorView::NotFound(_) => PerKeyErrorView::NotFound,
        ErrorView::PermissionDenied(m) => PerKeyErrorView::PermissionDenied(m),
        ErrorView::Storage { message, source } => PerKeyErrorView::Unknown {
            message: with_cause(message, source),
        },
        other => PerKeyErrorView::Unknown { message: other.text() },
    }
}

/// The error of a put whose blob under `key` failed with an error. One that
/// concerns the whole backend stays as it is, and so does one that accounts for
/// keys already.
pub open spec fn failed_at(stored: Seq<BlobMetaView>, key: Seq<char>, e: ErrorView) -> ErrorView {
    match e {
        ErrorView::BackendMisconfigured(_) => e,
        ErrorView::Batch(_) => e,
        _ => ended_at(stored, key, key_failure(e)),
    }
}

/// The keys of metadata.
fn keys_of_metas(metas: Vec<BlobMeta>) -> (r: Vec<String>)
    ensures
        r.deep_view() == order::keys_of(metas.deep_view()),
{
    let ghost all = metas.deep_view();
    let mut keys: Vec<String> = Vec::new();
    for meta in it: metas
        invariant
            it.seq() == metas@,
            all == metas.deep_view(),
            keys.deep_view() == order::keys_of(all.take(it.index())),
    {
        let ghost before = keys.deep_view();
        let ghost i = it.index();
        assert(all[i] == meta@);
        keys.push(meta.key);
        assert(keys.deep_view() =~= before.push(meta.key@));
        assert(keys.deep_view() =~= order::keys_of(all.take(i + 1)));
    }
    assert(all.take(all.len() as int) =~= all);
    keys
}

/// The error of a put that ends at a blob.
pub(crate) fn ended_put(stored: Vec<BlobMeta>, key: String, error: PerKeyError) -> (r:
    BlobStorageError)
    ensures
        r@ == ended_at(stored.deep_view(), key@, error@),
{
    let succeeded = keys_of_metas(stored);
    let mut errors: Vec<KeyError> = Vec::new();
    let failed = KeyError { key, error };
    errors.push(failed);
    assert(errors.deep_view() =~= seq![failed@]);
    BlobStorageError::Batch(BatchError { succeeded, errors })
}

/// A message, followed by the outermost cause where there is one.
pub(crate) fn caused_message(message: String, source: &Option<crate::error::ErrorSource>) -> (r:
    String)
    ensures
        r@ == with_cause(message@, crate::error::source_view(*source)),
{
    match source {
        Some(s) => if s.messages.len() > 0 {
            assert(s@[0] == s.messages[0]@);
            text::concat3(message.as_str(), ": ", s.messages[0].as_str())
        } else {
            message
        },
        None => message,
    }
}

/// The error of a put whose blob under `key` failed with an error.
pub(crate) fn failed_put(stored: Vec<BlobMeta>, key: String, e: BlobStorageError) -> (r:
    BlobStorageError)
    ensures
        r@ == failed_at(stored.deep_view(), key@, e@),
{
    let error = match e {
        BlobStorageError::BackendMisconfigured(_) => {
            return e;
        },
        BlobStorageError::Batch(_) => {
            return e;
        },
        BlobStorageError::NotFound(_) => PerKeyError::NotFound,
        BlobStorageError::PermissionDenied(m) => PerKeyError::PermissionDenied(m),
        BlobStorageError::Storage { message, source } => PerKeyError::Unknown {
            message: caused_message(message, &source),
        },
        other => PerKeyError::Unknown { message: other.to_string() },
    };
    ended_put(stored, key, error)
}

/// The batch error of a put that ends at a blob lists the blobs before it, in their
/// order, as stored, and this one blob as failed.
pub proof fn law_ended_put_accounts_for_its_blobs(
    stored: Seq<BlobMetaView>,
    key: Seq<char>,
    error: PerKeyErrorView,
)
    ensures
        ended_at(stored, key, error) matches ErrorView::Batch(batch) && {
            &&& batch.succeeded.len() == stored.len()
            &&& forall|i: int|
                0 <= i < stored.len() ==> #[trigger] batch.succeeded[i] == stored[i].key
            &&& batch.errors.len() == 1
            &&& batch.errors[0].key == key
            &&& batch.errors[0].error == error
        },
{
}

/// An error about the whole backend, and a batch error, end a put as they are. Every
/// other error becomes the failure of the blob: a missing blob and a refused access
/// stay what they are, a failure of the backend is told with its outermost cause, and
/// all others are told by their text.
pub proof fn law_failed_put_keeps_its_reason(
    stored: Seq<BlobMetaView>,
    key: Seq<char>,
    e: ErrorView,
)
    ensures
        e is BackendMisconfigured || e is Batch ==> failed_at(stored, key, e) == e,
        !(e is BackendMisconfigured || e is Batch) ==> failed_at(stored, key, e) == ended_at(
            stored,
            key,
            key_failure(e),
        ),
        e is NotFound <==> key_failure(e) is NotFound,
        e is PermissionDenied <==> key_failure(e) is PermissionDenied,
        e matches ErrorView::PermissionDenied(m) ==> key_failure(e)
            == PerKeyErrorView::PermissionDenied(m),
        e matches ErrorView::Storage { message, source } ==> {
            &&& source is None || source->0.len() == 0 ==> key_failure(e) == (
            PerKeyErrorView::Unknown { message })
            &&& source is Some && source->0.len() > 0 ==> key_failure(e) == (
            PerKeyErrorView::Unknown { message: message + ": "@ + source->0[0] })
        },
        !(e is NotFound || e is PermissionDenied || e is Storage) ==> key_failure(e) == (
        PerKeyErrorView::Unknown { message: e.text() }),
{
}

} // verus!
