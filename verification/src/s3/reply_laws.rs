//! The laws of the object store about what the service answers.

use vstd::prelude::*;

use crate::batch;
use crate::error::ErrorView;
use crate::error::IoFailure;
use crate::error::KeyErrorView;
use crate::error::PerKeyErrorView;
use crate::list_filter::ListFilter;
use crate::model;
use crate::s3;
use crate::s3::delete;
use crate::s3::delete::DeleteReplyView;
use crate::s3::delete::DeleteRestView;
use crate::s3::delete::DeleteStepView;
use crate::s3::delete::ObjectErrorView;
use crate::s3::listing;
use crate::s3::listing::PageRequestView;
use crate::s3::put;
use crate::s3::put::AwaitChunkView;
use crate::s3::put::PutRestView;
use crate::s3::put::PutStepView;
use crate::s3::upload;
use crate::s3::upload::UploadStepView;
use crate::s3::upload::UploadView;
use crate::s3::S3Failure;
use crate::s3::S3Object;
use crate::text;
use crate::timestamp::Timestamp;
use crate::types::BlobInputView;
use crate::types::BlobMetaView;
use crate::validate;

verus! {

/// Parts have at least 5 MiB, and 50 MiB unless another size is chosen; a request of a
/// delete names at most a thousand keys.
pub proof fn law_limits_of_the_service(pending: nat)
    ensures
        s3::MIN_MULTIPART_PART_SIZE == 5 * 1024 * 1024,
        s3::DEFAULT_MULTIPART_PART_SIZE == 50 * 1024 * 1024,
        delete::MAX_KEYS_PER_REQUEST == 1000,
        pending <= 1000 ==> delete::chunk_len(pending) == pending,
        pending > 1000 ==> delete::chunk_len(pending) == 1000,
{
}

/// The metadata of an object is what the service tells of it: the key that was asked
/// for, the size, the entity tag, and the time where the calendar represents it. A size
/// that is not told is zero, a time that is not told is the epoch.
pub proof fn law_metadata_of_an_object(key: Seq<char>, object: S3Object)
    ensures
        ({
            let meta = s3::object_meta(key, object);
            &&& meta.key == key
            &&& object.size is None ==> meta.stored_size == 0
            &&& object.size matches Some(n) ==> n >= 0 ==> meta.stored_size == n
            &&& object.size matches Some(n) ==> #[verifier::truncate] (meta.stored_size as i64) == n
            &&& object.etag is None ==> meta.etag is None
            &&& object.etag matches Some(t) ==> meta.etag == Some(t@)
            &&& object.last_modified is None ==> meta.modified_at.secs == 0
                && meta.modified_at.nanos == 0
            &&& object.last_modified matches Some(t) ==> -8_334_601_228_800 <= t.0
                <= 8_210_266_876_799 && t.1 < 1_000_000_000 ==> meta.modified_at.secs == t.0
                && meta.modified_at.nanos == t.1
            &&& object.last_modified matches Some(t) ==> t.0 < -8_334_601_228_800 || t.0
                > 8_210_266_876_799 || t.1 >= 2_000_000_000 ==> meta.modified_at.secs == 0
                && meta.modified_at.nanos == 0
        }),
{
    match object.size {
        Some(n) => {
            assert(#[verifier::truncate] ((#[verifier::truncate] (n as u64)) as i64) == n)
                by (bit_vector);
        },
        None => {},
    }
}

/// A page shows of each of its objects that has a key which the filter selects exactly
/// that object's metadata, and of the others nothing.
pub proof fn law_page_shows_the_objects<F: ListFilter>(filter: F, object: S3Object)
    ensures
        object.key is None ==> listing::selected(&filter, object) is None,
        object.key matches Some(k) ==> !filter.accepts(k@, None) ==> listing::selected(
            &filter,
            object,
        ) is None,
        object.key matches Some(k) ==> filter.accepts(k@, None) ==> listing::selected(
            &filter,
            object,
        ) == Some(s3::object_meta(k@, object)),
{
}

/// The page after one is asked for with its token, in the same bucket and under the
/// same prefix; there is none where it has no token. The prefix is the hint of the
/// filter, where it has one that is not empty.
pub proof fn law_next_page_follows_the_token(request: PageRequestView, text: Seq<char>)
    ensures
        listing::next_request(request, None) is None,
        listing::next_request(request, Some(text)) matches Some(next) && {
            &&& next.bucket == request.bucket
            &&& next.prefix == request.prefix
            &&& next.token == Some(text)
        },
        listing::request_prefix(None) is None,
        text.len() == 0 ==> listing::request_prefix(Some(text)) is None,
        text.len() > 0 ==> listing::request_prefix(Some(text)) == Some(text),
{
}

/// What a failed request means goes by its code: a missing bucket is a misconfigured
/// backend, whatever the request was. A missing object is a missing blob to a retrieval
/// and the answer to a check. Everything else is a failure of the backend that quotes
/// the key and keeps the cause.
pub proof fn law_failures_are_told_apart(
    bucket: Seq<char>,
    key: Seq<char>,
    failure: S3Failure,
    message: Seq<char>,
)
    ensures
        s3::misconfigured(failure) <==> failure.code is Some && failure.code->0@
            == "NoSuchBucket"@,
        s3::not_found(failure) <==> failure.code is Some && (failure.code->0@ == "NoSuchKey"@
            || failure.code->0@ == "NotFound"@),
        s3::not_found(failure) ==> !s3::misconfigured(failure),
        s3::bucket_error(bucket) == ErrorView::BackendMisconfigured(
            "S3 bucket '"@ + bucket + "' does not exist or is not accessible"@,
        ),
        s3::misconfigured(failure) ==> {
            &&& s3::request_failed(bucket, failure, message) == s3::bucket_error(bucket)
            &&& s3::get_failed(bucket, key, failure) == s3::bucket_error(bucket)
            &&& s3::head_outcome(bucket, key, Err(failure)) == Err::<bool, ErrorView>(
                s3::bucket_error(bucket),
            )
        },
        s3::not_found(failure) ==> {
            &&& s3::get_failed(bucket, key, failure) == ErrorView::NotFound(key)
            &&& s3::head_outcome(bucket, key, Err(failure)) == Ok::<bool, ErrorView>(false)
        },
        !s3::misconfigured(failure) ==> s3::request_failed(bucket, failure, message) == (
        ErrorView::Storage { message, source: Some(failure.source@) }),
        !s3::misconfigured(failure) && !s3::not_found(failure) ==> {
            &&& s3::get_failed(bucket, key, failure) == (ErrorView::Storage {
                message: "S3 get failed for key '"@ + key + "'"@,
                source: Some(failure.source@),
            })
            &&& s3::head_outcome(bucket, key, Err(failure)) == Err::<bool, ErrorView>(
                ErrorView::Storage {
                    message: "S3 head failed for key '"@ + key + "'"@,
                    source: Some(failure.source@),
                },
            )
        },
        s3::head_outcome(bucket, key, Ok(())) == Ok::<bool, ErrorView>(true),
{
    reveal_strlit("NoSuchKey");
    reveal_strlit("NotFound");
    reveal_strlit("NoSuchBucket");
    if s3::not_found(failure) {
        assert("NoSuchKey"@.len() != "NoSuchBucket"@.len());
        assert("NotFound"@.len() != "NoSuchBucket"@.len());
    }
}

/// An object that the service did not delete because it is gone counts as deleted. Any
/// other fails under its own key, and a refused access is told as such. The text is the
/// code, followed by the message where there is one.
pub proof fn law_undeleted_objects_fail(e: ObjectErrorView)
    ensures
        e.key matches Some(k) ==> delete::per_key_failure(e).key == k && delete::error_key(e) == k,
        e.key is None ==> delete::per_key_failure(e).key == "unknown"@ && delete::error_key(e)
            == "unknown"@,
        delete::is_gone(e) <==> e.code is Some && (e.code->0 == "NoSuchKey"@ || e.code->0
            == "NotFound"@),
        ({
            let code = if e.code is Some {
                e.code->0
            } else {
                "Unknown"@
            };
            let text = if e.message is Some && e.message->0.len() > 0 {
                code + ": "@ + e.message->0
            } else {
                code
            };
            &&& e.code == Some("AccessDenied"@) ==> delete::per_key_failure(e).error
                == PerKeyErrorView::PermissionDenied(text)
            &&& e.code != Some("AccessDenied"@) ==> delete::per_key_failure(e).error == (
            PerKeyErrorView::Unknown { message: text })
        }),
{
    reveal_strlit("NoSuchKey");
    reveal_strlit("NotFound");
    reveal_strlit("Unknown");
    reveal_strlit("AccessDenied");
    assert("Unknown"@.len() == 7);
    assert("NotFound"@.len() == 8);
    assert("NoSuchKey"@.len() == 9);
    assert("AccessDenied"@.len() == 12);
}

/// What mapping some of the elements gives, by its members.
proof fn lemma_filter_map_members<A, B>(s: Seq<A>, f: spec_fn(A) -> Option<B>, x: B)
    ensures
        s.filter_map(f).contains(x) <==> exists|i: int|
            0 <= i < s.len() && f(#[trigger] s[i]) == Some(x),
    decreases s.len(),
{
    if s.len() > 0 {
        let n = s.len() - 1;
        let first = s.drop_last();
        lemma_filter_map_members(first, f, x);
        s.lemma_filter_map_take_succ(f, n);
        assert(s.take(s.len() as int) =~= s);
        assert(s.take(n) =~= first);
        let kept = first.filter_map(f);
        let all = s.filter_map(f);
        if kept.contains(x) {
            let i = choose|i: int| 0 <= i < first.len() && f(#[trigger] first[i]) == Some(x);
            assert(s[i] == first[i]);
            let j = choose|j: int| 0 <= j < kept.len() && kept[j] == x;
            assert(all[j] == x);
        }
        if f(s[n]) == Some(x) {
            assert(all[kept.len() as int] == x);
        }
        if all.contains(x) && !kept.contains(x) {
            let j = choose|j: int| 0 <= j < all.len() && all[j] == x;
            if j < kept.len() {
                assert(kept[j] == x);
            }
            assert(f(s[n]) == Some(x));
        }
        if exists|i: int| 0 <= i < s.len() && f(#[trigger] s[i]) == Some(x) {
            let i = choose|i: int| 0 <= i < s.len() && f(#[trigger] s[i]) == Some(x);
            if i < n {
                assert(first[i] == s[i]);
            }
        }
    }
}

/// The keys that count as deleted according to a reply are those that the service says it
/// deleted and those that it says are gone; the failures are just the others that it
/// names.
pub proof fn law_reply_is_accounted_for(reply: DeleteReplyView, k: Seq<char>, f: KeyErrorView)
    ensures
        delete::deleted_keys(reply).contains(k) <==> reply.deleted.contains(Some(k)) || (exists|
            i: int,
        |
            0 <= i < reply.errors.len() && delete::is_gone(#[trigger] reply.errors[i])
                && delete::error_key(reply.errors[i]) == k),
        delete::failed_keys(reply).contains(f) <==> exists|i: int|
            0 <= i < reply.errors.len() && !delete::is_gone(#[trigger] reply.errors[i])
                && delete::per_key_failure(reply.errors[i]) == f,
{
    let named = |o: Option<Seq<char>>| o;
    let gone = |e: ObjectErrorView|
        if delete::is_gone(e) {
            Some(delete::error_key(e))
        } else {
            None
        };
    let failed = |e: ObjectErrorView|
        if delete::is_gone(e) {
            None
        } else {
            Some(delete::per_key_failure(e))
        };
    let a = reply.deleted.filter_map(named);
    let b = reply.errors.filter_map(gone);
    lemma_filter_map_members(reply.deleted, named, k);
    lemma_filter_map_members(reply.errors, gone, k);
    lemma_filter_map_members(reply.errors, failed, f);
    if a.contains(k) {
        let i = choose|i: int| 0 <= i < a.len() && a[i] == k;
        assert((a + b)[i] == k);
    }
    if b.contains(k) {
        let i = choose|i: int| 0 <= i < b.len() && b[i] == k;
        assert((a + b)[a.len() + i] == k);
        let j = choose|j: int| 0 <= j < reply.errors.len() && gone(#[trigger] reply.errors[j])
            == Some(k);
        assert(delete::is_gone(reply.errors[j]));
    }
    if (a + b).contains(k) {
        let i = choose|i: int| 0 <= i < (a + b).len() && (a + b)[i] == k;
        if i < a.len() {
            assert(a[i] == k);
        } else {
            assert(b[i - a.len()] == k);
        }
    }
    if reply.deleted.contains(Some(k)) {
        let i = choose|i: int| 0 <= i < reply.deleted.len() && reply.deleted[i] == Some(k);
        assert(named(reply.deleted[i]) == Some(k));
    }
    if exists|i: int|
        0 <= i < reply.errors.len() && delete::is_gone(#[trigger] reply.errors[i])
            && delete::error_key(reply.errors[i]) == k {
        let i = choose|i: int|
            0 <= i < reply.errors.len() && delete::is_gone(#[trigger] reply.errors[i])
                && delete::error_key(reply.errors[i]) == k;
        assert(gone(reply.errors[i]) == Some(k));
    }
    if exists|i: int|
        0 <= i < reply.errors.len() && !delete::is_gone(#[trigger] reply.errors[i])
            && delete::per_key_failure(reply.errors[i]) == f {
        let i = choose|i: int|
            0 <= i < reply.errors.len() && !delete::is_gone(#[trigger] reply.errors[i])
                && delete::per_key_failure(reply.errors[i]) == f;
        assert(failed(reply.errors[i]) == Some(f));
    }
    if delete::failed_keys(reply).contains(f) {
        let j = choose|j: int| 0 <= j < reply.errors.len() && failed(#[trigger] reply.errors[j])
            == Some(f);
        assert(!delete::is_gone(reply.errors[j]));
    }
}

/// A request that fails makes each of its keys fail with the same reason: the failure
/// with its outermost cause, as a refused access where the service says so.
pub proof fn law_failed_request_fails_its_keys(
    sent: Seq<Seq<char>>,
    failure: S3Failure,
    error: PerKeyErrorView,
)
    ensures
        delete::all_failed_with(sent, error).len() == sent.len(),
        forall|i: int|
            0 <= i < sent.len() ==> (#[trigger] delete::all_failed_with(sent, error)[i]).key
                == sent[i] && delete::all_failed_with(sent, error)[i].error == error,
        ({
            let text = if failure.source@.len() > 0 {
                "S3 batch delete failed"@ + ": "@ + failure.source@[0]
            } else {
                "S3 batch delete failed"@
            };
            &&& failure.code is Some && failure.code->0@ == "AccessDenied"@
                ==> delete::request_failure(failure) == PerKeyErrorView::PermissionDenied(text)
            &&& !(failure.code is Some && failure.code->0@ == "AccessDenied"@)
                ==> delete::request_failure(failure) == (PerKeyErrorView::Unknown { message: text })
        }),
{
}

/// A delete keeps what earlier requests came to and adds what the next one came to.
pub proof fn law_delete_accumulates(
    sent: Seq<Seq<char>>,
    rest: DeleteRestView,
    reply: DeleteReplyView,
    failure: S3Failure,
)
    requires
        rest.pending.len() > 0,
    ensures
        delete::after_deleted(sent, rest, Ok(reply)) matches DeleteStepView::DeleteObjects {
            keys,
            sent: named,
            rest: later,
        } && {
            &&& named == keys
            &&& keys + later.pending == rest.pending
            &&& later.bucket == rest.bucket
            &&& later.succeeded == rest.succeeded + delete::deleted_keys(reply)
            &&& later.errors == rest.errors + delete::failed_keys(reply)
        },
        !s3::misconfigured(failure) ==> (delete::after_deleted(
            sent,
            rest,
            Err(failure),
        ) matches DeleteStepView::DeleteObjects { keys, sent: named, rest: later } && {
            &&& named == keys
            &&& keys + later.pending == rest.pending
            &&& later.bucket == rest.bucket
            &&& later.succeeded == rest.succeeded
            &&& later.errors == rest.errors + delete::all_failed_with(
                sent,
                delete::request_failure(failure),
            )
        }),
{
    let n = delete::chunk_len(rest.pending.len());
    assert(rest.pending.take(n) + rest.pending.skip(n) =~= rest.pending);
}

/// A blob that one request stored is reported under its key with the size of its data,
/// the entity tag that the service gave it and the time of the answer; the report of a
/// blob that was uploaded in parts is passed on as it is. The put goes on with the next
/// blob. A refused request fails the blob.
pub proof fn law_stored_blobs_are_reported<D>(
    key: Seq<char>,
    size: u64,
    rest: PutRestView<D>,
    etag: Option<Seq<char>>,
    now: Timestamp,
    meta: BlobMetaView,
    e: ErrorView,
    failure: S3Failure,
)
    ensures
        put::after_object(key, size, rest, Ok(etag), now) == put::next_blob(
            PutRestView {
                bucket: rest.bucket,
                pending: rest.pending,
                metas: rest.metas + seq![
                    BlobMetaView { key, stored_size: size, modified_at: now, etag },
                ],
            },
        ),
        put::after_multipart(key, rest, Ok(meta)) == put::next_blob(
            PutRestView {
                bucket: rest.bucket,
                pending: rest.pending,
                metas: rest.metas + seq![meta],
            },
        ),
        put::after_multipart(key, rest, Err(e)) == PutStepView::<D>::Done(
            Err(batch::failed_at(rest.metas, key, e)),
        ),
        put::after_object(key, size, rest, Err(failure), now) == PutStepView::<D>::Done(
            Err(
                batch::failed_at(
                    rest.metas,
                    key,
                    s3::request_failed(
                        rest.bucket,
                        failure,
                        "S3 PutObject failed for key '"@ + key + "'"@,
                    ),
                ),
            ),
        ),
{
    let one = BlobMetaView { key, stored_size: size, modified_at: now, etag };
    assert(rest.metas.push(one) =~= rest.metas + seq![one]);
    assert(rest.metas.push(meta) =~= rest.metas + seq![meta]);
}

/// A put reads its blobs one by one and in order, each under its own key and from its
/// own data, and asks for no more than is needed to tell how the blob is to be stored.
/// An invalid key refuses it before anything is read. A blob that cannot be read fails
/// with the cause of it.
pub proof fn law_put_reads_its_blobs_in_order<D>(
    bucket: Seq<char>,
    blobs: Seq<BlobInputView<D>>,
    rest: PutRestView<D>,
    then: AwaitChunkView<D>,
    data: D,
    failure: IoFailure,
)
    ensures
        match validate::validation_of_all(validate::blob_keys(blobs)) {
            Err(e) => put::begin(bucket, blobs) == PutStepView::<D>::Done(Err(e)),
            Ok(()) => put::begin(bucket, blobs) == put::next_blob(
                PutRestView { bucket, pending: blobs, metas: seq![] },
            ),
        },
        rest.pending.len() == 0 ==> put::next_blob(rest) == PutStepView::<D>::Done(Ok(rest.metas)),
        rest.pending.len() > 0 ==> {
            &&& put::next_blob(rest) matches PutStepView::Read { data: d, limit, then: next }
            &&& d == rest.pending[0].data
            &&& limit == 5 * 1024 * 1024
            &&& next.key == rest.pending[0].key
            &&& next.lookahead.len() == 0
            &&& next.rest.bucket == rest.bucket
            &&& next.rest.metas == rest.metas
            &&& rest.pending == seq![rest.pending[0]] + next.rest.pending
        },
        put::after_chunk(then, data, Err(failure)) == PutStepView::<D>::Done(
            Err(
                batch::failed_at(
                    then.rest.metas,
                    then.key,
                    ErrorView::Storage {
                        message: "failed to read initial chunk for key '"@ + then.key + "'"@,
                        source: Some(failure.source_spec()),
                    },
                ),
            ),
        ),
{
    if rest.pending.len() > 0 {
        assert(rest.pending =~= seq![rest.pending[0]] + rest.pending.skip(1));
    }
}

/// An upload once the service has taken the first `n` parts and answered the `i`-th one
/// with `etags[i]`.
pub open spec fn run_parts(
    created: UploadView,
    bodies: Seq<Seq<u8>>,
    etags: Seq<Option<Seq<char>>>,
    n: nat,
) -> UploadView
    decreases n,
{
    if n == 0 {
        created
    } else {
        match upload::after_part(
            run_parts(created, bodies, etags, (n - 1) as nat),
            Ok(bodies[n - 1]),
        ) {
            UploadStepView::UploadPart { part_number, upload, .. } => match upload::after_uploaded(
                upload,
                part_number as i32,
                Ok(etags[n - 1]),
            ) {
                UploadStepView::ReadPart { upload: next, .. } => next,
                _ => arbitrary(),
            },
            _ => arbitrary(),
        }
    }
}

/// The number of bytes of the first `n` bodies.
pub open spec fn bytes_of(bodies: Seq<Seq<u8>>, n: nat) -> nat
    decreases n,
{
    if n == 0 {
        0
    } else {
        bytes_of(bodies, (n - 1) as nat) + bodies[n - 1].len()
    }
}

/// An upload sends every part to the key and the upload that it was created for, and
/// completes that upload with all of its parts: numbered from one in order, each with
/// the entity tag that the service gave for it, or none where it gave none. The size
/// that it reports is that of all parts together.
pub proof fn law_upload_completes_with_its_parts(
    bucket: Seq<char>,
    key: Seq<char>,
    part_size: u64,
    upload_id: Seq<char>,
    bodies: Seq<Seq<u8>>,
    etags: Seq<Option<Seq<char>>>,
    n: nat,
)
    requires
        n <= bodies.len(),
        etags.len() == bodies.len(),
        bodies.len() < i32::MAX,
        forall|i: int| 0 <= i < bodies.len() ==> (#[trigger] bodies[i]).len() > 0,
    ensures
        upload::after_created(bucket, key, part_size, Ok(Some(upload_id))) matches
            UploadStepView::ReadPart { limit, upload: created } && {
            let state = run_parts(created, bodies, etags, n);
            &&& limit == part_size
            &&& state.bucket == bucket && state.key == key && state.upload_id == upload_id
                && state.part_size == part_size
            &&& state.parts.len() == n
            &&& forall|i: int|
                0 <= i < n ==> {
                    &&& (#[trigger] state.parts[i]).part_number == i + 1
                    &&& etags[i] is Some ==> state.parts[i].etag == etags[i]->0
                    &&& etags[i] is None ==> state.parts[i].etag.len() == 0
                }
            &&& upload::after_part(state, Ok(seq![])) == (UploadStepView::Complete {
                key,
                upload_id,
                parts: state.parts,
                bucket,
                total: bytes_of(bodies, n) as int,
            })
            &&& n < bodies.len() ==> (upload::after_part(
                state,
                Ok(bodies[n as int]),
            ) matches UploadStepView::UploadPart {
                key: k,
                upload_id: id,
                part_number,
                body,
                upload: u,
            } && {
                &&& k == key
                &&& id == upload_id
                &&& part_number == n + 1
                &&& body == bodies[n as int]
                &&& upload::after_uploaded(u, part_number as i32, Ok(etags[n as int])) matches
                    UploadStepView::ReadPart { limit: next_limit, .. } && next_limit == part_size
            })
        },
    decreases n,
{
    if n > 0 {
        law_upload_completes_with_its_parts(
            bucket,
            key,
            part_size,
            upload_id,
            bodies,
            etags,
            (n - 1) as nat,
        );
    }
}

/// An upload that the service refuses to create, and one for which it gives no id, ends
/// there. One that it refuses to complete ends with a failure of the backend; one that it
/// completes is reported with its key, its size, the entity tag that the service gave
/// and the time of the answer. A part that cannot be read or that is refused aborts the
/// upload with the reason of it.
pub proof fn law_upload_failures(
    bucket: Seq<char>,
    key: Seq<char>,
    part_size: u64,
    total: u64,
    etag: Option<Seq<char>>,
    now: Timestamp,
    failure: S3Failure,
    io: IoFailure,
    upload: UploadView,
    part_number: i32,
)
    ensures
        upload::after_created(bucket, key, part_size, Err(failure)) == UploadStepView::Done(
            Err(
                s3::request_failed(
                    bucket,
                    failure,
                    "S3 CreateMultipartUpload failed for key '"@ + key + "'"@,
                ),
            ),
        ),
        upload::after_created(bucket, key, part_size, Ok(None)) == UploadStepView::Done(
            Err(
                ErrorView::Storage {
                    message: "Missing upload_id in CreateMultipartUpload response for key '"@ + key
                        + "'"@,
                    source: None,
                },
            ),
        ),
        upload::after_completed(bucket, key, total, Err(failure), now) == UploadStepView::Done(
            Err(
                s3::request_failed(
                    bucket,
                    failure,
                    "S3 CompleteMultipartUpload failed for key '"@ + key + "'"@,
                ),
            ),
        ),
        upload::after_completed(bucket, key, total, Ok(etag), now) == UploadStepView::Done(
            Ok(BlobMetaView { key, stored_size: total, modified_at: now, etag }),
        ),
        upload::after_part(upload, Err(io)) == (UploadStepView::Abort {
            key: upload.key,
            upload_id: upload.upload_id,
            error: ErrorView::Storage {
                message: "failed to read blob data for key '"@ + upload.key + "'"@,
                source: Some(io.source_spec()),
            },
        }),
        upload::after_uploaded(upload, part_number, Err(failure)) == (UploadStepView::Abort {
            key: upload.key,
            upload_id: upload.upload_id,
            error: s3::request_failed(
                upload.bucket,
                failure,
                "S3 UploadPart failed for key '"@ + upload.key + "' (part "@ + text::decimal(
                    part_number as nat,
                ) + ", upload_id "@ + upload.upload_id + ")"@,
            ),
        }),
{
}

/// What was read or answered is taken as it is.
pub proof fn law_replies_are_faithful(
    text: core::result::Result<Option<String>, S3Failure>,
    bytes: core::result::Result<Vec<u8>, IoFailure>,
    reply: core::result::Result<delete::DeleteReply, S3Failure>,
)
    ensures
        text matches Ok(None) ==> upload::text_reply_view(text) == Ok::<
            Option<Seq<char>>,
            S3Failure,
        >(None),
        text matches Ok(Some(t)) ==> upload::text_reply_view(text) == Ok::<
            Option<Seq<char>>,
            S3Failure,
        >(Some(t@)),
        text matches Err(f) ==> upload::text_reply_view(text) == Err::<Option<Seq<char>>, S3Failure>(
            f,
        ),
        bytes matches Ok(b) ==> upload::bytes_reply_view(bytes) == Ok::<Seq<u8>, IoFailure>(b@),
        bytes matches Err(f) ==> upload::bytes_reply_view(bytes) == Err::<Seq<u8>, IoFailure>(f),
        reply matches Ok(r) ==> delete::reply_view(reply) == Ok::<DeleteReplyView, S3Failure>(r@),
        reply matches Err(f) ==> delete::reply_view(reply) == Err::<DeleteReplyView, S3Failure>(f),
{
}

/// The steps of an operation ask for just what their mathematical values say.
pub proof fn law_steps_are_taken_as_they_are<D>(
    put: put::PutStep<D>,
    delete: delete::DeleteStep,
    step: upload::UploadStep,
    v: UploadStepView,
)
    ensures
        match put {
            put::PutStep::Read { data, limit, then } => put@ == (PutStepView::Read {
                data,
                limit: limit as int,
                then: then@,
            }),
            put::PutStep::PutObject { key, body, then } => put@ == (PutStepView::PutObject {
                key: key@,
                body: crate::buffer::frozen(body),
                then_key: then.key@,
                size: then.size as int,
                rest: then.rest@,
            }),
            put::PutStep::Multipart { key, lookahead, data, then } => put@ == (
            PutStepView::Multipart {
                key: key@,
                lookahead: crate::buffer::frozen(lookahead),
                data,
                then_key: then.key@,
                rest: then.rest@,
            }),
            put::PutStep::Done(Ok(p)) => put@ == PutStepView::<D>::Done(Ok(p@)),
            put::PutStep::Done(Err(e)) => put@ == PutStepView::<D>::Done(Err(e@)),
        },
        match delete {
            delete::DeleteStep::DeleteObjects { keys, then } => delete@ == (
            DeleteStepView::DeleteObjects {
                keys: keys.deep_view(),
                sent: then.sent.deep_view(),
                rest: then.rest@,
            }),
            delete::DeleteStep::Done(Ok(())) => delete@ == DeleteStepView::Done(Ok(())),
            delete::DeleteStep::Done(Err(e)) => delete@ == DeleteStepView::Done(Err(e@)),
        },
        step.realizes(v) ==> match step {
            upload::UploadStep::Create { key, then } => then.key@ == key@ && v == (
            UploadStepView::Create {
                key: key@,
                bucket: then.bucket@,
                part_size: then.part_size,
            }),
            upload::UploadStep::ReadPart { limit, then } => v == (UploadStepView::ReadPart {
                limit,
                upload: then.upload@,
            }),
            upload::UploadStep::UploadPart { key, upload_id, part_number, body, then } => {
                &&& then.part_number == part_number
                &&& v == (UploadStepView::UploadPart {
                    key: key@,
                    upload_id: upload_id@,
                    part_number: part_number as int,
                    body: body@,
                    upload: then.upload@,
                })
            },
            upload::UploadStep::Complete { key, upload_id, parts, then } => {
                &&& then.key@ == key@
                &&& v == (UploadStepView::Complete {
                    key: key@,
                    upload_id: upload_id@,
                    parts: parts.deep_view(),
                    bucket: then.bucket@,
                    total: then.total as int,
                })
            },
            upload::UploadStep::Abort { key, upload_id, then } => v == (UploadStepView::Abort {
                key: key@,
                upload_id: upload_id@,
                error: then.error@,
            }),
            upload::UploadStep::Done(Ok(meta)) => v == UploadStepView::Done(Ok(meta@)),
            upload::UploadStep::Done(Err(e)) => v == UploadStepView::Done(Err(e@)),
        },
{
}

/// What the service and the reader gave, and the request for a page, are taken as they
/// are, field by field.
pub proof fn law_answers_are_taken_as_they_are(
    request: listing::PageRequest,
    reply: delete::DeleteReply,
    part: upload::UploadedPart,
    chunk: &[u8],
    failure: IoFailure,
)
    ensures
        listing::request_view(None) is None,
        listing::request_view(Some(request)) == Some(request@),
        request@.bucket == request.bucket@,
        request@.prefix is Some <==> request.prefix is Some,
        request.prefix matches Some(p) ==> request@.prefix == Some(p@),
        request@.token is Some <==> request.token is Some,
        request.token matches Some(t) ==> request@.token == Some(t@),
        put::chunk_view(Ok(chunk)) == Ok::<Seq<u8>, IoFailure>(chunk@),
        put::chunk_view(Err(failure)) == Err::<Seq<u8>, IoFailure>(failure),
        part.deep_view().part_number == part.part_number,
        part.deep_view().etag == part.etag@,
        reply@.deleted.len() == reply.deleted.len(),
        forall|i: int|
            0 <= i < reply.deleted.len() ==> {
                &&& (#[trigger] reply@.deleted[i]) is Some <==> reply.deleted[i] is Some
                &&& reply.deleted[i] matches Some(k) ==> reply@.deleted[i] == Some(k@)
            },
        reply@.errors.len() == reply.errors.len(),
        forall|i: int|
            0 <= i < reply.errors.len() ==> {
                let e = #[trigger] reply@.errors[i];
                &&& e.key is Some <==> reply.errors[i].key is Some
                &&& reply.errors[i].key matches Some(k) ==> e.key == Some(k@)
                &&& e.code is Some <==> reply.errors[i].code is Some
                &&& reply.errors[i].code matches Some(c) ==> e.code == Some(c@)
                &&& e.message is Some <==> reply.errors[i].message is Some
                &&& reply.errors[i].message matches Some(m) ==> e.message == Some(m@)
            },
{
}

/// Pages and replies are decided entry by entry: an entry at the end is kept there or
/// left out, and changes nothing about those before it.
pub proof fn law_entries_are_decided_one_by_one<F: ListFilter>(
    filter: F,
    objects: Seq<S3Object>,
    object: S3Object,
    deleted: Seq<Option<Seq<char>>>,
    key: Option<Seq<char>>,
    errors: Seq<ObjectErrorView>,
    e: ObjectErrorView,
)
    ensures
        listing::selection(&filter, seq![]).len() == 0,
        listing::selection(&filter, objects.push(object)) == match listing::selected(
            &filter,
            object,
        ) {
            Some(meta) => listing::selection(&filter, objects).push(meta),
            None => listing::selection(&filter, objects),
        },
        ({
            let reply = DeleteReplyView { deleted, errors };
            let none = DeleteReplyView { deleted, errors: seq![] };
            let one_more = DeleteReplyView { deleted: deleted.push(key), errors: seq![] };
            let failed = DeleteReplyView { deleted, errors: errors.push(e) };
            &&& delete::failed_keys(none).len() == 0
            &&& delete::deleted_keys(one_more) == if key is Some {
                delete::deleted_keys(none).push(key->0)
            } else {
                delete::deleted_keys(none)
            }
            &&& delete::is_gone(e) ==> {
                &&& delete::deleted_keys(failed) == delete::deleted_keys(reply).push(
                    delete::error_key(e),
                )
                &&& delete::failed_keys(failed) == delete::failed_keys(reply)
            }
            &&& !delete::is_gone(e) ==> {
                &&& delete::deleted_keys(failed) == delete::deleted_keys(reply)
                &&& delete::failed_keys(failed) == delete::failed_keys(reply).push(
                    delete::per_key_failure(e),
                )
            }
        }),
        delete::deleted_keys(DeleteReplyView { deleted: seq![], errors: seq![] }).len() == 0,
{
    let pick = |o: S3Object| listing::selected(&filter, o);
    let named = |o: Option<Seq<char>>| o;
    let gone = |e: ObjectErrorView|
        if delete::is_gone(e) {
            Some(delete::error_key(e))
        } else {
            None
        };
    let failed = |e: ObjectErrorView|
        if delete::is_gone(e) {
            None
        } else {
            Some(delete::per_key_failure(e))
        };
    model::lemma_filter_map_push(objects, pick, object);
    model::lemma_filter_map_push(deleted, named, key);
    model::lemma_filter_map_push(errors, gone, e);
    model::lemma_filter_map_push(errors, failed, e);
    let a = deleted.filter_map(named);
    let b = errors.filter_map(gone);
    let nothing = Seq::<ObjectErrorView>::empty().filter_map(gone);
    assert(nothing =~= seq![]);
    if key is Some {
        assert(a.push(key->0) + nothing =~= (a + nothing).push(key->0));
    }
    if delete::is_gone(e) {
        assert(a + b.push(delete::error_key(e)) =~= (a + b).push(delete::error_key(e)));
    }
}

} // verus!
