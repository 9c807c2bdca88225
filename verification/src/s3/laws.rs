//! The laws of the object store.

use vstd::prelude::*;

use crate::blob_store;
use crate::blob_store::VisitStep;
use crate::error;
use crate::error::BatchErrorView;
use crate::error::ErrorView;
use crate::error::KeyErrorView;
use crate::list_filter;
use crate::list_filter::ListFilter;
use crate::model;
use crate::model::Contents;
use crate::order;
use crate::s3;
use crate::s3::delete;
use crate::s3::delete::DeleteReplyView;
use crate::s3::delete::DeleteRestView;
use crate::s3::delete::DeleteStepView;
use crate::s3::listing;
use crate::s3::listing::PageRequestView;
use crate::s3::put;
use crate::s3::put::AwaitChunkView;
use crate::s3::put::PutRestView;
use crate::s3::put::PutStepView;
use crate::s3::upload;
use crate::s3::upload::UploadStepView;
use crate::s3::upload::UploadView;
use crate::s3::S3Object;
use crate::s3::MIN_MULTIPART_PART_SIZE;
use crate::timestamp::Timestamp;
use crate::types::BlobInputView;
use crate::types::BlobMetaView;
use crate::validate;

verus! {

/// The step that a put comes to by reading a blob in the given chunks, and the
/// chunks that are left then. No chunk means the end of the blob.
pub open spec fn run_lookahead<D>(
    step: PutStepView<D>,
    chunks: Seq<Seq<u8>>,
) -> (PutStepView<D>, Seq<Seq<u8>>)
    decreases chunks.len(),
{
    match step {
        PutStepView::Read { data, then, .. } => if chunks.len() == 0 {
            (put::after_chunk(then, data, Ok(seq![])), chunks)
        } else {
            run_lookahead(put::after_chunk(then, data, Ok(chunks[0])), chunks.skip(1))
        },
        _ => (step, chunks),
    }
}

/// However a blob is read, it is stored by a single request exactly when it is
/// smaller than 5 MiB, and then with all its data. A larger blob is uploaded in
/// parts: what was read ahead, at least 5 MiB, followed by what is left, is the
/// blob.
pub proof fn law_single_request_for_small_blobs<D>(
    then: AwaitChunkView<D>,
    data: D,
    limit: int,
    chunks: Seq<Seq<u8>>,
)
    requires
        then.lookahead.len() < MIN_MULTIPART_PART_SIZE,
        forall|i: int| 0 <= i < chunks.len() ==> (#[trigger] chunks[i]).len() > 0,
    ensures
        ({
            let blob = then.lookahead + model::joined(chunks);
            let (step, left) = run_lookahead(PutStepView::Read { data, limit, then }, chunks);
            if blob.len() < MIN_MULTIPART_PART_SIZE {
                step == (PutStepView::PutObject {
                    key: then.key,
                    body: blob,
                    then_key: then.key,
                    size: blob.len() as int,
                    rest: then.rest,
                })
            } else {
                &&& step matches PutStepView::Multipart { key, lookahead, data: d, then_key, rest }
                &&& then_key == then.key
                &&& key == then.key
                &&& d == data
                &&& rest == then.rest
                &&& lookahead.len() >= MIN_MULTIPART_PART_SIZE
                &&& lookahead + model::joined(left) == blob
            }
        }),
    decreases chunks.len(),
{
    let blob = then.lookahead + model::joined(chunks);
    if chunks.len() == 0 {
        assert(blob =~= then.lookahead);
    } else {
        let longer = then.lookahead + chunks[0];
        let left = chunks.skip(1);
        assert(blob =~= longer + model::joined(left));
        if longer.len() < MIN_MULTIPART_PART_SIZE {
            let then2 = AwaitChunkView { lookahead: longer, ..then };
            assert forall|i: int| 0 <= i < left.len() implies (#[trigger] left[i]).len() > 0 by {
                assert(left[i] == chunks[i + 1]);
            }
            law_single_request_for_small_blobs(
                then2,
                data,
                MIN_MULTIPART_PART_SIZE - longer.len(),
                left,
            );
        } else {
            let step = PutStepView::Multipart {
                key: then.key,
                lookahead: longer,
                data,
                then_key: then.key,
                rest: then.rest,
            };
            assert(run_lookahead(PutStepView::Read { data, limit, then }, chunks) == run_lookahead(
                step,
                left,
            ));
        }
    }
}

/// The bodies of the parts that an upload sends, and what it ends with, when the
/// service takes everything. `data` is what is left to read, `tags` what the
/// service calls the parts.
pub open spec fn run_upload(
    step: UploadStepView,
    data: Seq<u8>,
    tags: spec_fn(int) -> Option<Seq<char>>,
    now: Timestamp,
    fuel: nat,
) -> (Seq<Seq<u8>>, Option<core::result::Result<BlobMetaView, ErrorView>>)
    decreases fuel,
{
    if fuel == 0 {
        (seq![], None)
    } else {
        let left = (fuel - 1) as nat;
        match step {
            UploadStepView::ReadPart { limit, upload } => {
                let n = if data.len() < limit {
                    data.len() as int
                } else {
                    limit as int
                };
                run_upload(
                    upload::after_part(upload, Ok(data.take(n))),
                    data.skip(n),
                    tags,
                    now,
                    left,
                )
            },
            UploadStepView::UploadPart { part_number, body, upload, .. } => {
                let (bodies, end) = run_upload(
                    upload::after_uploaded(upload, part_number as i32, Ok(tags(part_number))),
                    data,
                    tags,
                    now,
                    left,
                );
                (seq![body] + bodies, end)
            },
            UploadStepView::Complete { key, bucket, total, .. } => run_upload(
                upload::after_completed(bucket, key, total as u64, Ok(tags(0)), now),
                data,
                tags,
                now,
                left,
            ),
            UploadStepView::Done(r) => (seq![], Some(r)),
            _ => (seq![], None),
        }
    }
}

/// The number of parts of the given size that hold so many bytes.
pub open spec fn part_count(len: nat, part_size: nat) -> nat
    decreases len,
{
    if part_size == 0 || len == 0 {
        0
    } else if len <= part_size {
        1
    } else {
        1 + part_count((len - part_size) as nat, part_size)
    }
}

/// An upload loses nothing and changes nothing: the parts, one after the other,
/// are the data. Every part has the part size, save for the last one, which may
/// be shorter; none is empty. The reported size is that of the data.
pub proof fn law_parts_make_up_the_blob(
    upload: UploadView,
    data: Seq<u8>,
    tags: spec_fn(int) -> Option<Seq<char>>,
    now: Timestamp,
    fuel: nat,
)
    requires
        upload.part_size >= MIN_MULTIPART_PART_SIZE,
        upload.total + data.len() <= u64::MAX,
        upload.total >= 0,
        fuel >= 2 * part_count(data.len(), upload.part_size as nat) + 3,
    ensures
        ({
            let (bodies, end) = run_upload(
                UploadStepView::ReadPart { limit: upload.part_size, upload },
                data,
                tags,
                now,
                fuel,
            );
            &&& model::joined(bodies) == data
            &&& bodies.len() == part_count(data.len(), upload.part_size as nat)
            &&& forall|i: int|
                0 <= i < bodies.len() ==> 0 < (#[trigger] bodies[i]).len() <= upload.part_size
            &&& forall|i: int|
                0 <= i < bodies.len() - 1 ==> (#[trigger] bodies[i]).len() == upload.part_size
            &&& end matches Some(Ok(meta))
            &&& meta.key == upload.key
            &&& meta.stored_size == upload.total + data.len()
            &&& meta.modified_at == now
        }),
    decreases data.len(),
{
    let step = UploadStepView::ReadPart { limit: upload.part_size, upload };
    let size = upload.part_size as int;
    if data.len() == 0 {
        assert(data.take(0) =~= data);
        let complete = upload::after_part(upload, Ok(data));
        let done = upload::after_completed(
            upload.bucket,
            upload.key,
            upload.total as u64,
            Ok(tags(0)),
            now,
        );
        assert(run_upload(step, data, tags, now, fuel) == run_upload(
            complete,
            data.skip(0),
            tags,
            now,
            (fuel - 1) as nat,
        ));
        assert(run_upload(complete, data.skip(0), tags, now, (fuel - 1) as nat) == run_upload(
            done,
            data.skip(0),
            tags,
            now,
            (fuel - 2) as nat,
        ));
        assert(model::joined(Seq::<Seq<u8>>::empty()) =~= data);
    } else {
        let n = if data.len() < upload.part_size {
            data.len() as int
        } else {
            size
        };
        let body = data.take(n);
        let left = data.skip(n);
        let upload1 = UploadView { total: upload.total + n, ..upload };
        let number = upload.parts.len() as int + 1;
        let send = upload::after_part(upload, Ok(body));
        let next = upload::after_uploaded(upload1, number as i32, Ok(tags(number)));
        let upload2 = next->ReadPart_upload;
        assert(next == UploadStepView::ReadPart { limit: upload.part_size, upload: upload2 });
        assert(run_upload(step, data, tags, now, fuel) == run_upload(
            send,
            left,
            tags,
            now,
            (fuel - 1) as nat,
        ));
        let rest = run_upload(next, left, tags, now, (fuel - 2) as nat);
        let all = run_upload(send, left, tags, now, (fuel - 1) as nat);
        assert(all == (seq![body] + rest.0, rest.1));
        assert(part_count(data.len(), upload.part_size as nat) == 1 + part_count(
            left.len(),
            upload.part_size as nat,
        ));
        law_parts_make_up_the_blob(upload2, left, tags, now, (fuel - 2) as nat);
        assert(all.0.skip(1) =~= rest.0);
        assert(model::joined(all.0) =~= body + model::joined(rest.0));
        assert(body + left =~= data);
        assert forall|i: int| 0 <= i < all.0.len() implies 0 < (#[trigger] all.0[i]).len()
            <= upload.part_size by {
            if i > 0 {
                assert(all.0[i] == rest.0[i - 1]);
            }
        }
        assert forall|i: int| 0 <= i < all.0.len() - 1 implies (#[trigger] all.0[i]).len()
            == upload.part_size by {
            if i > 0 {
                assert(all.0[i] == rest.0[i - 1]);
            } else {
                assert(left.len() > 0);
            }
        }
    }
}

/// Whatever the size of a blob and however it is read, what is stored under its
/// key is the blob: the body of the single request, or the parts of the upload,
/// one after the other.
pub proof fn law_stored_object_is_the_blob<D>(
    key: Seq<char>,
    data: D,
    rest: PutRestView<D>,
    chunks: Seq<Seq<u8>>,
    part_size: u64,
    upload_id: Seq<char>,
    tags: spec_fn(int) -> Option<Seq<char>>,
    now: Timestamp,
    fuel: nat,
)
    requires
        forall|i: int| 0 <= i < chunks.len() ==> (#[trigger] chunks[i]).len() > 0,
        part_size >= MIN_MULTIPART_PART_SIZE,
        model::joined(chunks).len() <= u64::MAX,
        fuel >= 2 * part_count(model::joined(chunks).len(), part_size as nat) + 3,
    ensures
        ({
            let first = PutStepView::Read {
                data,
                limit: MIN_MULTIPART_PART_SIZE as int,
                then: AwaitChunkView { key, lookahead: seq![], rest },
            };
            let (step, left) = run_lookahead(first, chunks);
            match step {
                PutStepView::PutObject { key: k, body, size, .. } => {
                    &&& k == key
                    &&& body == model::joined(chunks)
                    &&& size == model::joined(chunks).len()
                },
                PutStepView::Multipart { key: k, lookahead, .. } => {
                    let (bodies, end) = run_upload(
                        upload::after_created(rest.bucket, k, part_size, Ok(Some(upload_id))),
                        lookahead + model::joined(left),
                        tags,
                        now,
                        fuel,
                    );
                    &&& k == key
                    &&& model::joined(bodies) == model::joined(chunks)
                    &&& end matches Some(Ok(meta))
                    &&& meta.key == key
                    &&& meta.stored_size == model::joined(chunks).len()
                },
                _ => false,
            }
        }),
{
    let then = AwaitChunkView { key, lookahead: seq![], rest };
    assert(then.lookahead + model::joined(chunks) =~= model::joined(chunks));
    law_single_request_for_small_blobs(then, data, MIN_MULTIPART_PART_SIZE as int, chunks);
    let upload = UploadView {
        bucket: rest.bucket,
        key,
        upload_id,
        part_size,
        parts: seq![],
        total: 0,
    };
    law_parts_make_up_the_blob(upload, model::joined(chunks), tags, now, fuel);
}

/// A service that takes everything: what it calls uploads and parts, and the time
/// at which it answers. Parts have the given size.
pub struct Service {
    pub part_size: u64,
    pub upload_id: Seq<char>,
    pub tags: spec_fn(int) -> Option<Seq<char>>,
    pub now: Timestamp,
}

/// What a put does next, and the objects of the bucket, once the blob that is to
/// be read has been stored. The blob comes in the given chunks.
pub open spec fn run_blob(
    step: PutStepView<Seq<Seq<u8>>>,
    chunks: Seq<Seq<u8>>,
    objects: Contents,
    service: Service,
) -> (PutStepView<Seq<Seq<u8>>>, Contents) {
    let (next, left) = run_lookahead(step, chunks);
    match next {
        PutStepView::PutObject { key, body, then_key, size, rest } => (
            put::after_object(then_key, size as u64, rest, Ok((service.tags)(0)), service.now),
            objects.insert(key, body),
        ),
        PutStepView::Multipart { key, lookahead, then_key, rest, .. } => {
            let data = lookahead + model::joined(left);
            let (bodies, end) = run_upload(
                upload::after_created(
                    rest.bucket,
                    key,
                    service.part_size,
                    Ok(Some(service.upload_id)),
                ),
                data,
                service.tags,
                service.now,
                2 * part_count(data.len(), service.part_size as nat) + 3,
            );
            match end {
                Some(Ok(meta)) => (
                    put::after_multipart(then_key, rest, Ok(meta)),
                    objects.insert(key, model::joined(bodies)),
                ),
                Some(Err(e)) => (put::after_multipart(then_key, rest, Err(e)), objects),
                None => (next, objects),
            }
        },
        _ => (next, objects),
    }
}

/// The objects of the bucket, and the result, once a put has run to its end. The
/// data of a blob is the chunks in which it is read.
pub open spec fn run_put(
    step: PutStepView<Seq<Seq<u8>>>,
    objects: Contents,
    service: Service,
    fuel: nat,
) -> (Contents, Option<core::result::Result<Seq<BlobMetaView>, ErrorView>>)
    decreases fuel,
{
    match step {
        PutStepView::Done(r) => (objects, Some(r)),
        PutStepView::Read { data, .. } => if fuel == 0 {
            (objects, None)
        } else {
            let (next, after) = run_blob(step, data, objects, service);
            run_put(next, after, service, (fuel - 1) as nat)
        },
        _ => (objects, None),
    }
}

/// Blobs with their chunks put together.
pub open spec fn whole(blobs: Seq<BlobInputView<Seq<Seq<u8>>>>) -> Seq<BlobInputView<Seq<u8>>> {
    blobs.map_values(
        |b: BlobInputView<Seq<Seq<u8>>>|
            BlobInputView { key: b.key, data: model::joined(b.data), size_hint: b.size_hint },
    )
}

/// Whether the data of a blob can be read: no chunk is empty, and its size can be
/// told.
pub open spec fn readable(chunks: Seq<Seq<u8>>) -> bool {
    &&& forall|i: int| 0 <= i < chunks.len() ==> (#[trigger] chunks[i]).len() > 0
    &&& model::joined(chunks).len() <= u64::MAX
}

/// Storing one blob adds its data under its key, and its metadata to the result.
proof fn lemma_run_blob(
    key: Seq<char>,
    chunks: Seq<Seq<u8>>,
    rest: PutRestView<Seq<Seq<u8>>>,
    objects: Contents,
    service: Service,
) -> (meta: BlobMetaView)
    requires
        service.part_size >= MIN_MULTIPART_PART_SIZE,
        readable(chunks),
    ensures
        run_blob(
            PutStepView::Read {
                data: chunks,
                limit: MIN_MULTIPART_PART_SIZE as int,
                then: AwaitChunkView { key, lookahead: seq![], rest },
            },
            chunks,
            objects,
            service,
        ) == (
            put::next_blob(PutRestView { metas: rest.metas.push(meta), ..rest }),
            objects.insert(key, model::joined(chunks)),
        ),
        meta.key == key,
        meta.stored_size == model::joined(chunks).len(),
        meta.modified_at == service.now,
{
    let blob = model::joined(chunks);
    let then = AwaitChunkView { key, lookahead: seq![], rest };
    let step = PutStepView::Read { data: chunks, limit: MIN_MULTIPART_PART_SIZE as int, then };
    assert(then.lookahead + blob =~= blob);
    law_single_request_for_small_blobs(then, chunks, MIN_MULTIPART_PART_SIZE as int, chunks);
    let (next, left) = run_lookahead(step, chunks);
    if blob.len() < MIN_MULTIPART_PART_SIZE {
        BlobMetaView {
            key,
            stored_size: blob.len() as u64,
            modified_at: service.now,
            etag: (service.tags)(0),
        }
    } else {
        let upload = UploadView {
            bucket: rest.bucket,
            key,
            upload_id: service.upload_id,
            part_size: service.part_size,
            parts: seq![],
            total: 0,
        };
        let fuel = 2 * part_count(blob.len(), service.part_size as nat) + 3;
        law_parts_make_up_the_blob(upload, blob, service.tags, service.now, fuel);
        let (bodies, end) = run_upload(
            UploadStepView::ReadPart { limit: service.part_size, upload },
            blob,
            service.tags,
            service.now,
            fuel,
        );
        end->0->Ok_0
    }
}

/// Storing blobs, one after the other.
proof fn lemma_run_put(
    rest: PutRestView<Seq<Seq<u8>>>,
    objects: Contents,
    service: Service,
    fuel: nat,
)
    requires
        service.part_size >= MIN_MULTIPART_PART_SIZE,
        forall|i: int| 0 <= i < rest.pending.len() ==> readable((#[trigger] rest.pending[i]).data),
        fuel > rest.pending.len(),
    ensures
        ({
            let (after, result) = run_put(put::next_blob(rest), objects, service, fuel);
            &&& after == model::put_all(objects, whole(rest.pending))
            &&& result matches Some(Ok(metas))
            &&& metas.len() == rest.metas.len() + rest.pending.len()
            &&& metas.take(rest.metas.len() as int) == rest.metas
            &&& forall|i: int|
                0 <= i < rest.pending.len() ==> {
                    let meta = #[trigger] metas[rest.metas.len() + i];
                    &&& meta.key == rest.pending[i].key
                    &&& meta.stored_size == model::joined(rest.pending[i].data).len()
                    &&& meta.modified_at == service.now
                }
        }),
    decreases rest.pending.len(),
{
    let step = put::next_blob(rest);
    let (after, result) = run_put(step, objects, service, fuel);
    if rest.pending.len() == 0 {
        assert(whole(rest.pending).len() == 0);
        assert(rest.metas.take(rest.metas.len() as int) =~= rest.metas);
    } else {
        let blob = rest.pending[0];
        let rest1 = PutRestView { pending: rest.pending.skip(1), ..rest };
        let meta = lemma_run_blob(blob.key, blob.data, rest1, objects, service);
        let rest2 = PutRestView { metas: rest.metas.push(meta), ..rest1 };
        let stored = objects.insert(blob.key, model::joined(blob.data));
        assert forall|i: int| 0 <= i < rest2.pending.len() implies readable(
            (#[trigger] rest2.pending[i]).data,
        ) by {
            assert(rest2.pending[i] == rest.pending[i + 1]);
        }
        lemma_run_put(rest2, stored, service, (fuel - 1) as nat);
        assert(run_put(step, objects, service, fuel) == run_put(
            put::next_blob(rest2),
            stored,
            service,
            (fuel - 1) as nat,
        ));
        assert(whole(rest.pending).skip(1) =~= whole(rest2.pending));
        assert(whole(rest.pending)[0].key == blob.key);
        assert(whole(rest.pending)[0].data == model::joined(blob.data));
        let metas = result->0->Ok_0;
        let n = rest.metas.len() as int;
        assert(metas.take(n + 1) == rest2.metas);
        assert(metas.take(n) =~= metas.take(n + 1).take(n));
        assert(rest2.metas.take(n) =~= rest.metas);
        assert forall|i: int| 0 <= i < rest.pending.len() implies {
            let m = #[trigger] metas[n + i];
            &&& m.key == rest.pending[i].key
            &&& m.stored_size == model::joined(rest.pending[i].data).len()
            &&& m.modified_at == service.now
        } by {
            if i == 0 {
                assert(metas[n] == metas.take(n + 1)[n]);
            } else {
                assert(metas[n + i] == metas[rest2.metas.len() + (i - 1)]);
                assert(rest2.pending[i - 1] == rest.pending[i]);
            }
        }
    }
}

/// A put of valid keys makes the bucket hold every blob, whatever its size and
/// however it is read, and reports the size of each. An invalid key stops a put
/// before anything is stored.
pub proof fn law_put_stores_blobs(
    bucket: Seq<char>,
    objects: Contents,
    input: Seq<BlobInputView<Seq<Seq<u8>>>>,
    service: Service,
    fuel: nat,
)
    requires
        service.part_size >= MIN_MULTIPART_PART_SIZE,
        forall|i: int| 0 <= i < input.len() ==> readable((#[trigger] input[i]).data),
        fuel > input.len(),
    ensures
        ({
            let (after, result) = run_put(put::begin(bucket, input), objects, service, fuel);
            if forall|i: int|
                0 <= i < input.len() ==> validate::valid_blob_key((#[trigger] input[i]).key) {
                &&& after == model::put_all(objects, whole(input))
                &&& result matches Some(Ok(metas))
                &&& metas.len() == input.len()
                &&& forall|i: int|
                    0 <= i < input.len() ==> {
                        &&& (#[trigger] metas[i]).key == input[i].key
                        &&& metas[i].stored_size == model::joined(input[i].data).len()
                        &&& metas[i].modified_at == service.now
                    }
            } else {
                &&& after == objects
                &&& result matches Some(Err(e))
                &&& e is InvalidInput
            }
        }),
{
    let keys = validate::blob_keys(input);
    validate::lemma_validation_of_all(keys);
    validate::lemma_validation_error(keys);
    if forall|i: int| 0 <= i < input.len() ==> validate::valid_blob_key((#[trigger] input[i]).key) {
        assert forall|i: int| 0 <= i < keys.len() implies validate::valid_blob_key(
            #[trigger] keys[i],
        ) by {
            assert(keys[i] == input[i].key);
        }
        let rest = PutRestView { bucket, pending: input, metas: seq![] };
        lemma_run_put(rest, objects, service, fuel);
        let metas = run_put(put::begin(bucket, input), objects, service, fuel).1->0->Ok_0;
        assert forall|i: int| 0 <= i < input.len() implies {
            &&& (#[trigger] metas[i]).key == input[i].key
            &&& metas[i].stored_size == model::joined(input[i].data).len()
            &&& metas[i].modified_at == service.now
        } by {
            assert(metas[i] == metas[rest.metas.len() + i]);
        }
    } else {
        let i = choose|i: int|
            0 <= i < input.len() && !validate::valid_blob_key((#[trigger] input[i]).key);
        assert(keys[i] == input[i].key);
    }
}

/// A retrieval after a put gives the data that was stored last under the key.
pub proof fn law_get_after_put(
    bucket: Seq<char>,
    objects: Contents,
    input: Seq<BlobInputView<Seq<Seq<u8>>>>,
    service: Service,
    fuel: nat,
    i: int,
)
    requires
        service.part_size >= MIN_MULTIPART_PART_SIZE,
        forall|j: int|
            0 <= j < input.len() ==> readable((#[trigger] input[j]).data)
                && validate::valid_blob_key(input[j].key),
        fuel > input.len(),
        0 <= i < input.len(),
        forall|j: int| i < j < input.len() ==> (#[trigger] input[j]).key != input[i].key,
    ensures
        model::lookup(
            run_put(put::begin(bucket, input), objects, service, fuel).0,
            input[i].key,
        ) == Ok::<Seq<u8>, ErrorView>(model::joined(input[i].data)),
{
    law_put_stores_blobs(bucket, objects, input, service, fuel);
    model::lemma_put_all(objects, whole(input), input[i].key);
    assert(whole(input)[i].key == input[i].key);
    assert forall|j: int| i < j < whole(input).len() implies (#[trigger] whole(input)[j]).key
        != input[i].key by {
        assert(whole(input)[j].key == input[j].key);
    }
}

/// The parts of an upload are numbered from one, without gaps: where the parts
/// taken so far are, so are they after the next one, which has the next number.
pub proof fn law_parts_are_numbered_in_order(
    upload: UploadView,
    body: Seq<u8>,
    tag: Option<Seq<char>>,
)
    requires
        body.len() > 0,
        upload.parts.len() < i32::MAX,
        forall|i: int|
            0 <= i < upload.parts.len() ==> (#[trigger] upload.parts[i]).part_number == i + 1,
    ensures
        ({
            let step = upload::after_part(upload, Ok(body));
            &&& step matches UploadStepView::UploadPart { part_number, body: b, upload: sent, .. }
            &&& part_number == upload.parts.len() + 1
            &&& b == body
            &&& upload::after_uploaded(
                sent,
                part_number as i32,
                Ok(tag),
            ) matches UploadStepView::ReadPart { upload: taken, .. }
            &&& taken.parts.len() == upload.parts.len() + 1
            &&& forall|i: int|
                0 <= i < taken.parts.len() ==> (#[trigger] taken.parts[i]).part_number == i + 1
        }),
{
}

/// Once an upload has been created, a failure to read or to upload a part aborts
/// it, and the failure is what the upload ends with.
pub proof fn law_failed_part_aborts_the_upload(
    upload: UploadView,
    failure: s3::S3Failure,
    io: crate::error::IoFailure,
    part_number: i32,
)
    ensures
        upload::after_part(upload, Err(io)) matches UploadStepView::Abort { key, upload_id, error }
            && key == upload.key && upload_id == upload.upload_id && error == (ErrorView::Storage {
            message: s3::about("failed to read blob data for key '"@, upload.key),
            source: Some(io.source_spec()),
        }),
        upload::after_uploaded(upload, part_number, Err(failure)) matches UploadStepView::Abort {
            key,
            upload_id,
            error,
        } && key == upload.key && upload_id == upload.upload_id && error == upload::part_failed(
            upload,
            part_number as int,
            failure,
        ),
{
}

/// What the service answers to a request of a delete.
pub type DeleteAnswer = core::result::Result<DeleteReplyView, s3::S3Failure>;

/// The requests that a delete sends, each as the keys that it names, when the
/// service answers the `i`-th one with `replies[i]`, and what the delete ends
/// with.
pub open spec fn run_delete(step: DeleteStepView, replies: Seq<DeleteAnswer>, fuel: nat) -> (
    Seq<Seq<Seq<char>>>,
    Option<core::result::Result<(), ErrorView>>,
)
    decreases fuel,
{
    if fuel == 0 {
        (seq![], None)
    } else {
        match step {
            DeleteStepView::DeleteObjects { keys, sent, rest } => {
                let (later, end) = run_delete(
                    delete::after_deleted(sent, rest, replies[0]),
                    replies.skip(1),
                    (fuel - 1) as nat,
                );
                (seq![keys] + later, end)
            },
            DeleteStepView::Done(r) => (seq![], Some(r)),
        }
    }
}

/// The keys in the order of a delete, as many as a request takes in each piece.
pub open spec fn chunks(keys: Seq<Seq<char>>) -> Seq<Seq<Seq<char>>>
    decreases keys.len(),
{
    if keys.len() == 0 {
        seq![]
    } else {
        let n = delete::chunk_len(keys.len());
        seq![keys.take(n)] + chunks(keys.skip(n))
    }
}

/// The keys that count as deleted according to an answer.
pub open spec fn answered_deleted(answer: DeleteAnswer) -> Seq<Seq<char>> {
    match answer {
        Ok(reply) => delete::deleted_keys(reply),
        Err(_) => seq![],
    }
}

/// The failures according to the answer to a request that names the given keys.
pub open spec fn answered_failed(keys: Seq<Seq<char>>, answer: DeleteAnswer) -> Seq<KeyErrorView> {
    match answer {
        Ok(reply) => delete::failed_keys(reply),
        Err(failure) => delete::all_failed_with(keys, delete::request_failure(failure)),
    }
}

/// The keys that count as deleted according to answers, in order.
pub open spec fn all_deleted(replies: Seq<DeleteAnswer>) -> Seq<Seq<char>>
    decreases replies.len(),
{
    if replies.len() == 0 {
        seq![]
    } else {
        answered_deleted(replies[0]) + all_deleted(replies.skip(1))
    }
}

/// The failures according to the answers to requests that name the given keys, in
/// order.
pub open spec fn all_failed(sent: Seq<Seq<Seq<char>>>, replies: Seq<DeleteAnswer>) -> Seq<
    KeyErrorView,
>
    decreases replies.len(),
{
    if replies.len() == 0 {
        seq![]
    } else {
        answered_failed(sent[0], replies[0]) + all_failed(sent.skip(1), replies.skip(1))
    }
}

/// A delete names every key in one of its requests, in order; each request names
/// at least one key and no more than the service takes.
proof fn lemma_run_delete(rest: DeleteRestView, replies: Seq<DeleteAnswer>, fuel: nat)
    requires
        replies.len() == chunks(rest.pending).len(),
        fuel > replies.len(),
        forall|i: int|
            0 <= i < replies.len() ==> ((#[trigger] replies[i]) matches Err(failure)
                ==> !s3::misconfigured(failure)),
    ensures
        ({
            let (sent, end) = run_delete(delete::next_chunk(rest), replies, fuel);
            let failed = rest.errors + all_failed(chunks(rest.pending), replies);
            &&& model::joined(sent) == rest.pending
            &&& sent == chunks(rest.pending)
            &&& forall|i: int|
                0 <= i < sent.len() ==> 0 < (#[trigger] sent[i]).len()
                    <= delete::MAX_KEYS_PER_REQUEST
            &&& end == Some(
                if failed.len() == 0 {
                    Ok::<(), ErrorView>(())
                } else {
                    Err(
                        ErrorView::Batch(
                            BatchErrorView {
                                succeeded: rest.succeeded + all_deleted(replies),
                                errors: failed,
                            },
                        ),
                    )
                },
            )
        }),
    decreases rest.pending.len(),
{
    let (sent, end) = run_delete(delete::next_chunk(rest), replies, fuel);
    let all = chunks(rest.pending);
    if rest.pending.len() == 0 {
        assert(rest.succeeded + all_deleted(replies) =~= rest.succeeded);
        assert(rest.errors + all_failed(all, replies) =~= rest.errors);
        assert(model::joined(sent) =~= rest.pending);
    } else {
        let n = delete::chunk_len(rest.pending.len());
        let keys = rest.pending.take(n);
        let later = rest.pending.skip(n);
        let replies2 = replies.skip(1);
        let rest2 = DeleteRestView {
            pending: later,
            succeeded: rest.succeeded + answered_deleted(replies[0]),
            errors: rest.errors + answered_failed(keys, replies[0]),
            ..rest
        };
        assert(all.skip(1) =~= chunks(later));
        assert forall|i: int| 0 <= i < replies2.len() implies ((#[trigger] replies2[i]) matches Err(
            failure,
        ) ==> !s3::misconfigured(failure)) by {
            assert(replies2[i] == replies[i + 1]);
        }
        assert(rest.succeeded + Seq::<Seq<char>>::empty() =~= rest.succeeded);
        assert(delete::after_deleted(
            keys,
            DeleteRestView { pending: later, ..rest },
            replies[0],
        ) == delete::next_chunk(rest2)) by {
            assert(replies[0] matches Err(failure) ==> !s3::misconfigured(failure));
        }
        lemma_run_delete(rest2, replies2, (fuel - 1) as nat);
        let more = run_delete(delete::next_chunk(rest2), replies2, (fuel - 1) as nat).0;
        assert(sent =~= seq![keys] + more);
        assert(sent.skip(1) =~= more);
        assert(keys + later =~= rest.pending);
        assert(rest2.succeeded + all_deleted(replies2) =~= rest.succeeded + all_deleted(replies));
        assert(rest2.errors + all_failed(chunks(later), replies2) =~= rest.errors + all_failed(
            all,
            replies,
        ));
        assert forall|i: int| 0 <= i < sent.len() implies 0 < (#[trigger] sent[i]).len()
            <= delete::MAX_KEYS_PER_REQUEST by {
            if i > 0 {
                assert(sent[i] == more[i - 1]);
            }
        }
    }
}

/// A delete of valid keys names every key in one of its requests, in order, with
/// at most a thousand keys per request, also where requests fail. It succeeds
/// exactly when no request fails and the service reports no failure other than
/// that an object is gone already; otherwise its error collects what every request
/// came to. All keys of a request that fails have failed.
pub proof fn law_delete_sends_every_key(
    bucket: Seq<char>,
    keys: Seq<Seq<char>>,
    replies: Seq<DeleteAnswer>,
    fuel: nat,
)
    requires
        forall|i: int| 0 <= i < keys.len() ==> validate::valid_blob_key(#[trigger] keys[i]),
        replies.len() == chunks(keys).len(),
        fuel > replies.len(),
        forall|i: int|
            0 <= i < replies.len() ==> ((#[trigger] replies[i]) matches Err(failure)
                ==> !s3::misconfigured(failure)),
    ensures
        ({
            let (sent, end) = run_delete(delete::begin(bucket, keys), replies, fuel);
            &&& model::joined(sent) == keys
            &&& sent == chunks(keys)
            &&& forall|i: int|
                0 <= i < sent.len() ==> 0 < (#[trigger] sent[i]).len()
                    <= delete::MAX_KEYS_PER_REQUEST
            &&& end == Some(
                if all_failed(sent, replies).len() == 0 {
                    Ok::<(), ErrorView>(())
                } else {
                    Err(
                        ErrorView::Batch(
                            BatchErrorView {
                                succeeded: all_deleted(replies),
                                errors: all_failed(sent, replies),
                            },
                        ),
                    )
                },
            )
        }),
{
    validate::lemma_validation_of_all(keys);
    let rest = DeleteRestView { bucket, pending: keys, succeeded: seq![], errors: seq![] };
    lemma_run_delete(rest, replies, fuel);
    assert(rest.succeeded + all_deleted(replies) =~= all_deleted(replies));
    assert(rest.errors + all_failed(chunks(keys), replies) =~= all_failed(chunks(keys), replies));
}

/// A delete that finds the bucket missing ends there and says so, whatever the
/// requests before it came to.
pub proof fn law_missing_bucket_ends_the_delete(
    sent: Seq<Seq<char>>,
    rest: DeleteRestView,
    failure: s3::S3Failure,
)
    requires
        s3::misconfigured(failure),
    ensures
        delete::after_deleted(sent, rest, Err(failure)) == DeleteStepView::Done(
            Err(s3::bucket_error(rest.bucket)),
        ),
{
}

/// A blob that fails ends its put with a batch error: the blobs before it have
/// been stored, and it has failed. A missing bucket is no failure of a blob: the
/// put ends with an error that says so.
pub proof fn law_failed_blob_ends_the_put(
    then: AwaitChunkView<Seq<Seq<u8>>>,
    data: Seq<Seq<u8>>,
    io: crate::error::IoFailure,
    size: u64,
    failure: s3::S3Failure,
    now: Timestamp,
)
    ensures
        put::after_chunk(then, data, Err(io)) matches PutStepView::Done(Err(ErrorView::Batch(b)))
            && b.succeeded == order::keys_of(then.rest.metas) && b.errors.len() == 1
            && b.errors[0].key == then.key,
        if s3::misconfigured(failure) {
            put::after_object(then.key, size, then.rest, Err(failure), now) == PutStepView::<
                Seq<Seq<u8>>,
            >::Done(Err(s3::bucket_error(then.rest.bucket)))
        } else {
            put::after_object(
                then.key,
                size,
                then.rest,
                Err(failure),
                now,
            ) matches PutStepView::Done(Err(ErrorView::Batch(b))) && b.succeeded
                == order::keys_of(then.rest.metas) && b.errors.len() == 1 && b.errors[0].key
                == then.key
        },
{
}

/// A page of objects and the token for the next page.
pub struct PageView {
    pub objects: Seq<S3Object>,
    pub next_token: Option<Seq<char>>,
}

/// The requests that a listing sends, and the metadata that it finds, when the
/// service answers the `i`-th one with `pages[i]`.
pub open spec fn run_pages<F: ListFilter>(
    request: Option<PageRequestView>,
    pages: Seq<PageView>,
    filter: F,
) -> (Seq<PageRequestView>, Seq<BlobMetaView>)
    decreases pages.len(),
{
    match request {
        None => (seq![], seq![]),
        Some(r) => if pages.len() == 0 {
            (seq![], seq![])
        } else {
            let page = pages[0];
            let (later, found) = run_pages(
                listing::next_request(r, page.next_token),
                pages.skip(1),
                filter,
            );
            (seq![r] + later, listing::selection(&filter, page.objects) + found)
        },
    }
}

/// The objects of all pages, in order.
pub open spec fn all_objects(pages: Seq<PageView>) -> Seq<S3Object>
    decreases pages.len(),
{
    if pages.len() == 0 {
        seq![]
    } else {
        pages[0].objects + all_objects(pages.skip(1))
    }
}

/// Selecting from two sequences is selecting from each.
proof fn lemma_selection_add<F: ListFilter>(filter: F, a: Seq<S3Object>, b: Seq<S3Object>)
    ensures
        listing::selection(&filter, a + b) == listing::selection(&filter, a) + listing::selection(
            &filter,
            b,
        ),
    decreases b.len(),
{
    let pick = |o: S3Object| listing::selected(&filter, o);
    if b.len() == 0 {
        assert(a + b =~= a);
        assert(b.filter_map(pick) =~= seq![]);
        assert(a.filter_map(pick) + b.filter_map(pick) =~= a.filter_map(pick));
    } else {
        let c = b.drop_last();
        let n = b.len() - 1;
        lemma_selection_add(filter, a, c);
        b.lemma_filter_map_take_succ(pick, n);
        (a + b).lemma_filter_map_take_succ(pick, a.len() + n);
        assert(b.take(n + 1) =~= b);
        assert(b.take(n) =~= c);
        assert((a + b).take(a.len() + n + 1) =~= a + b);
        assert((a + b).take((a.len() + n) as int) =~= a + c);
        assert((a + b)[a.len() + n] == b[n]);
        assert((a + b).filter_map(pick) =~= a.filter_map(pick) + b.filter_map(pick));
    }
}

/// A listing follows the tokens from page to page until there is none, and finds
/// exactly the objects of all pages that the filter selects, in the order in
/// which the service gives them. Every request asks for the same prefix, and
/// passes the token of the page before.
pub proof fn law_listing_collects_all_pages<F: ListFilter>(
    request: PageRequestView,
    pages: Seq<PageView>,
    filter: F,
)
    requires
        pages.len() > 0,
        forall|i: int|
            0 <= i < pages.len() ==> ((#[trigger] pages[i]).next_token is Some <==> i
                < pages.len() - 1),
    ensures
        ({
            let (sent, found) = run_pages(Some(request), pages, filter);
            &&& found == listing::selection(&filter, all_objects(pages))
            &&& sent.len() == pages.len()
            &&& sent[0] == request
            &&& forall|i: int|
                0 <= i < sent.len() ==> (#[trigger] sent[i]).prefix == request.prefix
                    && sent[i].bucket == request.bucket
            &&& forall|i: int|
                0 < i < sent.len() ==> (#[trigger] sent[i]).token == pages[i - 1].next_token
        }),
    decreases pages.len(),
{
    let (sent, found) = run_pages(Some(request), pages, filter);
    let page = pages[0];
    let later = pages.skip(1);
    let next = listing::next_request(request, page.next_token);
    let (sent2, found2) = run_pages(next, later, filter);
    assert(pages[0].next_token is Some <==> 0 < pages.len() - 1);
    lemma_selection_add(filter, page.objects, all_objects(later));
    if later.len() > 0 {
        assert forall|i: int| 0 <= i < later.len() implies ((#[trigger] later[i]).next_token is Some
            <==> i < later.len() - 1) by {
            assert(later[i] == pages[i + 1]);
        }
        law_listing_collects_all_pages(next->0, later, filter);
        assert forall|i: int| 0 <= i < sent.len() implies (#[trigger] sent[i]).prefix
            == request.prefix && sent[i].bucket == request.bucket by {
            if i > 0 {
                assert(sent[i] == sent2[i - 1]);
            }
        }
        assert forall|i: int| 0 < i < sent.len() implies (#[trigger] sent[i]).token == pages[i
            - 1].next_token by {
            assert(sent[i] == sent2[i - 1]);
            if i > 1 {
                assert(later[i - 2] == pages[i - 1]);
            }
        }
    } else {
        assert(found2 =~= listing::selection(&filter, all_objects(later))) by {
            assert(all_objects(later) =~= seq![]);
        }
    }
}

/// A listing with metadata of the same pages has the keys of the listing, in the
/// same order.
pub proof fn law_metadata_listing_has_the_keys<F: ListFilter>(
    request: PageRequestView,
    pages: Seq<PageView>,
    filter: F,
    keys: Seq<Seq<char>>,
    metas: Seq<BlobMetaView>,
)
    requires
        order::is_sort_of(keys, order::keys_of(run_pages(Some(request), pages, filter).1)),
        order::is_meta_sort_of(metas, run_pages(Some(request), pages, filter).1),
    ensures
        order::keys_of(metas) == keys,
{
    let found = run_pages(Some(request), pages, filter).1;
    order::law_metadata_listing_has_the_keys(keys, order::keys_of(found), metas, found);
}

/// The requests that a visit sends, what it has shown, and its result, when the
/// service answers the `i`-th request with `pages[i]` and the visitor the `i`-th
/// blob with `replies(i)`. `shown` is what was shown before.
pub open spec fn run_visit<F: ListFilter>(
    request: Option<PageRequestView>,
    pages: Seq<PageView>,
    shown: Seq<BlobMetaView>,
    filter: F,
    replies: spec_fn(int) -> bool,
) -> (Seq<PageRequestView>, Seq<BlobMetaView>, core::result::Result<(), ErrorView>)
    decreases pages.len(),
{
    match request {
        None => (seq![], shown, Ok(())),
        Some(r) => if pages.len() == 0 {
            (seq![], shown, Ok(()))
        } else {
            let page = pages[0];
            let (after, end) = blob_store::visit_items(
                listing::selection(&filter, page.objects),
                shown,
                replies,
            );
            match end {
                VisitStep::Stop(result) => (seq![r], after, error::result_view(result)),
                VisitStep::GoOn => {
                    let (later, all, result) = run_visit(
                        listing::next_request(r, page.next_token),
                        pages.skip(1),
                        after,
                        filter,
                        replies,
                    );
                    (seq![r] + later, all, result)
                },
            }
        },
    }
}

/// A visit goes on with what the listing finds after what was shown before.
proof fn lemma_run_visit<F: ListFilter>(
    request: Option<PageRequestView>,
    pages: Seq<PageView>,
    shown: Seq<BlobMetaView>,
    filter: F,
    replies: spec_fn(int) -> bool,
)
    requires
        forall|i: int| 0 <= i < shown.len() ==> #[trigger] replies(i),
    ensures
        ({
            let (sent, after, result) = run_visit(request, pages, shown, filter, replies);
            let (requests, found) = run_pages(request, pages, filter);
            &&& result == Ok::<(), ErrorView>(())
            &&& sent.is_prefix_of(requests)
            &&& blob_store::is_visit_of(after, shown + found, replies)
        }),
    decreases pages.len(),
{
    let (requests, found) = run_pages(request, pages, filter);
    if request is None || pages.len() == 0 {
        assert(shown + found =~= shown);
        assert(shown.take(shown.len() as int) =~= shown);
        assert(requests.take(0) =~= requests);
    } else {
        let r = request->0;
        let items = listing::selection(&filter, pages[0].objects);
        let next = listing::next_request(r, pages[0].next_token);
        let (after, end) = blob_store::visit_items(items, shown, replies);
        let (requests2, found2) = run_pages(next, pages.skip(1), filter);
        blob_store::lemma_visit_items(items, shown, replies);
        assert(shown + found =~= (shown + items) + found2);
        match end {
            VisitStep::GoOn => {
                lemma_run_visit(next, pages.skip(1), after, filter, replies);
                let sent2 = run_visit(next, pages.skip(1), after, filter, replies).0;
                assert(requests =~= seq![r] + requests2);
                assert(sent2 =~= requests2.take(sent2.len() as int));
                assert(seq![r] + sent2 =~= requests.take(1 + sent2.len() as int));
            },
            VisitStep::Stop(_) => {
                assert(after =~= (shown + items).take(after.len() as int));
                assert(after =~= (shown + found).take(after.len() as int));
                assert(seq![r] =~= requests.take(1));
            },
        }
    }
}

/// A visit shows what a listing with metadata finds, one blob after the other:
/// all of it to a visitor that never stops, and up to and with the first blob
/// that is answered with `false` otherwise. It succeeds, and asks for no page that
/// a listing does not ask for. Where no two objects have the same key, no key is
/// shown twice.
pub proof fn law_visit_shows_what_is_listed<F: ListFilter>(
    request: PageRequestView,
    pages: Seq<PageView>,
    filter: F,
    replies: spec_fn(int) -> bool,
)
    ensures
        ({
            let (sent, shown, result) = run_visit(Some(request), pages, seq![], filter, replies);
            let (requests, found) = run_pages(Some(request), pages, filter);
            &&& result == Ok::<(), ErrorView>(())
            &&& sent.is_prefix_of(requests)
            &&& blob_store::is_visit_of(shown, found, replies)
            &&& (forall|i: int| 0 <= i < found.len() ==> #[trigger] replies(i)) ==> shown == found
            &&& order::keys_of(found).no_duplicates() ==> order::keys_of(shown).no_duplicates()
        }),
{
    lemma_run_visit(Some(request), pages, seq![], filter, replies);
    let shown = run_visit(Some(request), pages, seq![], filter, replies).1;
    let found = run_pages(Some(request), pages, filter).1;
    assert(seq![] + found =~= found);
    assert(shown =~= found.take(shown.len() as int));
    if order::keys_of(found).no_duplicates() {
        assert forall|i: int, j: int|
            0 <= i < shown.len() && 0 <= j < shown.len() && i != j implies order::keys_of(shown)[i]
            != order::keys_of(shown)[j] by {
            assert(order::keys_of(found)[i] == order::keys_of(shown)[i]);
            assert(order::keys_of(found)[j] == order::keys_of(shown)[j]);
        }
    }
    if forall|i: int| 0 <= i < found.len() ==> #[trigger] replies(i) {
        assert(shown.len() == found.len());
        assert(shown =~= found);
    }
}

/// Whether no two objects have the same key.
pub open spec fn distinct_keys(objects: Seq<S3Object>) -> bool {
    forall|i: int, j: int|
        0 <= i < j < objects.len() && (#[trigger] objects[i]).key is Some && (
        #[trigger] objects[j]).key is Some ==> objects[i].key->0@ != objects[j].key->0@
}

/// Of objects with different keys no key is listed twice, and a key is listed
/// exactly when an object has it and the filter selects it.
pub proof fn law_listing_has_each_key_once<F: ListFilter>(
    filter: F,
    objects: Seq<S3Object>,
    key: Seq<char>,
)
    ensures
        ({
            let keys = order::keys_of(listing::selection(&filter, objects));
            &&& keys.contains(key) <==> filter.accepts(key, None) && exists|i: int|
                0 <= i < objects.len() && ((#[trigger] objects[i]).key matches Some(k) && k@
                    == key)
            &&& distinct_keys(objects) ==> keys.no_duplicates()
        }),
    decreases objects.len(),
{
    let pick = |o: S3Object| listing::selected(&filter, o);
    let keys = order::keys_of(listing::selection(&filter, objects));
    if objects.len() == 0 {
        assert(objects.filter_map(pick) =~= seq![]);
    } else {
        let n = objects.len() - 1;
        let first = objects.drop_last();
        let last = objects.last();
        let before = order::keys_of(listing::selection(&filter, first));
        objects.lemma_filter_map_take_succ(pick, n);
        assert(objects.take(n + 1) =~= objects);
        assert(objects.take(n) =~= first);
        law_listing_has_each_key_once(filter, first, key);
        match listing::selected(&filter, last) {
            None => {
                assert(keys =~= before);
            },
            Some(meta) => {
                assert(keys =~= before.push(meta.key));
                assert(keys[before.len() as int] == meta.key);
                if before.contains(key) {
                    let i = choose|i: int| 0 <= i < before.len() && before[i] == key;
                    assert(keys[i] == key);
                }
                if keys.contains(key) && key != meta.key {
                    let i = choose|i: int| 0 <= i < keys.len() && keys[i] == key;
                    assert(before[i] == key);
                }
                law_listing_has_each_key_once(filter, first, meta.key);
            },
        }
        if exists|i: int|
            0 <= i < first.len() && ((#[trigger] first[i]).key matches Some(k) && k@ == key) {
            let i = choose|i: int|
                0 <= i < first.len() && ((#[trigger] first[i]).key matches Some(k) && k@ == key);
            assert(objects[i] == first[i]);
        }
        if exists|i: int|
            0 <= i < objects.len() && ((#[trigger] objects[i]).key matches Some(k) && k@ == key) {
            let i = choose|i: int|
                0 <= i < objects.len() && ((#[trigger] objects[i]).key matches Some(k) && k@
                    == key);
            if i < n {
                assert(first[i] == objects[i]);
            }
        }
        if distinct_keys(objects) {
            assert forall|i: int, j: int|
                0 <= i < j < first.len() && (#[trigger] first[i]).key is Some && (
                #[trigger] first[j]).key is Some implies first[i].key->0@ != first[j].key->0@ by {
                assert(first[i] == objects[i] && first[j] == objects[j]);
            }
            if let Some(meta) = listing::selected(&filter, last) {
                assert(!before.contains(meta.key)) by {
                    if before.contains(meta.key) {
                        let i = choose|i: int|
                            0 <= i < first.len() && ((#[trigger] first[i]).key matches Some(k) && k@
                                == meta.key);
                        assert(objects[i] == first[i]);
                        assert(objects[n] == last);
                    }
                }
            }
        }
    }
}

/// Whether the service gives an object for a request with the given prefix.
pub open spec fn served(prefix: Option<Seq<char>>, object: S3Object) -> bool {
    match prefix {
        Some(p) => object.key matches Some(key) && p.is_prefix_of(key@),
        None => true,
    }
}

/// Narrowing a listing by the prefix of a filter loses nothing: from the objects
/// that have the prefix the filter selects what it would select from all objects,
/// provided that its hint leaves out nothing that it selects.
pub proof fn law_request_prefix_loses_nothing<F: ListFilter>(filter: F, objects: Seq<S3Object>)
    requires
        list_filter::hint_sound(&filter),
    ensures
        listing::selection(
            &filter,
            objects.filter(
                |o: S3Object| served(listing::request_prefix(filter.hint()), o),
            ),
        ) == listing::selection(&filter, objects),
    decreases objects.len(),
{
    let prefix = listing::request_prefix(filter.hint());
    let narrow = |o: S3Object| served(prefix, o);
    let pick = |o: S3Object| listing::selected(&filter, o);
    let some = objects.filter(narrow);
    reveal(Seq::filter);
    if objects.len() > 0 {
        let first = objects.drop_last();
        let last = objects.last();
        let n = objects.len() - 1;
        law_request_prefix_loses_nothing(filter, first);
        objects.lemma_filter_map_take_succ(pick, n);
        assert(objects.take(n + 1) =~= objects);
        assert(objects.take(n) =~= first);
        if narrow(last) {
            let m = some.len() - 1;
            some.lemma_filter_map_take_succ(pick, m);
            assert(some.take(m + 1) =~= some);
            assert(some.take(m) =~= first.filter(narrow));
            assert(some[m] == last);
        } else {
            assert(pick(last) is None) by {
                if let Some(key) = last.key {
                    if filter.accepts(key@, None) {
                        assert(filter.hint()->0.is_prefix_of(key@));
                    }
                }
            }
            assert(objects.filter_map(pick) =~= first.filter_map(pick));
        }
    }
}

} // verus!
