//! The laws of the encrypting layer, over an inner store that keeps what it is
//! given.
//!
//! Seen through the layer, the inner store is again a store: of the plaintext of
//! those blobs that have both data and header. Putting, getting, deleting,
//! checking and listing through the layer act on that store as they would on any
//! other.

use vstd::prelude::*;

use crate::encrypt;
use crate::encrypt::get;
use crate::encrypt::get::DecryptStepView;
use crate::encrypt::get::ExistsStepView;
use crate::encrypt::get::GetStepView;
use crate::encrypt::get::HeaderReplyView;
use crate::encrypt::get::HeaderStepView;
use crate::encrypt::listing;
use crate::encrypt::listing::ListRestView;
use crate::encrypt::listing::ListStepView;
use crate::encrypt::listing::MetaRestView;
use crate::encrypt::listing::MetaStepView;
use crate::encrypt::put;
use crate::encrypt::put::PutRestView;
use crate::encrypt::put::PutStepView;
use crate::encrypt::rekey;
use crate::encrypt::rekey::RekeyStepView;
use crate::error::BatchErrorView;
use crate::error::BlobStorageError;
use crate::error::ErrorView;
use crate::error::KeyErrorView;
use crate::list_filter::ListFilter;
use crate::model;
use crate::model::Contents;
use crate::order;
use crate::types::BlobInputView;
use crate::types::BlobMetaView;
use crate::validate;

verus! {

/// Plaintext to ciphertext and header.
pub type Encrypt = spec_fn(Seq<u8>) -> (Seq<u8>, Seq<u8>);

/// Ciphertext and header to plaintext.
pub type Decrypt = spec_fn(Seq<u8>, Seq<u8>) -> Seq<u8>;

/// What the inner store returns for a put, from the key and the data.
pub type Metas = spec_fn(Seq<char>, Seq<u8>) -> Seq<BlobMetaView>;

/// Whether a key names a blob: a data key with both data and header.
pub open spec fn is_blob(suffix: Seq<char>, store: Contents, key: Seq<char>) -> bool {
    &&& !encrypt::is_header_key(suffix, key)
    &&& store.dom().contains(key)
    &&& store.dom().contains(encrypt::header_key_of(suffix, key))
}

/// The inner store as seen through the layer.
pub open spec fn plain(suffix: Seq<char>, store: Contents, decrypt: Decrypt) -> Contents {
    Map::new(
        |key: Seq<char>| is_blob(suffix, store, key),
        |key: Seq<char>| decrypt(store[key], store[encrypt::header_key_of(suffix, key)]),
    )
}

/// Whether what was encrypted can be decrypted.
pub open spec fn inverse(enc: Encrypt, dec: Decrypt) -> bool {
    forall|p: Seq<u8>| #![trigger enc(p)] dec(enc(p).0, enc(p).1) == p
}

/// The steps that are left of a put.
pub open spec fn put_measure(step: PutStepView<Seq<u8>>) -> nat {
    match step {
        PutStepView::StoreData { rest, .. } => 2 * rest.pending.len() + 2,
        PutStepView::StoreHeader { rest, .. } => 2 * rest.pending.len() + 1,
        PutStepView::RollBack { .. } => 0,
        PutStepView::Done(_) => 0,
    }
}

/// The inner store, and the result, once a put has run to its end. The inner
/// store takes everything, and every encryption succeeds.
pub open spec fn run_put(
    step: PutStepView<Seq<u8>>,
    store: Contents,
    enc: Encrypt,
    metas: Metas,
) -> (Contents, core::result::Result<Seq<BlobMetaView>, ErrorView>)
    decreases put_measure(step),
    via run_put_ends
{
    match step {
        PutStepView::StoreData { input, key, rest } => {
            let (data, header) = enc(input.data);
            run_put(
                put::after_data(key, rest, Ok(metas(input.key, data)), Some(Ok(header))),
                store.insert(input.key, data),
                enc,
                metas,
            )
        },
        PutStepView::StoreHeader { header_key, header, key, stored, rest, .. } => run_put(
            put::after_header(key, stored, rest, Ok(metas(header_key, header))),
            store.insert(header_key, header),
            enc,
            metas,
        ),
        PutStepView::RollBack { key, error } => (store.remove(key), Err(error)),
        PutStepView::Done(r) => (store, r),
    }
}

#[via_fn]
proof fn run_put_ends(
    step: PutStepView<Seq<u8>>,
    store: Contents,
    enc: Encrypt,
    metas: Metas,
) {
}

/// Header keys are reserved, data keys are not, and keys with the same header
/// key are the same.
proof fn lemma_header_keys(suffix: Seq<char>, a: Seq<char>, b: Seq<char>)
    ensures
        encrypt::is_header_key(suffix, encrypt::header_key_of(suffix, a)),
        encrypt::header_key_of(suffix, a) == encrypt::header_key_of(suffix, b) ==> a == b,
{
    let h = encrypt::header_key_of(suffix, a);
    assert(h.skip(h.len() - suffix.len()) =~= suffix);
    if h == encrypt::header_key_of(suffix, b) {
        assert(h.len() == a.len() + suffix.len());
        assert(h.len() == b.len() + suffix.len());
        assert(a =~= h.take(a.len() as int));
        assert(b =~= h.take(b.len() as int));
    }
}

/// Storing the data and the header of a blob changes that blob and no other.
proof fn lemma_store_blob(
    suffix: Seq<char>,
    store: Contents,
    key: Seq<char>,
    data: Seq<u8>,
    header: Seq<u8>,
    dec: Decrypt,
)
    requires
        !encrypt::is_header_key(suffix, key),
    ensures
        plain(
            suffix,
            store.insert(key, data).insert(encrypt::header_key_of(suffix, key), header),
            dec,
        ) == plain(suffix, store, dec).insert(key, dec(data, header)),
{
    let after = store.insert(key, data).insert(encrypt::header_key_of(suffix, key), header);
    assert forall|k: Seq<char>|
        is_blob(suffix, after, k) == (k == key || #[trigger] is_blob(suffix, store, k)) by {
        lemma_header_keys(suffix, k, key);
        lemma_header_keys(suffix, key, key);
    }
    assert forall|k: Seq<char>| k != key && #[trigger] is_blob(suffix, store, k) implies after[k]
        == store[k] && after[encrypt::header_key_of(suffix, k)] == store[encrypt::header_key_of(
        suffix,
        k,
    )] by {
        lemma_header_keys(suffix, k, key);
        lemma_header_keys(suffix, key, key);
    }
    lemma_header_keys(suffix, key, key);
    assert(after[key] == data);
    assert(plain(suffix, after, dec) =~= plain(suffix, store, dec).insert(key, dec(data, header)));
}

/// The metadata that a put reports: what the inner store returned for the data
/// of each blob, in order, without headers.
pub open spec fn data_metas(
    suffix: Seq<char>,
    blobs: Seq<BlobInputView<Seq<u8>>>,
    enc: Encrypt,
    metas: Metas,
) -> Seq<BlobMetaView> {
    model::joined(
        blobs.map_values(
            |b: BlobInputView<Seq<u8>>| put::without_headers(suffix, metas(b.key, enc(b.data).0)),
        ),
    )
}

/// Where no key among the first `n` is reserved, they are stored one after the
/// other, and the put goes on with the rest.
proof fn lemma_run_put(
    suffix: Seq<char>,
    blobs: Seq<BlobInputView<Seq<u8>>>,
    n: int,
    earlier: Seq<BlobMetaView>,
    store: Contents,
    enc: Encrypt,
    dec: Decrypt,
    metas: Metas,
) -> (after: Contents)
    requires
        inverse(enc, dec),
        0 <= n <= blobs.len(),
        forall|i: int| 0 <= i < n ==> !encrypt::is_header_key(suffix, (#[trigger] blobs[i]).key),
    ensures
        plain(suffix, after, dec) == model::put_all(plain(suffix, store, dec), blobs.take(n)),
        run_put(
            put::next_blob(PutRestView { suffix, pending: blobs, metas: earlier }),
            store,
            enc,
            metas,
        ) == run_put(
            put::next_blob(
                PutRestView {
                    suffix,
                    pending: blobs.skip(n),
                    metas: earlier + data_metas(suffix, blobs.take(n), enc, metas),
                },
            ),
            after,
            enc,
            metas,
        ),
    decreases n,
{
    let rest = PutRestView { suffix, pending: blobs, metas: earlier };
    let shown = |b: BlobInputView<Seq<u8>>|
        put::without_headers(suffix, metas(b.key, enc(b.data).0));
    if n == 0 {
        assert(blobs.take(0).map_values(shown).len() == 0);
        assert(blobs.skip(0) =~= blobs);
        assert(earlier + data_metas(suffix, blobs.take(0), enc, metas) =~= earlier);
        store
    } else {
        let blob = blobs[0];
        let (data, header) = enc(blob.data);
        let later = blobs.skip(1);
        let stored = metas(blob.key, data);
        let rest1 = PutRestView { pending: later, ..rest };
        let rest2 = PutRestView { metas: earlier + put::without_headers(suffix, stored), ..rest1 };
        let store1 = store.insert(blob.key, data);
        let store2 = store1.insert(encrypt::header_key_of(suffix, blob.key), header);
        let step1 = put::after_data(blob.key, rest1, Ok(stored), Some(Ok(header)));
        assert(run_put(put::next_blob(rest), store, enc, metas) == run_put(
            step1,
            store1,
            enc,
            metas,
        ));
        assert(run_put(step1, store1, enc, metas) == run_put(
            put::next_blob(rest2),
            store2,
            enc,
            metas,
        ));
        assert forall|i: int| 0 <= i < n - 1 implies !encrypt::is_header_key(
            suffix,
            (#[trigger] later[i]).key,
        ) by {
            assert(later[i] == blobs[i + 1]);
        }
        let after = lemma_run_put(suffix, later, n - 1, rest2.metas, store2, enc, dec, metas);
        lemma_store_blob(suffix, store, blob.key, data, header, dec);
        assert(blobs.take(n).skip(1) =~= later.take(n - 1));
        assert(later.skip(n - 1) =~= blobs.skip(n));
        let pieces = blobs.take(n).map_values(shown);
        assert(pieces.skip(1) =~= later.take(n - 1).map_values(shown));
        assert(rest2.metas + data_metas(suffix, later.take(n - 1), enc, metas) =~= earlier
            + data_metas(suffix, blobs.take(n), enc, metas));
        after
    }
}

/// A put of blobs with valid keys that are not reserved succeeds and acts, seen
/// through the layer, as a put of the plaintext: read back, each blob gives the
/// data that was stored last under its key, and no other blob changes. That
/// holds of new blobs, of blobs that are replaced, and of data that had lost its
/// header. The put reports the metadata of the data, blob by blob in order, and
/// none of a header.
pub proof fn law_put_stores_plaintext(
    suffix: Seq<char>,
    blobs: Seq<BlobInputView<Seq<u8>>>,
    store: Contents,
    enc: Encrypt,
    dec: Decrypt,
    metas: Metas,
)
    requires
        inverse(enc, dec),
        forall|i: int|
            0 <= i < blobs.len() ==> validate::valid_blob_key((#[trigger] blobs[i]).key)
                && !encrypt::is_header_key(suffix, blobs[i].key),
    ensures
        ({
            let (after, result) = run_put(put::begin(suffix, blobs), store, enc, metas);
            &&& result == Ok::<Seq<BlobMetaView>, ErrorView>(
                data_metas(suffix, blobs, enc, metas),
            )
            &&& plain(suffix, after, dec) == model::put_all(plain(suffix, store, dec), blobs)
        }),
{
    let n = blobs.len() as int;
    lemma_valid_keys(blobs);
    let after = lemma_run_put(suffix, blobs, n, seq![], store, enc, dec, metas);
    assert(blobs.take(n) =~= blobs);
    assert(seq![] + data_metas(suffix, blobs, enc, metas) =~= data_metas(
        suffix,
        blobs,
        enc,
        metas,
    ));
}

/// Valid keys pass the validation of a put.
proof fn lemma_valid_keys(blobs: Seq<BlobInputView<Seq<u8>>>)
    ensures
        validate::validation_of_all(validate::blob_keys(blobs)) is Ok <==> (forall|i: int|
            0 <= i < blobs.len() ==> validate::valid_blob_key((#[trigger] blobs[i]).key)),
{
    let keys = validate::blob_keys(blobs);
    validate::lemma_validation_of_all(keys);
    if forall|i: int|
        0 <= i < blobs.len() ==> validate::valid_blob_key((#[trigger] blobs[i]).key) {
        assert forall|i: int| 0 <= i < keys.len() implies validate::valid_blob_key(
            #[trigger] keys[i],
        ) by {
            assert(keys[i] == blobs[i].key);
        }
    } else {
        let i = choose|i: int|
            0 <= i < blobs.len() && !validate::valid_blob_key((#[trigger] blobs[i]).key);
        assert(keys[i] == blobs[i].key);
    }
}

/// A put with an invalid key among its blobs is refused before the inner store
/// is touched, wherever the key stands and whatever the other keys are.
pub proof fn law_invalid_key_stores_nothing(
    suffix: Seq<char>,
    blobs: Seq<BlobInputView<Seq<u8>>>,
    store: Contents,
    enc: Encrypt,
    metas: Metas,
    i: int,
)
    requires
        0 <= i < blobs.len(),
        !validate::valid_blob_key(blobs[i].key),
    ensures
        ({
            let (after, result) = run_put(put::begin(suffix, blobs), store, enc, metas);
            &&& result matches Err(ErrorView::InvalidInput(_))
            &&& after == store
        }),
{
    lemma_valid_keys(blobs);
    validate::lemma_validation_error(validate::blob_keys(blobs));
}

/// A put of blobs with valid keys ends at the first one that is reserved, and
/// reports the key. The blobs before it have been stored; it and those behind it
/// have not.
pub proof fn law_put_ends_at_reserved_key(
    suffix: Seq<char>,
    blobs: Seq<BlobInputView<Seq<u8>>>,
    store: Contents,
    enc: Encrypt,
    dec: Decrypt,
    metas: Metas,
    n: int,
)
    requires
        inverse(enc, dec),
        forall|i: int|
            0 <= i < blobs.len() ==> validate::valid_blob_key((#[trigger] blobs[i]).key),
        0 <= n < blobs.len(),
        encrypt::is_header_key(suffix, blobs[n].key),
        forall|i: int| 0 <= i < n ==> !encrypt::is_header_key(suffix, (#[trigger] blobs[i]).key),
    ensures
        ({
            let (after, result) = run_put(put::begin(suffix, blobs), store, enc, metas);
            &&& result == Err::<Seq<BlobMetaView>, ErrorView>(
                encrypt::collision(suffix, blobs[n].key),
            )
            &&& plain(suffix, after, dec) == model::put_all(
                plain(suffix, store, dec),
                blobs.take(n),
            )
        }),
{
    lemma_valid_keys(blobs);
    let after = lemma_run_put(suffix, blobs, n, seq![], store, enc, dec, metas);
    assert(blobs.skip(n)[0] == blobs[n]);
}

/// No header shows up in the result of a put, whatever the inner store returned:
/// where the metadata collected so far has none, neither has what it becomes.
pub proof fn law_put_result_has_no_headers(
    key: Seq<char>,
    stored: Seq<BlobMetaView>,
    rest: PutRestView<Seq<u8>>,
    reply: Seq<BlobMetaView>,
)
    requires
        forall|i: int|
            0 <= i < rest.metas.len() ==> !encrypt::is_header_key(
                rest.suffix,
                (#[trigger] rest.metas[i]).key,
            ),
    ensures
        match put::after_header(key, stored, rest, Ok(reply)) {
            PutStepView::StoreData { rest: next, .. } => {
                &&& next.suffix == rest.suffix
                &&& forall|i: int|
                    0 <= i < next.metas.len() ==> !encrypt::is_header_key(
                        rest.suffix,
                        (#[trigger] next.metas[i]).key,
                    )
            },
            PutStepView::Done(Ok(metas)) => forall|i: int|
                0 <= i < metas.len() ==> !encrypt::is_header_key(
                    rest.suffix,
                    (#[trigger] metas[i]).key,
                ),
            PutStepView::Done(Err(e)) => e is InvalidInput,
            _ => false,
        },
{
}

/// A put that fails at a blob ends there, and reports why; a batch error of the
/// inner store is reported as one about the blobs of the put. Where the encryption
/// or the header failed, the data is deleted again: the blob is gone, also where
/// it was to be replaced. Where the inner store refused the data, or the
/// encryption never reported, nothing is deleted. No other blob changes in
/// either case.
pub proof fn law_failed_put_touches_only_its_blob(
    suffix: Seq<char>,
    store: Contents,
    key: Seq<char>,
    data: Seq<u8>,
    dec: Decrypt,
    rest: PutRestView<Seq<u8>>,
    stored: Seq<BlobMetaView>,
    cause: crate::error::EncryptionError,
    refusal: ErrorView,
)
    requires
        rest.suffix == suffix,
        !encrypt::is_header_key(suffix, key),
    ensures
        put::after_data(key, rest, Err(refusal), None) == PutStepView::<Seq<u8>>::Done(
            Err(put::refused(rest.metas, key, refusal)),
        ),
        !(refusal is Batch) ==> put::refused(rest.metas, key, refusal) == refusal,
        refusal matches ErrorView::Batch(b) && b.errors.len() > 0 ==> put::refused(
            rest.metas,
            key,
            refusal,
        ) == ErrorView::Batch(
            BatchErrorView {
                succeeded: order::keys_of(rest.metas),
                errors: seq![KeyErrorView { key, error: refusal->Batch_0.errors[0].error }],
            },
        ),
        put::after_data(key, rest, Ok(stored), None) == PutStepView::<Seq<u8>>::Done(
            Err(encrypt::encryption_unfinished(key)),
        ),
        put::after_data(key, rest, Ok(stored), Some(Err(cause))) == (PutStepView::<
            Seq<u8>,
        >::RollBack { key, error: encrypt::encryption_failed(key, cause) }),
        put::after_header(key, stored, rest, Err(refusal)) == (PutStepView::<Seq<u8>>::RollBack {
            key,
            error: put::refused(rest.metas, key, refusal),
        }),
        plain(suffix, store.insert(key, data).remove(key), dec) == plain(
            suffix,
            store,
            dec,
        ).remove(key),
        plain(suffix, store.insert(key, data), dec).remove(key) == plain(
            suffix,
            store,
            dec,
        ).remove(key),
{
    let gone = store.insert(key, data).remove(key);
    let changed = store.insert(key, data);
    assert forall|k: Seq<char>| k != key implies #[trigger] is_blob(suffix, gone, k) == is_blob(
        suffix,
        store,
        k,
    ) && is_blob(suffix, changed, k) == is_blob(suffix, store, k) by {
        lemma_header_keys(suffix, k, key);
    }
    assert forall|k: Seq<char>| k != key && is_blob(suffix, store, k) implies #[trigger] gone[k]
        == store[k] && gone[encrypt::header_key_of(suffix, k)] == store[encrypt::header_key_of(
        suffix,
        k,
    )] && changed[k] == store[k] && changed[encrypt::header_key_of(suffix, k)]
        == store[encrypt::header_key_of(suffix, k)] by {
        lemma_header_keys(suffix, k, key);
    }
    assert(plain(suffix, gone, dec) =~= plain(suffix, store, dec).remove(key)) by {
        assert forall|k: Seq<char>| k != key && is_blob(suffix, store, k) implies #[trigger] plain(
            suffix,
            gone,
            dec,
        )[k] == plain(suffix, store, dec)[k] by {
            assert(gone[k] == store[k]);
            assert(is_blob(suffix, gone, k));
        }
    }
    assert(plain(suffix, changed, dec).remove(key) =~= plain(suffix, store, dec).remove(key)) by {
        assert forall|k: Seq<char>| k != key && is_blob(suffix, store, k) implies #[trigger] plain(
            suffix,
            changed,
            dec,
        )[k] == plain(suffix, store, dec)[k] by {
            assert(gone[k] == store[k]);
            assert(is_blob(suffix, gone, k));
        }
    }
}

/// What comes of fetching a header from the inner store.
pub open spec fn header_reply(store: Contents, header_key: Seq<char>) -> HeaderReplyView {
    match model::lookup(store, header_key) {
        Ok(header) => HeaderReplyView::Bytes(header),
        Err(e) => HeaderReplyView::Refused(e),
    }
}

/// What a retrieval through the layer gives.
pub open spec fn run_get(
    suffix: Seq<char>,
    store: Contents,
    key: Seq<char>,
    dec: Decrypt,
) -> core::result::Result<Seq<u8>, ErrorView> {
    match get::begin_get(suffix, key) {
        GetStepView::Done(e) => Err(e),
        GetStepView::FetchData { data_key, key, header_key } => match get::after_data(
            key,
            header_key,
            model::lookup(store, data_key),
        ) {
            HeaderStepView::Done(e) => Err(e),
            HeaderStepView::FetchHeader { header_key, key, data } => match get::after_header(
                key,
                data,
                header_reply(store, header_key),
            ) {
                DecryptStepView::Done(e) => Err(e),
                DecryptStepView::Decrypt { data, header } => Ok(dec(data, header)),
            },
        },
    }
}

/// A retrieval gives the plaintext of the blob. Where data or header is missing
/// it reports the key that was asked for as not found, never the header's key.
/// Reserved and invalid keys are refused.
pub proof fn law_get_reads_plaintext(
    suffix: Seq<char>,
    store: Contents,
    key: Seq<char>,
    dec: Decrypt,
)
    ensures
        run_get(suffix, store, key, dec) == match encrypt::key_check(suffix, key) {
            Ok(()) => model::lookup(plain(suffix, store, dec), key),
            Err(e) => Err(e),
        },
{
    assert(plain(suffix, store, dec).dom().contains(key) == is_blob(suffix, store, key));
}

/// A blob that was put is what a retrieval gives: the data that was stored last
/// under its key.
pub proof fn law_get_after_put(
    suffix: Seq<char>,
    blobs: Seq<BlobInputView<Seq<u8>>>,
    store: Contents,
    enc: Encrypt,
    dec: Decrypt,
    metas: Metas,
    i: int,
)
    requires
        inverse(enc, dec),
        forall|j: int|
            0 <= j < blobs.len() ==> validate::valid_blob_key((#[trigger] blobs[j]).key)
                && !encrypt::is_header_key(suffix, blobs[j].key),
        0 <= i < blobs.len(),
        forall|j: int| i < j < blobs.len() ==> (#[trigger] blobs[j]).key != blobs[i].key,
    ensures
        ({
            let (after, result) = run_put(put::begin(suffix, blobs), store, enc, metas);
            &&& result is Ok
            &&& run_get(suffix, after, blobs[i].key, dec) == Ok::<Seq<u8>, ErrorView>(
                blobs[i].data,
            )
        }),
{
    law_put_stores_plaintext(suffix, blobs, store, enc, dec, metas);
    let after = run_put(put::begin(suffix, blobs), store, enc, metas).0;
    law_get_reads_plaintext(suffix, after, blobs[i].key, dec);
    model::lemma_put_all(plain(suffix, store, dec), blobs, blobs[i].key);
}

/// What a check through the layer gives, from one of its steps on.
pub open spec fn run_exists(step: ExistsStepView, store: Contents) -> core::result::Result<
    bool,
    ErrorView,
>
    decreases
            (if step is CheckData {
                1int
            } else {
                0
            }),
{
    match step {
        ExistsStepView::CheckData { key, header_key } => run_exists(
            get::after_data_exists(header_key, Ok(store.dom().contains(key))),
            store,
        ),
        ExistsStepView::CheckHeader { header_key } => Ok(store.dom().contains(header_key)),
        ExistsStepView::Done(r) => r,
    }
}

/// A blob exists exactly where a retrieval finds it. A check for a reserved or
/// invalid key is refused as a retrieval is.
pub proof fn law_exists_where_get_finds(
    suffix: Seq<char>,
    store: Contents,
    key: Seq<char>,
    dec: Decrypt,
)
    ensures
        ({
            let answer = run_exists(get::begin_exists(suffix, key), store);
            match encrypt::key_check(suffix, key) {
                Ok(()) => {
                    &&& answer == Ok::<bool, ErrorView>(run_get(suffix, store, key, dec) is Ok)
                    &&& answer == Ok::<bool, ErrorView>(
                        plain(suffix, store, dec).dom().contains(key),
                    )
                },
                Err(e) => answer == Err::<bool, ErrorView>(e),
            }
        }),
{
    reveal_with_fuel(run_exists, 2);
}

/// Each of the keys and its header key is among the keys to delete, and nothing
/// else is.
proof fn lemma_with_headers(suffix: Seq<char>, keys: Seq<Seq<char>>, k: Seq<char>)
    ensures
        encrypt::with_headers(suffix, keys).contains(k) <==> keys.contains(k) || (exists|i: int|
            0 <= i < keys.len() && k == encrypt::header_key_of(suffix, #[trigger] keys[i])),
    decreases keys.len(),
{
    let all = encrypt::with_headers(suffix, keys);
    if keys.len() > 0 {
        let first = keys.drop_last();
        let last = keys.last();
        let before = encrypt::with_headers(suffix, first);
        lemma_with_headers(suffix, first, k);
        assert(all == before.push(last).push(encrypt::header_key_of(suffix, last)));
        assert(all[before.len() as int] == last);
        assert(all[before.len() as int + 1] == encrypt::header_key_of(suffix, last));
        if before.contains(k) {
            let i = choose|i: int| 0 <= i < before.len() && before[i] == k;
            assert(all[i] == k);
        }
        if all.contains(k) {
            let i = choose|i: int| 0 <= i < all.len() && all[i] == k;
            if i < before.len() {
                assert(before[i] == k);
            } else if i == before.len() {
                assert(keys[keys.len() - 1] == k);
            } else {
                assert(k == encrypt::header_key_of(suffix, keys[keys.len() - 1]));
            }
        }
        if first.contains(k) {
            let i = choose|i: int| 0 <= i < first.len() && first[i] == k;
            assert(keys[i] == k);
        }
        if exists|i: int|
            0 <= i < first.len() && k == encrypt::header_key_of(suffix, #[trigger] first[i]) {
            let i = choose|i: int|
                0 <= i < first.len() && k == encrypt::header_key_of(suffix, #[trigger] first[i]);
            assert(k == encrypt::header_key_of(suffix, keys[i]));
        }
        if keys.contains(k) {
            let i = choose|i: int| 0 <= i < keys.len() && keys[i] == k;
            if i < first.len() {
                assert(first[i] == k);
            }
        }
        if exists|i: int|
            0 <= i < keys.len() && k == encrypt::header_key_of(suffix, #[trigger] keys[i]) {
            let i = choose|i: int|
                0 <= i < keys.len() && k == encrypt::header_key_of(suffix, #[trigger] keys[i]);
            if i < first.len() {
                assert(k == encrypt::header_key_of(suffix, first[i]));
            }
        }
    }
}

/// A delete of keys that are not reserved removes data and header of each, so
/// that neither is left in the inner store, and changes no other blob.
pub proof fn law_delete_removes_data_and_header(
    suffix: Seq<char>,
    store: Contents,
    keys: Seq<Seq<char>>,
    dec: Decrypt,
)
    requires
        encrypt::keys_check(suffix, keys) is Ok,
    ensures
        ({
            let after = model::delete_all(store, encrypt::with_headers(suffix, keys));
            &&& plain(suffix, after, dec) == model::delete_all(plain(suffix, store, dec), keys)
            &&& forall|i: int|
                0 <= i < keys.len() ==> !after.dom().contains(#[trigger] keys[i])
                    && !after.dom().contains(encrypt::header_key_of(suffix, keys[i]))
        }),
{
    let all = encrypt::with_headers(suffix, keys);
    let after = model::delete_all(store, all);
    lemma_no_collisions(suffix, keys);
    assert forall|k: Seq<char>| #[trigger] is_blob(suffix, after, k) == (is_blob(suffix, store, k)
        && !keys.contains(k)) by {
        let h = encrypt::header_key_of(suffix, k);
        lemma_with_headers(suffix, keys, k);
        lemma_with_headers(suffix, keys, h);
        lemma_header_keys(suffix, k, k);
        if !encrypt::is_header_key(suffix, k) {
            if exists|i: int|
                0 <= i < keys.len() && k == encrypt::header_key_of(suffix, #[trigger] keys[i]) {
                let i = choose|i: int|
                    0 <= i < keys.len() && k == encrypt::header_key_of(suffix, #[trigger] keys[i]);
                lemma_header_keys(suffix, keys[i], keys[i]);
            }
            if exists|i: int|
                0 <= i < keys.len() && h == encrypt::header_key_of(suffix, #[trigger] keys[i]) {
                let i = choose|i: int|
                    0 <= i < keys.len() && h == encrypt::header_key_of(suffix, #[trigger] keys[i]);
                lemma_header_keys(suffix, k, keys[i]);
                assert(keys.contains(k));
            }
            if keys.contains(h) {
                let i = choose|i: int| 0 <= i < keys.len() && keys[i] == h;
                assert(!encrypt::is_header_key(suffix, keys[i]));
            }
        }
    }
    assert forall|i: int| 0 <= i < keys.len() implies !after.dom().contains(#[trigger] keys[i])
        && !after.dom().contains(encrypt::header_key_of(suffix, keys[i])) by {
        lemma_with_headers(suffix, keys, keys[i]);
        lemma_with_headers(suffix, keys, encrypt::header_key_of(suffix, keys[i]));
        assert(keys.contains(keys[i]));
    }
    assert(plain(suffix, after, dec) =~= model::delete_all(plain(suffix, store, dec), keys));
}

/// Where no key is refused, none is reserved.
proof fn lemma_no_collisions(suffix: Seq<char>, keys: Seq<Seq<char>>)
    requires
        encrypt::no_collisions(suffix, keys) is Ok,
    ensures
        forall|i: int| 0 <= i < keys.len() ==> !encrypt::is_header_key(suffix, #[trigger] keys[i]),
    decreases keys.len(),
{
    if keys.len() > 0 {
        let rest = keys.skip(1);
        lemma_no_collisions(suffix, rest);
        assert forall|i: int| 0 <= i < keys.len() implies !encrypt::is_header_key(
            suffix,
            #[trigger] keys[i],
        ) by {
            if i > 0 {
                assert(rest[i - 1] == keys[i]);
            }
        }
    }
}

/// The error of a delete speaks only of keys that were given, and so of no
/// header; it comes exactly when one of the given keys failed. Every failure of
/// a given key is in it.
pub proof fn law_delete_error_names_only_given_keys(
    keys: Seq<Seq<char>>,
    batch: crate::error::BatchErrorView,
)
    ensures
        match encrypt::delete_outcome(keys, Err(ErrorView::Batch(batch))) {
            Ok(()) => forall|i: int|
                0 <= i < batch.errors.len() ==> !keys.contains((#[trigger] batch.errors[i]).key),
            Err(ErrorView::Batch(own)) => {
                &&& own.errors.len() > 0
                &&& forall|i: int|
                    0 <= i < own.errors.len() ==> keys.contains((#[trigger] own.errors[i]).key)
                &&& forall|i: int|
                    0 <= i < own.succeeded.len() ==> keys.contains(#[trigger] own.succeeded[i])
                &&& forall|i: int|
                    0 <= i < batch.errors.len() && keys.contains((#[trigger] batch.errors[i]).key)
                        ==> own.errors.contains(batch.errors[i])
                &&& forall|i: int|
                    0 <= i < batch.succeeded.len() && keys.contains(#[trigger] batch.succeeded[i])
                        ==> own.succeeded.contains(batch.succeeded[i])
            },
            _ => false,
        },
{
    let by_key = |k: Seq<char>| keys.contains(k);
    let by_error = |e: crate::error::KeyErrorView| keys.contains(e.key);
    let own = encrypt::batch_of(keys, batch);
    assert forall|i: int|
        0 <= i < batch.errors.len() && keys.contains(
            (#[trigger] batch.errors[i]).key,
        ) implies own.errors.contains(batch.errors[i]) by {
        assert(by_error(batch.errors[i]));
        assert(batch.errors.contains(batch.errors[i]));
    }
    assert forall|i: int|
        0 <= i < batch.succeeded.len() && keys.contains(
            #[trigger] batch.succeeded[i],
        ) implies own.succeeded.contains(batch.succeeded[i]) by {
        assert(by_key(batch.succeeded[i]));
        assert(batch.succeeded.contains(batch.succeeded[i]));
    }
    assert forall|i: int| 0 <= i < own.errors.len() implies keys.contains(
        (#[trigger] own.errors[i]).key,
    ) by {
        assert(by_error(own.errors[i]));
    }
    assert forall|i: int| 0 <= i < own.succeeded.len() implies keys.contains(
        #[trigger] own.succeeded[i],
    ) by {
        assert(by_key(own.succeeded[i]));
    }
}

/// The result of a listing, once it has run to its end.
pub open spec fn run_list(step: ListStepView, store: Contents) -> core::result::Result<
    Seq<Seq<char>>,
    ErrorView,
>
    decreases
            (match step {
                ListStepView::CheckHeader { rest, .. } => rest.pending.len() + 1,
                ListStepView::Done(_) => 0,
            }),
{
    match step {
        ListStepView::CheckHeader { header_key, key, rest } => run_list(
            listing::after_candidate(
                key,
                rest,
                Ok::<bool, BlobStorageError>(store.dom().contains(header_key)),
            ),
            store,
        ),
        ListStepView::Done(r) => r,
    }
}

/// A listing of candidates gives those that have a header, in their order.
proof fn lemma_run_list(rest: ListRestView, store: Contents)
    ensures
        run_list(listing::next_candidate(rest), store) == Ok::<Seq<Seq<char>>, ErrorView>(
            rest.listed + rest.pending.filter(
                |k: Seq<char>| store.dom().contains(encrypt::header_key_of(rest.suffix, k)),
            ),
        ),
    decreases rest.pending.len(),
{
    let has = |k: Seq<char>| store.dom().contains(encrypt::header_key_of(rest.suffix, k));
    if rest.pending.len() == 0 {
        reveal(Seq::filter);
        assert(rest.listed + rest.pending.filter(has) =~= rest.listed);
    } else {
        let key = rest.pending[0];
        let later = rest.pending.skip(1);
        assert(rest.pending =~= seq![key] + later);
        lemma_filter_front(key, later, has);
        let rest1 = ListRestView { pending: later, ..rest };
        if has(key) {
            let rest2 = ListRestView { listed: rest.listed.push(key), ..rest1 };
            lemma_run_list(rest2, store);
            assert(rest.listed.push(key) + later.filter(has) =~= rest.listed + (seq![key]
                + later.filter(has)));
        } else {
            lemma_run_list(rest1, store);
            assert(seq![] + later.filter(has) =~= later.filter(has));
        }
    }
}

/// Filtering decides about the first element and about the rest.
pub proof fn lemma_filter_front<T>(x: T, s: Seq<T>, p: spec_fn(T) -> bool)
    ensures
        (seq![x] + s).filter(p) == if p(x) {
            seq![x] + s.filter(p)
        } else {
            s.filter(p)
        },
{
    Seq::filter_distributes_over_add(seq![x], s, p);
    assert(seq![x].filter(p) =~= if p(x) {
        seq![x]
    } else {
        seq![]
    }) by {
        reveal_with_fuel(Seq::filter, 2);
        assert(seq![x].drop_last() =~= seq![]);
    }
    if !p(x) {
        assert(seq![] + s.filter(p) =~= s.filter(p));
    }
}

/// Filtering twice is filtering by both.
proof fn lemma_filter_filter<T>(
    s: Seq<T>,
    p: spec_fn(T) -> bool,
    q: spec_fn(T) -> bool,
    both: spec_fn(T) -> bool,
)
    requires
        forall|x: T| #[trigger] both(x) == (p(x) && q(x)),
    ensures
        s.filter(p).filter(q) == s.filter(both),
    decreases s.len(),
{
    reveal(Seq::filter);
    if s.len() > 0 {
        let first = s.drop_last();
        lemma_filter_filter(first, p, q, both);
        let x = s.last();
        if p(x) {
            assert(first.filter(p).push(x).drop_last() =~= first.filter(p));
        }
    }
}

/// A listing gives exactly the blobs that the filter selects, in the order of
/// the inner store's listing: no header, and no data without a header. Where the
/// inner store has listed everything once, in ascending order, so does the layer
/// for its blobs.
pub proof fn law_list_shows_exactly_the_blobs<F: ListFilter>(
    suffix: Seq<char>,
    store: Contents,
    filter: F,
    all: Seq<Seq<char>>,
)
    requires
        model::lists(all, store),
    ensures
        run_list(
            listing::next_candidate(
                ListRestView {
                    suffix,
                    pending: listing::candidates(suffix, &filter, all),
                    listed: seq![],
                },
            ),
            store,
        ) == Ok::<Seq<Seq<char>>, ErrorView>(
            all.filter(|k: Seq<char>| is_blob(suffix, store, k) && filter.accepts(k, None)),
        ),
{
    let rest = ListRestView {
        suffix,
        pending: listing::candidates(suffix, &filter, all),
        listed: seq![],
    };
    lemma_run_list(rest, store);
    let wanted = |k: Seq<char>| !encrypt::is_header_key(suffix, k) && filter.accepts(k, None);
    let has = |k: Seq<char>| store.dom().contains(encrypt::header_key_of(suffix, k));
    let both = |k: Seq<char>| wanted(k) && has(k);
    let shown = |k: Seq<char>| is_blob(suffix, store, k) && filter.accepts(k, None);
    lemma_filter_filter(all, wanted, has, both);
    assert forall|i: int| 0 <= i < all.len() implies both(#[trigger] all[i]) == shown(all[i]) by {
        assert(all.to_set().contains(all[i]));
    }
    lemma_filter_same(all, both, shown);
    assert(rest.listed + rest.pending.filter(has) =~= rest.pending.filter(has));
}

/// Conditions that agree on the elements filter alike.
pub proof fn lemma_filter_same<T>(s: Seq<T>, p: spec_fn(T) -> bool, q: spec_fn(T) -> bool)
    requires
        forall|i: int| 0 <= i < s.len() ==> p(#[trigger] s[i]) == q(s[i]),
    ensures
        s.filter(p) == s.filter(q),
    decreases s.len(),
{
    reveal(Seq::filter);
    if s.len() > 0 {
        let first = s.drop_last();
        assert forall|i: int| 0 <= i < first.len() implies p(#[trigger] first[i]) == q(
            first[i],
        ) by {
            assert(first[i] == s[i]);
        }
        lemma_filter_same(first, p, q);
        assert(s.last() == s[s.len() - 1]);
    }
}

/// The entries of a listing with metadata, once it has run to its end.
/// `metadata` is what the inner store has for a data key.
pub open spec fn run_list_with_metadata(
    step: MetaStepView,
    store: Contents,
    metadata: spec_fn(Seq<char>) -> BlobMetaView,
) -> core::result::Result<Seq<BlobMetaView>, ErrorView>
    decreases
            (match step {
                MetaStepView::CheckHeader { rest, .. } => 2 * rest.pending.len() + 2,
                MetaStepView::FetchMeta { rest, .. } => 2 * rest.pending.len() + 1,
                _ => 0,
            }),
{
    match step {
        MetaStepView::CheckHeader { header_key, key, rest } => run_list_with_metadata(
            listing::after_meta_header(
                key,
                rest,
                Ok::<bool, BlobStorageError>(store.dom().contains(header_key)),
            ),
            store,
            metadata,
        ),
        MetaStepView::FetchMeta { data_key, key, rest } => run_list_with_metadata(
            listing::after_meta(
                key,
                rest,
                if store.dom().contains(data_key) {
                    Ok(metadata(data_key))
                } else {
                    Err(ErrorView::NotFound(data_key))
                },
            ),
            store,
            metadata,
        ),
        MetaStepView::Finished(metas) => Ok(metas),
        MetaStepView::Failed(e) => Err(e),
    }
}

/// A listing with metadata of candidates gives an entry for each that is a blob.
proof fn lemma_run_list_with_metadata(
    rest: MetaRestView,
    store: Contents,
    metadata: spec_fn(Seq<char>) -> BlobMetaView,
)
    ensures
        run_list_with_metadata(listing::next_meta(rest), store, metadata) == Ok::<
            Seq<BlobMetaView>,
            ErrorView,
        >(
            rest.metas + rest.pending.filter(
                |k: Seq<char>|
                    store.dom().contains(k) && store.dom().contains(
                        encrypt::header_key_of(rest.suffix, k),
                    ),
            ).map_values(|k: Seq<char>| metadata(k).with_key(k)),
        ),
    decreases rest.pending.len(),
{
    let both = |k: Seq<char>|
        store.dom().contains(k) && store.dom().contains(encrypt::header_key_of(rest.suffix, k));
    let entry = |k: Seq<char>| metadata(k).with_key(k);
    if rest.pending.len() == 0 {
        reveal(Seq::filter);
        assert(rest.metas + rest.pending.filter(both).map_values(entry) =~= rest.metas);
    } else {
        let key = rest.pending[0];
        let later = rest.pending.skip(1);
        assert(rest.pending =~= seq![key] + later);
        lemma_filter_front(key, later, both);
        let rest1 = MetaRestView { pending: later, ..rest };
        if store.dom().contains(encrypt::header_key_of(rest.suffix, key)) {
            let step = MetaStepView::FetchMeta { data_key: key, key, rest: rest1 };
            assert(run_list_with_metadata(listing::next_meta(rest), store, metadata)
                == run_list_with_metadata(step, store, metadata));
            if store.dom().contains(key) {
                let rest2 = MetaRestView { metas: rest.metas.push(entry(key)), ..rest1 };
                lemma_run_list_with_metadata(rest2, store, metadata);
                assert(rest.metas.push(entry(key)) + later.filter(both).map_values(entry)
                    =~= rest.metas + (seq![key] + later.filter(both)).map_values(entry));
            } else {
                lemma_run_list_with_metadata(rest1, store, metadata);
            }
        } else {
            lemma_run_list_with_metadata(rest1, store, metadata);
        }
    }
}

/// A listing with metadata gives an entry for exactly the blobs that a listing
/// gives, with the metadata that the inner store has for their data.
pub proof fn law_metadata_listing_matches_listing<F: ListFilter>(
    suffix: Seq<char>,
    store: Contents,
    filter: F,
    all: Seq<Seq<char>>,
    metadata: spec_fn(Seq<char>) -> BlobMetaView,
)
    requires
        model::lists(all, store),
    ensures
        run_list_with_metadata(
            listing::next_meta(
                MetaRestView {
                    suffix,
                    pending: listing::candidates(suffix, &filter, all),
                    metas: seq![],
                },
            ),
            store,
            metadata,
        ) == Ok::<Seq<BlobMetaView>, ErrorView>(
            all.filter(
                |k: Seq<char>| is_blob(suffix, store, k) && filter.accepts(k, None),
            ).map_values(|k: Seq<char>| metadata(k).with_key(k)),
        ),
{
    let rest = MetaRestView {
        suffix,
        pending: listing::candidates(suffix, &filter, all),
        metas: seq![],
    };
    lemma_run_list_with_metadata(rest, store, metadata);
    let wanted = |k: Seq<char>| !encrypt::is_header_key(suffix, k) && filter.accepts(k, None);
    let has = |k: Seq<char>|
        store.dom().contains(k) && store.dom().contains(encrypt::header_key_of(suffix, k));
    let shown = |k: Seq<char>| is_blob(suffix, store, k) && filter.accepts(k, None);
    let entry = |k: Seq<char>| metadata(k).with_key(k);
    assert forall|k: Seq<char>| #[trigger] shown(k) == (wanted(k) && has(k)) by {}
    lemma_filter_filter(all, wanted, has, shown);
    assert(rest.metas + rest.pending.filter(has).map_values(entry) =~= rest.pending.filter(
        has,
    ).map_values(entry));
}

/// A visit shows exactly the blobs that the filter selects: no header, and no
/// data without a header.
pub proof fn law_visit_shows_exactly_the_blobs<F: ListFilter>(
    suffix: Seq<char>,
    store: Contents,
    filter: F,
    key: Seq<char>,
    meta: Option<BlobMetaView>,
)
    requires
        store.dom().contains(key),
    ensures
        listing::is_shown(
            suffix,
            &filter,
            key,
            meta,
            store.dom().contains(encrypt::header_key_of(suffix, key)),
        ) <==> is_blob(suffix, store, key) && filter.accepts(key, meta),
{
}

/// The inner store after a rekey run over the given header keys, and the number
/// of headers that were rewritten. `rewrap` is what the encryption provider does
/// with a header. The inner store takes every header, and each that it has can be
/// read.
pub open spec fn run_rekey(
    headers: Seq<Seq<char>>,
    store: Contents,
    rewrap: spec_fn(Seq<u8>) -> Option<Seq<u8>>,
) -> (Contents, nat)
    decreases headers.len(),
{
    if headers.len() == 0 {
        (store, 0)
    } else {
        let (before, count) = run_rekey(headers.drop_last(), store, rewrap);
        match rekey::after_fetch(headers.last(), header_reply(before, headers.last())) {
            RekeyStepView::Rewrap { header, key, size } => match rekey::replacement(
                key,
                size,
                Ok(rewrap(header)),
            ) {
                Some(input) => (
                    before.insert(input.key, input.data),
                    rekey::counted(count, true),
                ),
                None => (before, count),
            },
            _ => (before, count),
        }
    }
}

/// A rekey run changes the visited headers only, each by one wrapping.
proof fn lemma_run_rekey(
    headers: Seq<Seq<char>>,
    store: Contents,
    rewrap: spec_fn(Seq<u8>) -> Option<Seq<u8>>,
)
    requires
        headers.no_duplicates(),
    ensures
        run_rekey(headers, store, rewrap).0.dom() == store.dom(),
        forall|k: Seq<char>| #[trigger]
            store.dom().contains(k) ==> run_rekey(headers, store, rewrap).0[k] == if headers.contains(
                k,
            ) {
                match rewrap(store[k]) {
                    Some(new) => new,
                    None => store[k],
                }
            } else {
                store[k]
            },
        run_rekey(headers, store, rewrap).1 == headers.filter(
            |k: Seq<char>| store.dom().contains(k) && rewrap(store[k]) is Some,
        ).len(),
    decreases headers.len(),
{
    let stale = |k: Seq<char>| store.dom().contains(k) && rewrap(store[k]) is Some;
    reveal(Seq::filter);
    if headers.len() > 0 {
        let first = headers.drop_last();
        let key = headers.last();
        assert forall|i: int, j: int| 0 <= i < j < first.len() implies first[i] != first[j] by {
            assert(first[i] == headers[i] && first[j] == headers[j]);
        }
        lemma_run_rekey(first, store, rewrap);
        let before = run_rekey(first, store, rewrap).0;
        let after = run_rekey(headers, store, rewrap).0;
        assert(after.dom() =~= store.dom());
        assert(!first.contains(key)) by {
            if first.contains(key) {
                let i = choose|i: int| 0 <= i < first.len() && first[i] == key;
                assert(headers[i] == headers[headers.len() - 1]);
            }
        }
        assert forall|k: Seq<char>| #[trigger] store.dom().contains(k) implies after[k]
            == if headers.contains(k) {
            match rewrap(store[k]) {
                Some(new) => new,
                None => store[k],
            }
        } else {
            store[k]
        } by {
            if k == key {
                assert(headers[headers.len() - 1] == key);
                assert(before[k] == store[k]);
            } else {
                if first.contains(k) {
                    let i = choose|i: int| 0 <= i < first.len() && first[i] == k;
                    assert(headers[i] == k);
                }
                if headers.contains(k) {
                    let i = choose|i: int| 0 <= i < headers.len() && headers[i] == k;
                    assert(first[i] == k);
                }
            }
        }
    }
}

/// A rekey run rewrites headers and no data: every blob stays, and where the
/// rewritten headers decrypt as the old ones did, reads back as before. Each header
/// that is out of date becomes exactly its new wrapping, and everything else in the
/// inner store stays. The run counts the headers that were out of date. Where a rewritten header is up to
/// date, a second run finds nothing to do.
pub proof fn law_rekey_keeps_blobs(
    suffix: Seq<char>,
    store: Contents,
    headers: Seq<Seq<char>>,
    rewrap: spec_fn(Seq<u8>) -> Option<Seq<u8>>,
    dec: Decrypt,
)
    requires
        headers.no_duplicates(),
        forall|k: Seq<char>| #[trigger]
            headers.contains(k) <==> store.dom().contains(k) && encrypt::is_header_key(suffix, k),
        forall|c: Seq<u8>, h: Seq<u8>|
            #![trigger dec(c, h)]
            rewrap(h) matches Some(new) ==> dec(c, new) == dec(c, h),
        forall|h: Seq<u8>| (#[trigger] rewrap(h)) matches Some(new) ==> rewrap(new) is None,
    ensures
        ({
            let (after, count) = run_rekey(headers, store, rewrap);
            &&& plain(suffix, after, dec) == plain(suffix, store, dec)
            &&& after.dom() == store.dom()
            &&& forall|k: Seq<char>| #[trigger]
                store.dom().contains(k) && encrypt::is_header_key(suffix, k) ==> (match rewrap(
                    store[k],
                ) {
                    Some(new) => after[k] == new,
                    None => after[k] == store[k],
                })
            &&& forall|k: Seq<char>| #[trigger]
                store.dom().contains(k) && !encrypt::is_header_key(suffix, k) ==> after[k]
                    == store[k]
            &&& count == headers.filter(|k: Seq<char>| rewrap(store[k]) is Some).len()
            &&& run_rekey(headers, after, rewrap) == (after, 0nat)
        }),
{
    lemma_run_rekey(headers, store, rewrap);
    let (after, count) = run_rekey(headers, store, rewrap);
    assert forall|k: Seq<char>| #[trigger] is_blob(suffix, store, k) implies dec(
        after[k],
        after[encrypt::header_key_of(suffix, k)],
    ) == dec(store[k], store[encrypt::header_key_of(suffix, k)]) by {
        let h = encrypt::header_key_of(suffix, k);
        assert(store.dom().contains(k));
        assert(!headers.contains(k));
        assert(store.dom().contains(h));
        let _ = dec(store[k], store[h]);
    }
    assert(plain(suffix, after, dec) =~= plain(suffix, store, dec));
    assert forall|i: int| 0 <= i < headers.len() implies store.dom().contains(
        #[trigger] headers[i],
    ) by {
        assert(headers.contains(headers[i]));
    }
    lemma_filter_same(
        headers,
        |k: Seq<char>| store.dom().contains(k) && rewrap(store[k]) is Some,
        |k: Seq<char>| rewrap(store[k]) is Some,
    );
    lemma_run_rekey(headers, after, rewrap);
    let again = run_rekey(headers, after, rewrap).0;
    assert forall|k: Seq<char>| #[trigger] after.dom().contains(k) implies again[k] == after[k] by {
        assert(store.dom().contains(k));
        let _ = rewrap(store[k]);
    }
    assert(again =~= after);
    assert forall|i: int| 0 <= i < headers.len() implies !(after.dom().contains(
        #[trigger] headers[i],
    ) && rewrap(after[headers[i]]) is Some) by {
        let k = headers[i];
        assert(headers.contains(k));
        assert(store.dom().contains(k));
        let _ = rewrap(store[k]);
    }
    lemma_filter_same(
        headers,
        |k: Seq<char>| after.dom().contains(k) && rewrap(after[k]) is Some,
        |k: Seq<char>| false,
    );
    lemma_filter_none(headers);
}

/// Filtering by an impossible condition leaves nothing.
pub proof fn lemma_filter_none<T>(s: Seq<T>)
    ensures
        s.filter(|x: T| false).len() == 0,
    decreases s.len(),
{
    reveal(Seq::filter);
    if s.len() > 0 {
        lemma_filter_none(s.drop_last());
    }
}

} // verus!
