//! The laws of the prefix layer, over an inner store that keeps what it is
//! given.
//!
//! Seen through the layer, the inner store is again a store: of the blobs whose
//! keys have the prefix, under their logical keys.

use vstd::prelude::*;

use crate::error::BatchErrorView;
use crate::error::ErrorView;
use crate::error::KeyErrorView;
use crate::list_filter;
use crate::list_filter::ListFilter;
use crate::model;
use crate::model::Contents;
use crate::order;
use crate::prefix;
use crate::prefix::CombinedPrefixFilter;
use crate::timestamp::Timestamp;
use crate::types;
use crate::types::BlobInputView;
use crate::types::BlobMetaView;
use crate::validate;

verus! {

/// The inner store as seen through the layer.
pub open spec fn seen(prefix: Seq<char>, store: Contents) -> Contents {
    Map::new(|k: Seq<char>| store.dom().contains(prefix + k), |k: Seq<char>| store[prefix + k])
}

/// Taking the prefix off undoes putting it on, and putting it on undoes taking
/// it off. So different logical keys never meet in the inner store.
pub proof fn law_prefix_round_trip(prefix: Seq<char>, a: Seq<char>, b: Seq<char>)
    ensures
        prefix::stripped(prefix, prefix + a) == Some(a),
        prefix::logical(prefix, prefix + a) == a,
        prefix + a == prefix + b ==> a == b,
        prefix::stripped(prefix, b) matches Some(k) ==> prefix + k == b,
{
    assert((prefix + a).take(prefix.len() as int) =~= prefix);
    assert((prefix + a).skip(prefix.len() as int) =~= a);
    assert((prefix + b).skip(prefix.len() as int) =~= b);
    if prefix.is_prefix_of(b) {
        assert(prefix + b.skip(prefix.len() as int) =~= b);
    }
}

/// A put through the layer of blobs with valid keys acts on the logical keys as a
/// put does, and leaves alone whatever does not have the prefix. Where any logical
/// key is invalid, the inner store is asked for nothing, also where the prefixed
/// key would be valid.
pub proof fn law_put_keeps_other_prefixes(
    prefix: Seq<char>,
    store: Contents,
    blobs: Seq<BlobInputView<Seq<u8>>>,
)
    ensures
        match prefix::put_requested(prefix, blobs) {
            Ok(request) => {
                let after = model::put_all(store, request);
                &&& validate::validation_of_all(validate::blob_keys(blobs)) is Ok
                &&& seen(prefix, after) == model::put_all(seen(prefix, store), blobs)
                &&& forall|k: Seq<char>|
                    !prefix.is_prefix_of(k) ==> model::lookup(after, k) == #[trigger] model::lookup(
                        store,
                        k,
                    )
            },
            Err(e) => validate::validation_of_all(validate::blob_keys(blobs)) == Err::<
                (),
                ErrorView,
            >(e) && e is InvalidInput,
        },
{
    lemma_put_prefixed(prefix, store, blobs);
    validate::lemma_validation_error(validate::blob_keys(blobs));
}

/// Storing blobs under prefixed keys.
proof fn lemma_put_prefixed(
    prefix: Seq<char>,
    store: Contents,
    blobs: Seq<BlobInputView<Seq<u8>>>,
)
    ensures
        ({
            let request = blobs.map_values(
                |b: BlobInputView<Seq<u8>>| prefix::prefixed_blob(prefix, b),
            );
            let after = model::put_all(store, request);
            &&& seen(prefix, after) == model::put_all(seen(prefix, store), blobs)
            &&& forall|k: Seq<char>|
                !prefix.is_prefix_of(k) ==> model::lookup(after, k) == #[trigger] model::lookup(
                    store,
                    k,
                )
        }),
    decreases blobs.len(),
{
    let rename = |b: BlobInputView<Seq<u8>>| prefix::prefixed_blob(prefix, b);
    let request = blobs.map_values(rename);
    if blobs.len() > 0 {
        let key = blobs[0].key;
        let next = store.insert(prefix + key, blobs[0].data);
        lemma_put_prefixed(prefix, next, blobs.skip(1));
        assert(request.skip(1) =~= blobs.skip(1).map_values(rename));
        law_prefix_round_trip(prefix, key, key);
        assert(seen(prefix, next) =~= seen(prefix, store).insert(key, blobs[0].data)) by {
            assert forall|k: Seq<char>| prefix + k == prefix + key implies k == key by {
                law_prefix_round_trip(prefix, k, key);
            }
        }
        assert forall|k: Seq<char>| !prefix.is_prefix_of(k) implies model::lookup(next, k)
            == #[trigger] model::lookup(store, k) by {
            assert(k != prefix + key);
        }
        let after = model::put_all(store, request);
        assert(after == model::put_all(next, request.skip(1)));
        assert forall|k: Seq<char>| !prefix.is_prefix_of(k) implies model::lookup(after, k)
            == #[trigger] model::lookup(store, k) by {
            assert(model::lookup(next, k) == model::lookup(store, k));
        }
    } else {
        assert(request.len() == 0);
    }
}

/// A retrieval through the layer of a valid key finds what the logical store
/// holds, and reports a missing blob under its logical key. An invalid logical key
/// is refused.
pub proof fn law_get_reports_logical_keys(prefix: Seq<char>, store: Contents, key: Seq<char>)
    ensures
        (match prefix::read_requested(prefix, key) {
            Ok(request) => match model::lookup(store, request) {
                Ok(data) => Ok(data),
                Err(e) => Err(e.missing_as(key)),
            },
            Err(e) => Err(e),
        }) == match validate::validation(key) {
            Ok(()) => model::lookup(seen(prefix, store), key),
            Err(e) => Err(e),
        },
{
}

/// A delete through the layer of valid keys acts on the logical keys as a delete
/// does, and leaves alone whatever does not have the prefix. Where any logical key
/// is invalid, the inner store is asked for nothing.
pub proof fn law_delete_keeps_other_prefixes(
    prefix: Seq<char>,
    store: Contents,
    keys: Seq<Seq<char>>,
)
    ensures
        match prefix::delete_requested(prefix, keys) {
            Ok(request) => {
                let after = model::delete_all(store, request);
                &&& validate::validation_of_all(keys) is Ok
                &&& seen(prefix, after) == model::delete_all(seen(prefix, store), keys)
                &&& forall|k: Seq<char>|
                    !prefix.is_prefix_of(k) ==> model::lookup(after, k) == #[trigger] model::lookup(
                        store,
                        k,
                    )
            },
            Err(e) => validate::validation_of_all(keys) == Err::<(), ErrorView>(e)
                && e is InvalidInput,
        },
{
    validate::lemma_validation_error(keys);
    let request = keys.map_values(|k: Seq<char>| prefix + k);
    let after = model::delete_all(store, request);
    assert forall|k: Seq<char>| request.contains(#[trigger] (prefix + k)) == keys.contains(k) by {
        if keys.contains(k) {
            let i = choose|i: int| 0 <= i < keys.len() && keys[i] == k;
            assert(request[i] == prefix + k);
        }
        if request.contains(prefix + k) {
            let i = choose|i: int| 0 <= i < request.len() && request[i] == prefix + k;
            law_prefix_round_trip(prefix, keys[i], k);
        }
    }
    assert forall|k: Seq<char>| !prefix.is_prefix_of(k) implies !request.contains(k) by {
        if request.contains(k) {
            let i = choose|i: int| 0 <= i < request.len() && request[i] == k;
            law_prefix_round_trip(prefix, keys[i], keys[i]);
        }
    }
    assert(seen(prefix, after) =~= model::delete_all(seen(prefix, store), keys));
}

/// A batch error of the inner store about prefixed keys becomes one about the
/// logical keys: the same keys in the same order, none lost and none showing
/// the prefix.
pub proof fn law_batch_error_is_logical(
    prefix: Seq<char>,
    succeeded: Seq<Seq<char>>,
    errors: Seq<KeyErrorView>,
)
    ensures
        prefix::logical_batch(
            prefix,
            BatchErrorView {
                succeeded: succeeded.map_values(|k: Seq<char>| prefix + k),
                errors: errors.map_values(
                    |e: KeyErrorView| KeyErrorView { key: prefix + e.key, ..e },
                ),
            },
        ) == (BatchErrorView { succeeded, errors }),
{
    let done = succeeded.map_values(|k: Seq<char>| prefix + k);
    let failed = errors.map_values(|e: KeyErrorView| KeyErrorView { key: prefix + e.key, ..e });
    let out = prefix::logical_batch(prefix, BatchErrorView { succeeded: done, errors: failed });
    lemma_strip_all(prefix, succeeded);
    assert forall|i: int| 0 <= i < errors.len() implies #[trigger] out.errors[i] == errors[i] by {
        law_prefix_round_trip(prefix, errors[i].key, errors[i].key);
        assert(failed[i] == (KeyErrorView { key: prefix + errors[i].key, ..errors[i] }));
    }
    assert(out.errors =~= errors);
}

/// Stripping prefixed keys gives the keys.
proof fn lemma_strip_all(prefix: Seq<char>, keys: Seq<Seq<char>>)
    ensures
        keys.map_values(|k: Seq<char>| prefix + k).filter_map(
            |k: Seq<char>| prefix::stripped(prefix, k),
        ) == keys,
    decreases keys.len(),
{
    let rename = |k: Seq<char>| prefix + k;
    let strip = |k: Seq<char>| prefix::stripped(prefix, k);
    let all = keys.map_values(rename);
    if keys.len() > 0 {
        let first = keys.drop_last();
        lemma_strip_all(prefix, first);
        law_prefix_round_trip(prefix, keys.last(), keys.last());
        all.lemma_filter_map_take_succ(strip, keys.len() - 1);
        assert(all.take(keys.len() as int) =~= all);
        assert(all.take(keys.len() - 1) =~= first.map_values(rename));
        assert(all.filter_map(strip) =~= keys);
    } else {
        assert(all.filter_map(strip) =~= keys);
    }
}

/// A common prefix does not change the order of keys.
pub proof fn lemma_prefix_keeps_order(prefix: Seq<char>, a: Seq<char>, b: Seq<char>)
    ensures
        order::key_le(prefix + a, prefix + b) == order::key_le(a, b),
    decreases prefix.len(),
{
    if prefix.len() == 0 {
        assert(prefix + a =~= a);
        assert(prefix + b =~= b);
    } else {
        lemma_prefix_keeps_order(prefix.skip(1), a, b);
        assert((prefix + a).skip(1) =~= prefix.skip(1) + a);
        assert((prefix + b).skip(1) =~= prefix.skip(1) + b);
    }
}

/// What `filter_map` gives stands in the order of what it came from.
proof fn lemma_filter_map_origin<A, B>(s: Seq<A>, f: spec_fn(A) -> Option<B>) -> (origin: Seq<int>)
    ensures
        origin.len() == s.filter_map(f).len(),
        forall|i: int|
            0 <= i < origin.len() ==> 0 <= #[trigger] origin[i] < s.len() && f(s[origin[i]])
                == Some(s.filter_map(f)[i]),
        forall|i: int, j: int|
            0 <= i < j < origin.len() ==> #[trigger] origin[i] < #[trigger] origin[j],
        forall|k: int|
            0 <= k < s.len() && f(#[trigger] s[k]) is Some ==> s.filter_map(f).contains(f(s[k])->0),
    decreases s.len(),
{
    if s.len() == 0 {
        seq![]
    } else {
        let n = s.len() - 1;
        let first = s.drop_last();
        let before = lemma_filter_map_origin(first, f);
        s.lemma_filter_map_take_succ(f, n);
        assert(s.take(s.len() as int) =~= s);
        assert(s.take(n) =~= first);
        let out = s.filter_map(f);
        let kept = first.filter_map(f);
        let origin = if f(s[n]) is Some {
            before.push(n)
        } else {
            before
        };
        assert forall|k: int| 0 <= k < s.len() && f(#[trigger] s[k]) is Some implies out.contains(
            f(s[k])->0,
        ) by {
            if k < n {
                assert(first[k] == s[k]);
                let v = f(first[k])->0;
                let i = choose|i: int| 0 <= i < kept.len() && kept[i] == v;
                assert(out[i] == v);
            } else {
                assert(out[kept.len() as int] == f(s[n])->0);
            }
        }
        assert forall|i: int| 0 <= i < origin.len() implies 0 <= #[trigger] origin[i] < s.len()
            && f(s[origin[i]]) == Some(out[i]) by {
            if i < before.len() {
                assert(first[before[i]] == s[before[i]]);
                assert(out[i] == kept[i]);
            }
        }
        origin
    }
}

/// A listing through the layer gives exactly the logical keys that the caller's
/// filter selects, each once, provided that the filter's hint leaves out nothing
/// that the filter selects. It ascends where the inner listing ascends. The
/// prefix shows up nowhere.
pub proof fn law_list_shows_logical_keys<F: ListFilter>(
    prefix: Seq<char>,
    store: Contents,
    filter: F,
    inner_filter: CombinedPrefixFilter,
    keys: Seq<Seq<char>>,
    now: Timestamp,
)
    requires
        list_filter::hint_sound(&filter),
        inner_filter.full@ == CombinedPrefixFilter::combined(prefix, filter.hint()),
        order::sorted(keys),
        keys.no_duplicates(),
        forall|k: Seq<char>| #[trigger]
            keys.contains(k) <==> store.dom().contains(k) && inner_filter.accepts(k, None),
    ensures
        ({
            let result = prefix::listing(prefix, &filter, now, keys);
            &&& order::sorted(result)
            &&& result.no_duplicates()
            &&& forall|k: Seq<char>| #[trigger]
                result.contains(k) <==> seen(prefix, store).dom().contains(k) && filter.accepts(
                    k,
                    Some(types::placeholder(k, now)),
                )
        }),
{
    let pick = |k: Seq<char>| prefix::listed(prefix, &filter, now, k);
    let result = prefix::listing(prefix, &filter, now, keys);
    let origin = lemma_filter_map_origin(keys, pick);
    assert forall|i: int| 0 <= i < result.len() implies keys[origin[i]] == prefix
        + #[trigger] result[i] by {
        law_prefix_round_trip(prefix, result[i], keys[origin[i]]);
    }
    assert forall|i: int, j: int| 0 <= i <= j < result.len() implies order::key_le(
        #[trigger] result[i],
        #[trigger] result[j],
    ) by {
        lemma_prefix_keeps_order(prefix, result[i], result[j]);
        if i < j {
            assert(origin[i] < origin[j]);
        }
        assert(order::key_le(keys[origin[i]], keys[origin[j]]));
    }
    assert forall|i: int, j: int| 0 <= i < j < result.len() implies result[i] != result[j] by {
        assert(origin[i] < origin[j]);
        assert(keys[origin[i]] != keys[origin[j]]);
        assert(keys[origin[i]] == prefix + result[i]);
        assert(keys[origin[j]] == prefix + result[j]);
    }
    assert forall|k: Seq<char>| #[trigger] result.contains(k) <==> seen(
        prefix,
        store,
    ).dom().contains(k) && filter.accepts(k, Some(types::placeholder(k, now))) by {
        law_prefix_round_trip(prefix, k, k);
        if result.contains(k) {
            let i = choose|i: int| 0 <= i < result.len() && result[i] == k;
            assert(keys.contains(keys[origin[i]]));
            assert(keys[origin[i]] == prefix + k);
        }
        if seen(prefix, store).dom().contains(k) && filter.accepts(
            k,
            Some(types::placeholder(k, now)),
        ) {
            match filter.hint() {
                Some(h) => {
                    assert(h.is_prefix_of(k));
                    assert((prefix + k).take((prefix + h).len() as int) =~= prefix + h);
                },
                None => {},
            }
            assert(inner_filter.accepts(prefix + k, None));
            assert(keys.contains(prefix + k));
            let n = choose|n: int| 0 <= n < keys.len() && keys[n] == prefix + k;
            assert(pick(keys[n]) == Some(k));
        }
    }
}

/// A visit through the layer shows a blob exactly when a listing with metadata
/// gives it, and shows the same.
pub proof fn law_visit_matches_metadata_listing<F: ListFilter>(
    prefix: Seq<char>,
    filter: F,
    meta: types::BlobMetaView,
)
    ensures
        prefix::listed_meta(prefix, &filter, meta) == match prefix::stripped(prefix, meta.key) {
            Some(k) => if filter.accepts(k, prefix::visited_meta(prefix, Some(meta))) {
                prefix::visited_meta(prefix, Some(meta))
            } else {
                None
            },
            None => None,
        },
{
}

/// What the layer shows of a blob of the inner store, in a listing with metadata
/// and in a visit, differs from the inner metadata in the key only: size, time and
/// entity tag are the inner ones. The caller's filter decides on just that.
pub proof fn law_metadata_differs_in_the_key_only<F: ListFilter>(
    prefix: Seq<char>,
    filter: F,
    meta: BlobMetaView,
)
    ensures
        prefix::meta_option_view(None) is None,
        prefix::visited_meta(prefix, None) is None,
        ({
            let visited = prefix::visited_meta(prefix, Some(meta));
            &&& visited is Some
            &&& visited->0.stored_size == meta.stored_size
            &&& visited->0.modified_at == meta.modified_at
            &&& visited->0.etag == meta.etag
            &&& prefix.is_prefix_of(meta.key) ==> prefix + visited->0.key == meta.key
            &&& !prefix.is_prefix_of(meta.key) ==> visited->0.key.len() == 0
        }),
        match prefix::listed_meta(prefix, &filter, meta) {
            Some(shown) => {
                &&& prefix + shown.key == meta.key
                &&& shown.stored_size == meta.stored_size
                &&& shown.modified_at == meta.modified_at
                &&& shown.etag == meta.etag
                &&& filter.accepts(shown.key, Some(shown))
            },
            None => !prefix.is_prefix_of(meta.key) || exists|shown: BlobMetaView|
                {
                    &&& prefix + shown.key == meta.key
                    &&& shown.stored_size == meta.stored_size
                    &&& shown.modified_at == meta.modified_at
                    &&& shown.etag == meta.etag
                    &&& !#[trigger] filter.accepts(shown.key, Some(shown))
                },
        },
{
    law_prefix_round_trip(prefix, meta.key, meta.key);
    if prefix.is_prefix_of(meta.key) {
        let shown = meta.with_key(prefix::stripped(prefix, meta.key)->0);
        assert(prefix + shown.key == meta.key);
        if prefix::listed_meta(prefix, &filter, meta) is None {
            assert(!filter.accepts(shown.key, Some(shown)));
        }
    }
}

/// A listing with metadata through the layer keeps the order of the inner listing
/// and shows, of each blob that it lists, the inner metadata under the logical key.
/// It lists every blob that has the prefix and that the caller's filter selects.
pub proof fn law_metadata_listing_follows_the_inner_one<F: ListFilter>(
    prefix: Seq<char>,
    filter: F,
    metas: Seq<BlobMetaView>,
) -> (origin: Seq<int>)
    ensures
        ({
            let result = metas.filter_map(|m: BlobMetaView| prefix::listed_meta(prefix, &filter, m));
            &&& origin.len() == result.len()
            &&& forall|i: int, j: int|
                0 <= i < j < origin.len() ==> #[trigger] origin[i] < #[trigger] origin[j]
            &&& forall|i: int|
                0 <= i < result.len() ==> {
                    &&& 0 <= #[trigger] origin[i] < metas.len()
                    &&& prefix + result[i].key == metas[origin[i]].key
                    &&& result[i].stored_size == metas[origin[i]].stored_size
                    &&& result[i].modified_at == metas[origin[i]].modified_at
                    &&& result[i].etag == metas[origin[i]].etag
                    &&& filter.accepts(result[i].key, Some(result[i]))
                }
            &&& forall|n: int, shown: BlobMetaView|
                0 <= n < metas.len() && prefix + shown.key == metas[n].key && shown.stored_size
                    == metas[n].stored_size && shown.modified_at == metas[n].modified_at
                    && shown.etag == metas[n].etag && filter.accepts(shown.key, Some(shown))
                    && #[trigger] metas[n] == metas[n] ==> #[trigger] result.contains(shown)
        }),
{
    let pick = |m: BlobMetaView| prefix::listed_meta(prefix, &filter, m);
    let result = metas.filter_map(pick);
    let origin = lemma_filter_map_origin(metas, pick);
    assert forall|i: int| 0 <= i < result.len() implies {
        &&& 0 <= #[trigger] origin[i] < metas.len()
        &&& prefix + result[i].key == metas[origin[i]].key
        &&& result[i].stored_size == metas[origin[i]].stored_size
        &&& result[i].modified_at == metas[origin[i]].modified_at
        &&& result[i].etag == metas[origin[i]].etag
        &&& filter.accepts(result[i].key, Some(result[i]))
    } by {
        assert(pick(metas[origin[i]]) == Some(result[i]));
        law_metadata_differs_in_the_key_only(prefix, filter, metas[origin[i]]);
    }
    assert forall|n: int, shown: BlobMetaView|
        0 <= n < metas.len() && prefix + shown.key == metas[n].key && shown.stored_size
            == metas[n].stored_size && shown.modified_at == metas[n].modified_at && shown.etag
            == metas[n].etag && filter.accepts(shown.key, Some(shown)) && #[trigger] metas[n]
            == metas[n] implies #[trigger] result.contains(shown) by {
        law_prefix_round_trip(prefix, shown.key, shown.key);
        assert(metas[n].with_key(shown.key) == shown);
        assert(pick(metas[n]) == Some(shown));
    }
    origin
}

/// A batch error keeps each failure of the inner store with its error, and lists
/// as processed just the keys with the prefix, without it. A key without the prefix
/// stays as it is in a failure. An error that is no batch error stays as it is.
pub proof fn law_other_errors_pass(prefix: Seq<char>, e: ErrorView)
    ensures
        !(e is Batch) ==> prefix::logical_batch_error(prefix, e) == e,
        e matches ErrorView::Batch(batch) ==> {
            &&& prefix::logical_batch_error(prefix, e) matches ErrorView::Batch(own)
            &&& own.errors.len() == batch.errors.len()
            &&& forall|i: int|
                0 <= i < batch.errors.len() ==> {
                    &&& (#[trigger] own.errors[i]).error == batch.errors[i].error
                    &&& prefix.is_prefix_of(batch.errors[i].key) ==> prefix + own.errors[i].key
                        == batch.errors[i].key
                    &&& !prefix.is_prefix_of(batch.errors[i].key) ==> own.errors[i].key
                        == batch.errors[i].key
                }
            &&& forall|k: Seq<char>| #[trigger]
                own.succeeded.contains(k) <==> batch.succeeded.contains(prefix + k)
        },
{
    match e {
        ErrorView::Batch(batch) => {
            let strip = |k: Seq<char>| prefix::stripped(prefix, k);
            let own = prefix::logical_batch(prefix, batch);
            let origin = lemma_filter_map_origin(batch.succeeded, strip);
            assert forall|i: int| 0 <= i < batch.errors.len() implies {
                &&& (#[trigger] own.errors[i]).error == batch.errors[i].error
                &&& prefix.is_prefix_of(batch.errors[i].key) ==> prefix + own.errors[i].key
                    == batch.errors[i].key
                &&& !prefix.is_prefix_of(batch.errors[i].key) ==> own.errors[i].key
                    == batch.errors[i].key
            } by {
                law_prefix_round_trip(prefix, batch.errors[i].key, batch.errors[i].key);
            }
            assert forall|k: Seq<char>| #[trigger]
                own.succeeded.contains(k) <==> batch.succeeded.contains(prefix + k) by {
                if own.succeeded.contains(k) {
                    let i = choose|i: int| 0 <= i < own.succeeded.len() && own.succeeded[i] == k;
                    law_prefix_round_trip(prefix, k, batch.succeeded[origin[i]]);
                    assert(strip(batch.succeeded[origin[i]]) == Some(k));
                    assert(batch.succeeded[origin[i]] == prefix + k);
                }
                if batch.succeeded.contains(prefix + k) {
                    let n = choose|n: int|
                        0 <= n < batch.succeeded.len() && batch.succeeded[n] == prefix + k;
                    law_prefix_round_trip(prefix, k, k);
                    assert(strip(batch.succeeded[n]) == Some(k));
                }
            }
        },
        _ => {},
    }
}

/// The inner store is asked for the given blobs in the given order, each with the
/// prefix before its key and with its own data and size hint; for the given key or
/// keys with the prefix before each; and for nothing where a key is invalid.
pub proof fn law_requests_prepend_the_prefix<D>(
    prefix: Seq<char>,
    blobs: Seq<BlobInputView<D>>,
    keys: Seq<Seq<char>>,
    key: Seq<char>,
)
    ensures
        prefix::put_requested(prefix, blobs) matches Ok(request) ==> {
            &&& request.len() == blobs.len()
            &&& forall|i: int|
                0 <= i < blobs.len() ==> {
                    &&& (#[trigger] request[i]).key == prefix + blobs[i].key
                    &&& request[i].data == blobs[i].data
                    &&& request[i].size_hint == blobs[i].size_hint
                }
        },
        prefix::put_requested(prefix, blobs) is Ok <==> forall|i: int|
            0 <= i < blobs.len() ==> validate::validation((#[trigger] blobs[i]).key) is Ok,
        prefix::delete_requested(prefix, keys) matches Ok(request) ==> {
            &&& request.len() == keys.len()
            &&& forall|i: int| 0 <= i < keys.len() ==> #[trigger] request[i] == prefix + keys[i]
        },
        prefix::delete_requested(prefix, keys) is Ok <==> forall|i: int|
            0 <= i < keys.len() ==> validate::validation(#[trigger] keys[i]) is Ok,
        prefix::read_requested(prefix, key) == match validate::validation(key) {
            Ok(()) => Ok::<Seq<char>, ErrorView>(prefix + key),
            Err(e) => Err(e),
        },
{
    let of_blobs = validate::blob_keys(blobs);
    validate::lemma_validation_of_all(keys);
    validate::lemma_validation_of_all(of_blobs);
    assert forall|i: int| 0 <= i < blobs.len() implies #[trigger] of_blobs[i] == blobs[i].key by {}
    if forall|i: int|
        0 <= i < blobs.len() ==> validate::validation((#[trigger] blobs[i]).key) is Ok {
        assert forall|i: int| 0 <= i < of_blobs.len() implies validate::valid_blob_key(
            #[trigger] of_blobs[i],
        ) by {
            assert(validate::validation(blobs[i].key) is Ok);
        }
    }
    if validate::validation_of_all(of_blobs) is Ok {
        assert forall|i: int| 0 <= i < blobs.len() implies validate::validation(
            (#[trigger] blobs[i]).key,
        ) is Ok by {
            assert(validate::valid_blob_key(of_blobs[i]));
        }
    }
    if forall|i: int| 0 <= i < keys.len() ==> validate::validation(#[trigger] keys[i]) is Ok {
        assert forall|i: int| 0 <= i < keys.len() implies validate::valid_blob_key(
            #[trigger] keys[i],
        ) by {
            assert(validate::validation(keys[i]) is Ok);
        }
    }
}

/// The inner store is searched under the prefix of the layer and, where the caller's
/// filter has a hint, only where that hint follows.
pub proof fn law_inner_search_extends_the_prefix(prefix: Seq<char>, hint: Seq<char>)
    ensures
        CombinedPrefixFilter::combined(prefix, None) == prefix,
        CombinedPrefixFilter::combined(prefix, Some(hint)) == prefix + hint,
{
}

/// The metadata that a visitor is shown is taken as it is.
pub proof fn law_shown_metadata_is_taken_as_it_is(meta: crate::types::BlobMeta)
    ensures
        prefix::meta_option_view(Some(meta)) == Some(meta@),
{
}

/// Listings and batch errors are decided entry by entry: an entry at the end is kept
/// there, under its logical key, or left out, and changes nothing about those before it.
pub proof fn law_entries_are_decided_one_by_one<F: ListFilter>(
    prefix: Seq<char>,
    filter: F,
    now: Timestamp,
    keys: Seq<Seq<char>>,
    logical: Seq<char>,
    other: Seq<char>,
    batch: BatchErrorView,
)
    requires
        !prefix.is_prefix_of(other),
    ensures
        prefix::listing(prefix, &filter, now, seq![]).len() == 0,
        prefix::listing(prefix, &filter, now, keys.push(other)) == prefix::listing(
            prefix,
            &filter,
            now,
            keys,
        ),
        prefix::listing(prefix, &filter, now, keys.push(prefix + logical)) == if filter.accepts(
            logical,
            Some(types::placeholder(logical, now)),
        ) {
            prefix::listing(prefix, &filter, now, keys).push(logical)
        } else {
            prefix::listing(prefix, &filter, now, keys)
        },
        ({
            let own = prefix::logical_batch(prefix, batch).succeeded;
            let with_other = BatchErrorView { succeeded: batch.succeeded.push(other), ..batch };
            let with_own = BatchErrorView {
                succeeded: batch.succeeded.push(prefix + logical),
                ..batch
            };
            &&& prefix::logical_batch(prefix, with_other).succeeded == own
            &&& prefix::logical_batch(prefix, with_own).succeeded == own.push(logical)
        }),
{
    let pick = |k: Seq<char>| prefix::listed(prefix, &filter, now, k);
    let strip = |k: Seq<char>| prefix::stripped(prefix, k);
    law_prefix_round_trip(prefix, logical, logical);
    model::lemma_filter_map_push(keys, pick, other);
    model::lemma_filter_map_push(keys, pick, prefix + logical);
    model::lemma_filter_map_push(batch.succeeded, strip, other);
    model::lemma_filter_map_push(batch.succeeded, strip, prefix + logical);
}

} // verus!
