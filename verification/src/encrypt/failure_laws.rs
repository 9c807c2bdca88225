//! The laws of the encrypting layer over an inner store and an encryption provider
//! that may fail.

use vstd::prelude::*;

use crate::encrypt;
use crate::encrypt::get;
use crate::encrypt::get::DecryptStepView;
use crate::encrypt::get::ExistsStepView;
use crate::encrypt::get::GetStepView;
use crate::encrypt::get::HeaderReplyView;
use crate::encrypt::get::HeaderStepView;
use crate::encrypt::laws;
use crate::encrypt::listing;
use crate::encrypt::listing::ListRestView;
use crate::encrypt::listing::ListStepView;
use crate::encrypt::listing::MetaRestView;
use crate::encrypt::listing::MetaStepView;
use crate::encrypt::put;
use crate::encrypt::put::PutRestView;
use crate::encrypt::put::PutStepView;
use crate::encrypt::rekey;
use crate::encrypt::rekey::RekeyStepView;
use crate::error;
use crate::error::EncryptionError;
use crate::error::EncryptionResult;
use crate::error::ErrorView;
use crate::error::IoFailure;
use crate::error::KeyErrorView;
use crate::list_filter::ListFilter;
use crate::model::Contents;
use crate::types::BlobMetaView;
use crate::validate;

verus! {

/// What an encryption provider makes of the header under a key.
pub type Rewrap = spec_fn(Seq<char>, Seq<u8>) -> EncryptionResult<Option<Seq<u8>>>;

/// A rekey run over the given header keys: the inner store after it, the number of
/// headers that were rewritten, and the error with which it stopped, if it did.
/// `fetch` is what comes of fetching a header, `rewrap` what the provider makes of it,
/// and `takes` whether the inner store takes a new header under a key.
pub open spec fn run_rekey_with_failures(
    headers: Seq<Seq<char>>,
    store: Contents,
    fetch: spec_fn(Seq<char>) -> HeaderReplyView,
    rewrap: Rewrap,
    takes: spec_fn(Seq<char>) -> bool,
) -> (Contents, nat, Option<ErrorView>)
    decreases headers.len(),
{
    if headers.len() == 0 {
        (store, 0, None)
    } else {
        let (before, count, stopped) = run_rekey_with_failures(
            headers.drop_last(),
            store,
            fetch,
            rewrap,
            takes,
        );
        if stopped is Some {
            (before, count, stopped)
        } else {
            match rekey::after_fetch(headers.last(), fetch(headers.last())) {
                RekeyStepView::Rewrap { header, key, size } => match rekey::replacement(
                    key,
                    size,
                    rewrap(key, header),
                ) {
                    Some(input) => if takes(input.key) {
                        (
                            before.insert(input.key, input.data),
                            rekey::counted(count, true),
                            None,
                        )
                    } else {
                        (before, rekey::counted(count, false), None)
                    },
                    None => (before, count, None),
                },
                RekeyStepView::Skip => (before, count, None),
                RekeyStepView::Failed(e) => (before, count, Some(e)),
            }
        }
    }
}

/// Whether a header is rewritten: it could be read, the provider wrapped it anew, and
/// the inner store took it.
pub open spec fn is_rewritten(
    key: Seq<char>,
    fetch: spec_fn(Seq<char>) -> HeaderReplyView,
    rewrap: Rewrap,
    takes: spec_fn(Seq<char>) -> bool,
) -> bool {
    &&& fetch(key) is Bytes
    &&& rewrap(key, fetch(key)->Bytes_0) is Ok
    &&& rewrap(key, fetch(key)->Bytes_0)->Ok_0 is Some
    &&& takes(key)
}

/// A run over headers that can all be read, or are refused, reaches its end.
proof fn lemma_rekey_to_the_end(
    headers: Seq<Seq<char>>,
    store: Contents,
    fetch: spec_fn(Seq<char>) -> HeaderReplyView,
    rewrap: Rewrap,
    takes: spec_fn(Seq<char>) -> bool,
)
    requires
        forall|i: int| 0 <= i < headers.len() ==> !(fetch(#[trigger] headers[i]) is Unreadable),
    ensures
        ({
            let (after, count, stopped) = run_rekey_with_failures(
                headers,
                store,
                fetch,
                rewrap,
                takes,
            );
            &&& stopped is None
            &&& count == headers.filter(|k: Seq<char>| is_rewritten(k, fetch, rewrap, takes)).len()
            &&& forall|k: Seq<char>|
                !(headers.contains(k) && is_rewritten(k, fetch, rewrap, takes)) ==> (
                #[trigger] after.dom().contains(k) <==> store.dom().contains(k)) && after[k]
                    == store[k]
            &&& forall|k: Seq<char>|
                headers.contains(k) && is_rewritten(k, fetch, rewrap, takes)
                    ==> #[trigger] after.dom().contains(k) && after[k] == rewrap(
                    k,
                    fetch(k)->Bytes_0,
                )->Ok_0->0
        }),
    decreases headers.len(),
{
    reveal(Seq::filter);
    if headers.len() > 0 {
        let first = headers.drop_last();
        let key = headers.last();
        assert forall|i: int| 0 <= i < first.len() implies !(fetch(
            #[trigger] first[i],
        ) is Unreadable) by {
            assert(first[i] == headers[i]);
        }
        lemma_rekey_to_the_end(first, store, fetch, rewrap, takes);
        assert(headers[headers.len() - 1] == key);
        assert(!(fetch(key) is Unreadable));
        let after = run_rekey_with_failures(headers, store, fetch, rewrap, takes).0;
        assert forall|k: Seq<char>| headers.contains(k) <==> first.contains(k) || k == key by {
            if headers.contains(k) && k != key {
                let i = choose|i: int| 0 <= i < headers.len() && headers[i] == k;
                assert(first[i] == k);
            }
            if first.contains(k) {
                let i = choose|i: int| 0 <= i < first.len() && first[i] == k;
                assert(headers[i] == k);
            }
        }
    }
}

/// A rekey run in which the provider or the inner store may fail replaces a header
/// exactly when it could be read, the provider wrapped it anew and the inner store took
/// the new one, which is what the provider made of it. A header that the provider fails
/// to wrap, that it finds up to date, that the inner store refuses to give or to take,
/// and everything that is no header stays as it was. The run counts the headers that it
/// replaced, and no others.
pub proof fn law_rekey_replaces_only_what_was_rewrapped(
    headers: Seq<Seq<char>>,
    store: Contents,
    fetch: spec_fn(Seq<char>) -> HeaderReplyView,
    rewrap: Rewrap,
    takes: spec_fn(Seq<char>) -> bool,
    k: Seq<char>,
)
    requires
        forall|i: int| 0 <= i < headers.len() ==> !(fetch(#[trigger] headers[i]) is Unreadable),
        forall|i: int|
            0 <= i < headers.len() ==> store.dom().contains(#[trigger] headers[i]) && (fetch(
                headers[i],
            ) matches HeaderReplyView::Bytes(header) ==> header == store[headers[i]]),
    ensures
        ({
            let (after, count, stopped) = run_rekey_with_failures(
                headers,
                store,
                fetch,
                rewrap,
                takes,
            );
            &&& stopped is None
            &&& after.dom() == store.dom()
            &&& !headers.contains(k) ==> after[k] == store[k]
            &&& !(fetch(k) is Bytes) ==> after[k] == store[k]
            &&& headers.contains(k) && rewrap(k, store[k]) is Err ==> after[k] == store[k]
            &&& headers.contains(k) && (rewrap(k, store[k]) matches Ok(new) && new is None)
                ==> after[k] == store[k]
            &&& !takes(k) ==> after[k] == store[k]
            &&& headers.contains(k) && fetch(k) is Bytes && takes(k) && (rewrap(
                k,
                store[k],
            ) matches Ok(new) && new is Some) ==> after[k] == rewrap(k, store[k])->Ok_0->0
            &&& count == headers.filter(
                |h: Seq<char>|
                    fetch(h) is Bytes && takes(h) && rewrap(h, store[h]) is Ok && rewrap(
                        h,
                        store[h],
                    )->Ok_0 is Some,
            ).len()
            &&& (forall|i: int|
                0 <= i < headers.len() ==> rewrap(
                    #[trigger] headers[i],
                    store[headers[i]],
                ) is Err) ==> count == 0 && after == store
        }),
{
    lemma_rekey_to_the_end(headers, store, fetch, rewrap, takes);
    let (after, count, stopped) = run_rekey_with_failures(headers, store, fetch, rewrap, takes);
    let counts = |h: Seq<char>| is_rewritten(h, fetch, rewrap, takes);
    let fits = |h: Seq<char>|
        fetch(h) is Bytes && takes(h) && rewrap(h, store[h]) is Ok && rewrap(
            h,
            store[h],
        )->Ok_0 is Some;
    assert forall|h: Seq<char>| headers.contains(h) implies store.dom().contains(h) && (fetch(
        h,
    ) matches HeaderReplyView::Bytes(header) ==> header == store[h]) by {
        let i = choose|i: int| 0 <= i < headers.len() && headers[i] == h;
        assert(store.dom().contains(headers[i]));
    }
    assert(after.dom() =~= store.dom()) by {
        assert forall|h: Seq<char>| after.dom().contains(h) <==> store.dom().contains(h) by {
            if headers.contains(h) {
                assert(store.dom().contains(h));
            }
        }
    }
    let present = after.dom().contains(k);
    if headers.contains(k) {
        assert(fetch(k) is Bytes ==> fetch(k)->Bytes_0 == store[k]);
        assert(present);
    }
    assert(!(headers.contains(k) && is_rewritten(k, fetch, rewrap, takes)) ==> after[k]
        == store[k]);
    assert forall|i: int| 0 <= i < headers.len() implies counts(#[trigger] headers[i]) == fits(
        headers[i],
    ) by {
        assert(headers.contains(headers[i]));
    }
    laws::lemma_filter_same(headers, counts, fits);
    if forall|i: int|
        0 <= i < headers.len() ==> rewrap(#[trigger] headers[i], store[headers[i]]) is Err {
        laws::lemma_filter_same(headers, fits, |h: Seq<char>| false);
        laws::lemma_filter_none(headers);
        assert forall|h: Seq<char>| after.dom().contains(h) implies after[h] == store[h] by {
            if headers.contains(h) {
                let i = choose|i: int| 0 <= i < headers.len() && headers[i] == h;
                assert(rewrap(headers[i], store[headers[i]]) is Err);
            }
        }
        assert(after =~= store);
    }
}

/// What is left by filtering is what was there and meets the condition.
proof fn lemma_filter_members<T>(s: Seq<T>, p: spec_fn(T) -> bool, x: T)
    ensures
        s.filter(p).contains(x) <==> s.contains(x) && p(x),
    decreases s.len(),
{
    reveal(Seq::filter);
    if s.len() > 0 {
        let first = s.drop_last();
        lemma_filter_members(first, p, x);
        assert(s[s.len() - 1] == s.last());
        if first.contains(x) {
            let i = choose|i: int| 0 <= i < first.len() && first[i] == x;
            assert(s[i] == x);
        }
        if s.contains(x) {
            let i = choose|i: int| 0 <= i < s.len() && s[i] == x;
            if i < first.len() {
                assert(first[i] == x);
            }
        }
        if p(s.last()) {
            let kept = first.filter(p);
            let all = s.filter(p);
            assert(all == kept.push(s.last()));
            if all.contains(x) {
                let i = choose|i: int| 0 <= i < all.len() && all[i] == x;
                if i < kept.len() {
                    assert(kept[i] == x);
                }
            }
            if kept.contains(x) {
                let i = choose|i: int| 0 <= i < kept.len() && kept[i] == x;
                assert(all[i] == x);
            }
            assert(all[kept.len() as int] == s.last());
        }
    }
}

/// A rekey run stops at the first header that the inner store has but that cannot be
/// read to its end, and reports its key and why. What it did before stays done; nothing
/// behind it is treated.
pub proof fn law_rekey_stops_at_an_unreadable_header(
    headers: Seq<Seq<char>>,
    store: Contents,
    fetch: spec_fn(Seq<char>) -> HeaderReplyView,
    rewrap: Rewrap,
    takes: spec_fn(Seq<char>) -> bool,
    n: int,
    failure: IoFailure,
)
    requires
        0 <= n < headers.len(),
        forall|i: int| 0 <= i < n ==> !(fetch(#[trigger] headers[i]) is Unreadable),
        fetch(headers[n]) == HeaderReplyView::Unreadable(failure),
    ensures
        ({
            let (after, count, stopped) = run_rekey_with_failures(
                headers,
                store,
                fetch,
                rewrap,
                takes,
            );
            let (before, done, _) = run_rekey_with_failures(
                headers.take(n),
                store,
                fetch,
                rewrap,
                takes,
            );
            &&& after == before
            &&& count == done
            &&& stopped == Some(
                ErrorView::Storage {
                    message: "failed to read header '"@ + headers[n] + "'"@,
                    source: Some(failure.source_spec()),
                },
            )
        }),
    decreases headers.len(),
{
    let first = headers.drop_last();
    if n == headers.len() - 1 {
        assert(headers.take(n) =~= first);
        assert forall|i: int| 0 <= i < first.len() implies !(fetch(
            #[trigger] first[i],
        ) is Unreadable) by {
            assert(first[i] == headers[i]);
        }
        lemma_rekey_to_the_end(first, store, fetch, rewrap, takes);
    } else {
        assert forall|i: int| 0 <= i < n implies !(fetch(#[trigger] first[i]) is Unreadable) by {
            assert(first[i] == headers[i]);
        }
        assert(first[n] == headers[n]);
        law_rekey_stops_at_an_unreadable_header(first, store, fetch, rewrap, takes, n, failure);
        assert(first.take(n) =~= headers.take(n));
    }
}

/// A header is handed to the provider as it was read, and stored under its own key as
/// the provider returned it, with the size of the old one as a hint. What the provider
/// did not return is never stored.
pub proof fn law_rekey_stores_what_the_provider_returned(
    key: Seq<char>,
    header: Seq<u8>,
    size: u64,
    reply: EncryptionResult<Option<Seq<u8>>>,
    refusal: ErrorView,
    rekeyed: nat,
)
    ensures
        rekey::after_fetch(key, HeaderReplyView::Bytes(header)) == (RekeyStepView::Rewrap {
            header,
            key,
            size: header.len() as u64,
        }),
        rekey::after_fetch(key, HeaderReplyView::Refused(refusal)) is Skip,
        rekey::replacement(key, size, reply) is Some <==> reply is Ok && reply->Ok_0 is Some,
        rekey::replacement(key, size, reply) matches Some(input) ==> {
            &&& input.key == key
            &&& input.data == reply->Ok_0->0
            &&& input.size_hint == Some(size)
        },
        rekey::counted(rekeyed, true) == rekeyed + 1,
        rekey::counted(rekeyed, false) == rekeyed,
{
}

/// What the provider returned for a header is taken as it is.
pub proof fn law_rewrap_outcome_is_faithful(reply: EncryptionResult<Option<Vec<u8>>>)
    ensures
        reply is Err ==> rekey::rewrap_outcome(reply) is Err,
        reply matches Ok(None) ==> rekey::rewrap_outcome(reply) == Ok::<
            Option<Seq<u8>>,
            EncryptionError,
        >(None),
        reply matches Ok(Some(header)) ==> rekey::rewrap_outcome(reply) == Ok::<
            Option<Seq<u8>>,
            EncryptionError,
        >(Some(header@)),
{
}

/// A delete through the layer succeeds exactly when the inner delete did, or failed with
/// a batch error that names none of the given keys. Every error that is no batch error
/// is returned unchanged, and a batch error that names a given key is returned as a
/// batch error with just the inner failures and the inner successes of given keys.
pub proof fn law_delete_succeeds_only_with_the_inner_delete(
    keys: Seq<Seq<char>>,
    reply: core::result::Result<(), ErrorView>,
)
    ensures
        encrypt::delete_outcome(keys, reply) is Ok <==> reply is Ok || (reply->Err_0 is Batch
            && forall|i: int|
            0 <= i < reply->Err_0->Batch_0.errors.len() ==> !keys.contains(
                (#[trigger] reply->Err_0->Batch_0.errors[i]).key,
            )),
        reply matches Err(e) && !(e is Batch) ==> encrypt::delete_outcome(keys, reply) == reply,
        reply matches Err(ErrorView::Batch(batch)) && encrypt::delete_outcome(keys, reply) is Err
            ==> {
            &&& encrypt::delete_outcome(keys, reply)->Err_0 matches ErrorView::Batch(own)
            &&& forall|e: KeyErrorView| #[trigger]
                own.errors.contains(e) <==> reply->Err_0->Batch_0.errors.contains(e)
                    && keys.contains(e.key)
            &&& forall|k: Seq<char>| #[trigger]
                own.succeeded.contains(k) <==> reply->Err_0->Batch_0.succeeded.contains(k)
                    && keys.contains(k)
        },
{
    match reply {
        Err(ErrorView::Batch(batch)) => {
            let by_key = |k: Seq<char>| keys.contains(k);
            let by_error = |e: KeyErrorView| keys.contains(e.key);
            let own = encrypt::batch_of(keys, batch);
            if own.errors.len() > 0 {
                let e = own.errors[0];
                assert(own.errors.contains(e));
                lemma_filter_members(batch.errors, by_error, e);
                let i = choose|i: int| 0 <= i < batch.errors.len() && batch.errors[i] == e;
                assert(keys.contains(batch.errors[i].key));
            }
            assert forall|i: int| 0 <= i < batch.errors.len() && own.errors.len() == 0
                implies !keys.contains((#[trigger] batch.errors[i]).key) by {
                let e = batch.errors[i];
                lemma_filter_members(batch.errors, by_error, e);
                assert(batch.errors.contains(e));
            }
            assert forall|e: KeyErrorView| #[trigger]
                own.errors.contains(e) <==> batch.errors.contains(e) && keys.contains(e.key) by {
                lemma_filter_members(batch.errors, by_error, e);
            }
            assert forall|k: Seq<char>| #[trigger]
                own.succeeded.contains(k) <==> batch.succeeded.contains(k) && keys.contains(k) by {
                lemma_filter_members(batch.succeeded, by_key, k);
            }
        },
        _ => {},
    }
}

/// The header of a blob lies under the key of the blob followed by the suffix, and just
/// the keys that end with the suffix are reserved for headers. A reserved key is refused
/// with a text that quotes suffix and key, before it is looked at otherwise.
pub proof fn law_header_keys_end_with_the_suffix(suffix: Seq<char>, key: Seq<char>)
    ensures
        encrypt::header_key_of(suffix, key) == key + suffix,
        encrypt::is_header_key(suffix, key) <==> exists|blob: Seq<char>| key == blob + suffix,
        encrypt::is_header_key(suffix, encrypt::header_key_of(suffix, key)),
        encrypt::is_header_key(suffix, key) ==> encrypt::key_check(suffix, key) == Err::<
            (),
            ErrorView,
        >(
            ErrorView::InvalidInput(
                "blob key must not end with reserved header suffix '"@ + suffix + "': '"@ + key
                    + "'"@,
            ),
        ),
        !encrypt::is_header_key(suffix, key) ==> encrypt::key_check(suffix, key)
            == validate::validation(key),
{
    let h = key + suffix;
    assert(h.skip(h.len() - suffix.len()) =~= suffix);
    if encrypt::is_header_key(suffix, key) {
        let blob = key.take(key.len() - suffix.len());
        assert(key =~= blob + suffix);
    }
    if exists|blob: Seq<char>| key == blob + suffix {
        let blob = choose|blob: Seq<char>| key == blob + suffix;
        assert(key.skip(key.len() - suffix.len()) =~= suffix);
    }
}

/// A delete asks the inner store for each given key and directly behind it for its
/// header key, and for nothing else. It asks for nothing where a key is reserved or
/// invalid: the first reserved key is reported, or else the first invalid one.
pub proof fn law_delete_asks_for_data_and_headers(suffix: Seq<char>, keys: Seq<Seq<char>>)
    ensures
        encrypt::with_headers(suffix, keys).len() == 2 * keys.len(),
        forall|i: int|
            0 <= i < keys.len() ==> {
                &&& encrypt::with_headers(suffix, keys)[2 * i] == #[trigger] keys[i]
                &&& encrypt::with_headers(suffix, keys)[2 * i + 1] == keys[i] + suffix
            },
        encrypt::keys_check(suffix, keys) is Ok <==> (forall|i: int|
            0 <= i < keys.len() ==> !suffix.is_suffix_of(#[trigger] keys[i])) && (forall|i: int|
            0 <= i < keys.len() ==> validate::validation(#[trigger] keys[i]) is Ok),
        (forall|i: int| 0 <= i < keys.len() ==> !suffix.is_suffix_of(#[trigger] keys[i]))
            ==> encrypt::keys_check(suffix, keys) == validate::validation_of_all(keys),
        forall|n: int|
            #![trigger keys[n]]
            0 <= n < keys.len() && suffix.is_suffix_of(keys[n]) && (forall|i: int|
                0 <= i < n ==> !suffix.is_suffix_of(#[trigger] keys[i])) ==> encrypt::keys_check(
                suffix,
                keys,
            ) == Err::<(), ErrorView>(
                ErrorView::InvalidInput(
                    "blob key must not end with reserved header suffix '"@ + suffix + "': '"@
                        + keys[n] + "'"@,
                ),
            ),
{
    lemma_data_and_headers(suffix, keys);
    validate::lemma_validation_of_all(keys);
    lemma_collisions(suffix, keys);
    if exists|i: int| 0 <= i < keys.len() && suffix.is_suffix_of(#[trigger] keys[i]) {
        let i = choose|i: int| 0 <= i < keys.len() && suffix.is_suffix_of(#[trigger] keys[i]);
        assert(encrypt::no_collisions(suffix, keys) is Err);
    }
    if forall|i: int| 0 <= i < keys.len() ==> validate::validation(#[trigger] keys[i]) is Ok {
        assert forall|i: int| 0 <= i < keys.len() implies validate::valid_blob_key(
            #[trigger] keys[i],
        ) by {
            assert(validate::validation(keys[i]) is Ok);
        }
    }
}

/// The keys of a delete, by their places.
proof fn lemma_data_and_headers(suffix: Seq<char>, keys: Seq<Seq<char>>)
    ensures
        encrypt::with_headers(suffix, keys).len() == 2 * keys.len(),
        forall|i: int|
            0 <= i < keys.len() ==> {
                &&& encrypt::with_headers(suffix, keys)[2 * i] == #[trigger] keys[i]
                &&& encrypt::with_headers(suffix, keys)[2 * i + 1] == keys[i] + suffix
            },
    decreases keys.len(),
{
    if keys.len() > 0 {
        let first = keys.drop_last();
        lemma_data_and_headers(suffix, first);
        assert forall|i: int| 0 <= i < keys.len() implies {
            &&& encrypt::with_headers(suffix, keys)[2 * i] == #[trigger] keys[i]
            &&& encrypt::with_headers(suffix, keys)[2 * i + 1] == keys[i] + suffix
        } by {
            if i < first.len() {
                assert(first[i] == keys[i]);
            }
        }
    }
}

/// The first reserved key decides.
proof fn lemma_collisions(suffix: Seq<char>, keys: Seq<Seq<char>>)
    ensures
        encrypt::no_collisions(suffix, keys) is Ok <==> (forall|i: int|
            0 <= i < keys.len() ==> !suffix.is_suffix_of(#[trigger] keys[i])),
        forall|n: int|
            #![trigger keys[n]]
            0 <= n < keys.len() && suffix.is_suffix_of(keys[n]) && (forall|i: int|
                0 <= i < n ==> !suffix.is_suffix_of(#[trigger] keys[i]))
                ==> encrypt::no_collisions(suffix, keys) == Err::<(), ErrorView>(
                encrypt::collision(suffix, keys[n]),
            ),
    decreases keys.len(),
{
    if keys.len() > 0 {
        let rest = keys.skip(1);
        lemma_collisions(suffix, rest);
        assert forall|i: int| 0 <= i < rest.len() implies #[trigger] rest[i] == keys[i + 1] by {}
        if forall|i: int| 0 <= i < keys.len() ==> !suffix.is_suffix_of(#[trigger] keys[i]) {
            assert forall|i: int| 0 <= i < rest.len() implies !suffix.is_suffix_of(
                #[trigger] rest[i],
            ) by {
                assert(rest[i] == keys[i + 1]);
            }
        }
        if encrypt::no_collisions(suffix, keys) is Ok {
            assert forall|i: int| 0 <= i < keys.len() implies !suffix.is_suffix_of(
                #[trigger] keys[i],
            ) by {
                if i > 0 {
                    assert(rest[i - 1] == keys[i]);
                }
            }
        }
        assert forall|n: int|
            #![trigger keys[n]]
            0 <= n < keys.len() && suffix.is_suffix_of(keys[n]) && (forall|i: int|
                0 <= i < n ==> !suffix.is_suffix_of(#[trigger] keys[i])) implies
            encrypt::no_collisions(suffix, keys) == Err::<(), ErrorView>(
            encrypt::collision(suffix, keys[n]),
        ) by {
            if n > 0 {
                assert(!suffix.is_suffix_of(keys[0]));
                assert(rest[n - 1] == keys[n]);
                assert forall|i: int| 0 <= i < n - 1 implies !suffix.is_suffix_of(
                    #[trigger] rest[i],
                ) by {
                    assert(rest[i] == keys[i + 1]);
                }
            }
        }
    }
}

/// A retrieval fetches the data under the given key and then the header under the key
/// followed by the suffix, and decrypts just what was fetched. An error of the inner
/// store for either of them is returned unchanged, but for the key of a missing blob,
/// which is the given one. A header that cannot be read is a failure of the backend.
pub proof fn law_get_passes_errors_on<R>(
    suffix: Seq<char>,
    key: Seq<char>,
    data: R,
    header: Seq<u8>,
    e: ErrorView,
    failure: IoFailure,
)
    ensures
        match encrypt::key_check(suffix, key) {
            Ok(()) => get::begin_get(suffix, key) == (GetStepView::FetchData {
                data_key: key,
                key,
                header_key: key + suffix,
            }),
            Err(refusal) => get::begin_get(suffix, key) == GetStepView::Done(refusal),
        },
        get::after_data(key, key + suffix, Ok::<R, ErrorView>(data)) == (
        HeaderStepView::FetchHeader { header_key: key + suffix, key, data }),
        get::after_header(key, data, HeaderReplyView::Bytes(header)) == (
        DecryptStepView::Decrypt { data, header }),
        e is NotFound ==> get::after_data(key, key + suffix, Err::<R, ErrorView>(e)) == (
        HeaderStepView::<R>::Done(ErrorView::NotFound(key))),
        !(e is NotFound) ==> get::after_data(key, key + suffix, Err::<R, ErrorView>(e)) == (
        HeaderStepView::<R>::Done(e)),
        e is NotFound ==> get::after_header(key, data, HeaderReplyView::Refused(e)) == (
        DecryptStepView::<R>::Done(ErrorView::NotFound(key))),
        !(e is NotFound) ==> get::after_header(key, data, HeaderReplyView::Refused(e)) == (
        DecryptStepView::<R>::Done(e)),
        get::after_header(key, data, HeaderReplyView::Unreadable(failure)) == (
        DecryptStepView::<R>::Done(
            ErrorView::Storage {
                message: "I/O error"@,
                source: Some(failure.source_spec()),
            },
        )),
{
}

/// A check for a blob asks the inner store for the data and, only where it is there, for
/// the header, whose answer is the answer. An error of the inner store is returned
/// unchanged.
pub proof fn law_exists_passes_errors_on(
    suffix: Seq<char>,
    key: Seq<char>,
    header_key: Seq<char>,
    reply: core::result::Result<bool, ErrorView>,
)
    ensures
        match encrypt::key_check(suffix, key) {
            Ok(()) => get::begin_exists(suffix, key) == (ExistsStepView::CheckData {
                key,
                header_key: key + suffix,
            }),
            Err(refusal) => get::begin_exists(suffix, key) == ExistsStepView::Done(Err(refusal)),
        },
        reply == Ok::<bool, ErrorView>(true) ==> get::after_data_exists(header_key, reply) == (
        ExistsStepView::CheckHeader { header_key }),
        reply == Ok::<bool, ErrorView>(false) ==> get::after_data_exists(header_key, reply)
            == ExistsStepView::Done(Ok(false)),
        reply matches Err(e) ==> get::after_data_exists(header_key, reply) == ExistsStepView::Done(
            Err(e),
        ),
{
}

/// A failed encryption or decryption is an encryption error that quotes the key and has
/// the error of the provider as its outermost cause. An encryption that never reported
/// has no cause.
pub proof fn law_encryption_errors_name_key_and_cause(key: Seq<char>, cause: EncryptionError)
    ensures
        encrypt::encryption_failed(key, cause) == (ErrorView::Encryption {
            message: "encryption failed for key '"@ + key + "'"@,
            source: Some(seq![cause.text()] + cause.causes()),
        }),
        encrypt::decryption_failed(key, cause) == (ErrorView::Encryption {
            message: "decryption failed for key '"@ + key + "'"@,
            source: Some(seq![cause.text()] + cause.causes()),
        }),
        encrypt::encryption_unfinished(key) == (ErrorView::Encryption {
            message: "encryption task did not complete for key '"@ + key + "'"@,
            source: None,
        }),
{
}

/// A put takes its blobs one by one and in order. The data of a blob goes to its own key
/// with its own size as a hint, or none where it is not known, and the header goes to
/// that key followed by the suffix, byte for byte as the encryption reported it and with
/// its length as a hint. The header is stored only after the data.
pub proof fn law_put_stores_data_before_its_header<D>(
    rest: PutRestView<D>,
    key: Seq<char>,
    stored: Seq<BlobMetaView>,
    header: Seq<u8>,
)
    ensures
        rest.pending.len() == 0 ==> put::next_blob(rest) == PutStepView::<D>::Done(Ok(rest.metas)),
        rest.pending.len() > 0 && rest.suffix.is_suffix_of(rest.pending[0].key) ==> put::next_blob(
            rest,
        ) == PutStepView::<D>::Done(Err(encrypt::collision(rest.suffix, rest.pending[0].key))),
        rest.pending.len() > 0 && !rest.suffix.is_suffix_of(rest.pending[0].key)
            ==> {
            &&& put::next_blob(rest) matches PutStepView::StoreData { input, key: k, rest: later }
            &&& k == rest.pending[0].key
            &&& input.key == rest.pending[0].key
            &&& input.data == rest.pending[0].data
            &&& rest.pending[0].size_hint is Some ==> input.size_hint == rest.pending[0].size_hint
            &&& rest.pending[0].size_hint is None ==> input.size_hint == Some(0u64)
            &&& later.suffix == rest.suffix
            &&& later.metas == rest.metas
            &&& rest.pending == seq![rest.pending[0]] + later.pending
        },
        put::after_data(key, rest, Ok(stored), Some(Ok(header))) matches PutStepView::StoreHeader {
            header_key,
            header: bytes,
            size_hint,
            key: k,
            stored: kept,
            rest: later,
        } && {
            &&& header_key == key + rest.suffix
            &&& bytes == header
            &&& size_hint == Some(header.len() as u64)
            &&& k == key
            &&& kept == stored
            &&& later == rest
        },
{
    if rest.pending.len() > 0 {
        assert(rest.pending =~= seq![rest.pending[0]] + rest.pending.skip(1));
    }
}

/// What the encryption of a blob reported is taken as it is.
pub proof fn law_header_outcome_is_faithful(encryption: Option<EncryptionResult<Vec<u8>>>)
    ensures
        encryption is None <==> put::header_outcome(encryption) is None,
        encryption matches Some(Ok(header)) ==> put::header_outcome(encryption) == Some(
            Ok::<Seq<u8>, EncryptionError>(header@),
        ),
        encryption matches Some(Err(cause)) ==> put::header_outcome(encryption) == Some(
            Err::<Seq<u8>, EncryptionError>(cause),
        ),
{
}

/// The metadata that the caller of a put sees is what the inner store returned for the
/// data, all of it and unchanged, but for entries about headers.
pub proof fn law_put_shows_the_metadata_of_the_data(suffix: Seq<char>, metas: Seq<BlobMetaView>)
    ensures
        forall|m: BlobMetaView| #[trigger]
            put::without_headers(suffix, metas).contains(m) <==> metas.contains(m)
                && !suffix.is_suffix_of(m.key),
        (forall|i: int| 0 <= i < metas.len() ==> !suffix.is_suffix_of((#[trigger] metas[i]).key))
            ==> put::without_headers(suffix, metas) == metas,
    decreases metas.len(),
{
    let own = |m: BlobMetaView| !encrypt::is_header_key(suffix, m.key);
    assert forall|m: BlobMetaView| #[trigger]
        put::without_headers(suffix, metas).contains(m) <==> metas.contains(m)
            && !suffix.is_suffix_of(m.key) by {
        lemma_filter_members(metas, own, m);
    }
    if forall|i: int| 0 <= i < metas.len() ==> !suffix.is_suffix_of((#[trigger] metas[i]).key) {
        reveal(Seq::filter);
        if metas.len() > 0 {
            let first = metas.drop_last();
            assert forall|i: int| 0 <= i < first.len() implies !suffix.is_suffix_of(
                (#[trigger] first[i]).key,
            ) by {
                assert(first[i] == metas[i]);
            }
            law_put_shows_the_metadata_of_the_data(suffix, first);
            assert(metas.last() == metas[metas.len() - 1]);
            assert(first.push(metas.last()) =~= metas);
        } else {
            assert(metas.filter(own) =~= metas);
        }
    }
}

/// The result of a listing when the inner store answers `answer` for each header.
pub open spec fn run_list_with_failures(
    step: ListStepView,
    answer: spec_fn(Seq<char>) -> error::Result<bool>,
) -> core::result::Result<Seq<Seq<char>>, ErrorView>
    decreases
            (match step {
                ListStepView::CheckHeader { rest, .. } => rest.pending.len() + 1,
                ListStepView::Done(_) => 0,
            }),
{
    match step {
        ListStepView::CheckHeader { header_key, key, rest } => run_list_with_failures(
            listing::after_candidate(key, rest, answer(header_key)),
            answer,
        ),
        ListStepView::Done(r) => r,
    }
}

/// Where the inner store answers for every header, a listing gives the keys that have
/// one, in their order.
pub proof fn law_list_gives_the_keys_with_headers(
    rest: ListRestView,
    answer: spec_fn(Seq<char>) -> error::Result<bool>,
)
    requires
        forall|i: int|
            0 <= i < rest.pending.len() ==> answer((#[trigger] rest.pending[i]) + rest.suffix)
                is Ok,
    ensures
        run_list_with_failures(listing::next_candidate(rest), answer) == Ok::<
            Seq<Seq<char>>,
            ErrorView,
        >(rest.listed + rest.pending.filter(|k: Seq<char>| answer(k + rest.suffix)->Ok_0)),
    decreases rest.pending.len(),
{
    let has = |k: Seq<char>| answer(k + rest.suffix)->Ok_0;
    if rest.pending.len() == 0 {
        reveal(Seq::filter);
        assert(rest.listed + rest.pending.filter(has) =~= rest.listed);
    } else {
        let key = rest.pending[0];
        let later = rest.pending.skip(1);
        assert(rest.pending =~= seq![key] + later);
        laws::lemma_filter_front(key, later, has);
        assert(answer(rest.pending[0] + rest.suffix) is Ok);
        assert forall|i: int| 0 <= i < later.len() implies answer(
            (#[trigger] later[i]) + rest.suffix,
        ) is Ok by {
            assert(later[i] == rest.pending[i + 1]);
        }
        if has(key) {
            let next = ListRestView {
                suffix: rest.suffix,
                pending: later,
                listed: rest.listed.push(key),
            };
            law_list_gives_the_keys_with_headers(next, answer);
            assert(rest.listed.push(key) + later.filter(has) =~= rest.listed + (seq![key]
                + later.filter(has)));
        } else {
            let next = ListRestView { pending: later, ..rest };
            law_list_gives_the_keys_with_headers(next, answer);
        }
    }
}

/// A listing ends with the error of the first header that the inner store fails to
/// check, unchanged.
pub proof fn law_list_passes_errors_on(
    rest: ListRestView,
    answer: spec_fn(Seq<char>) -> error::Result<bool>,
    n: int,
)
    requires
        0 <= n < rest.pending.len(),
        forall|i: int|
            0 <= i < n ==> answer((#[trigger] rest.pending[i]) + rest.suffix) is Ok,
        answer(rest.pending[n] + rest.suffix) is Err,
    ensures
        run_list_with_failures(listing::next_candidate(rest), answer) == Err::<
            Seq<Seq<char>>,
            ErrorView,
        >(answer(rest.pending[n] + rest.suffix)->Err_0@),
    decreases n,
{
    let key = rest.pending[0];
    let later = rest.pending.skip(1);
    let found = ListRestView { suffix: rest.suffix, pending: later, listed: rest.listed.push(key) };
    let passed = ListRestView { pending: later, ..rest };
    if n == 0 {
        let step = listing::after_candidate(key, passed, answer(key + rest.suffix));
        assert(run_list_with_failures(listing::next_candidate(rest), answer)
            == run_list_with_failures(step, answer));
    } else {
        assert(answer(rest.pending[0] + rest.suffix) is Ok);
        assert forall|i: int| 0 <= i < n - 1 implies answer(
            (#[trigger] later[i]) + rest.suffix,
        ) is Ok by {
            assert(later[i] == rest.pending[i + 1]);
        }
        assert(later[n - 1] == rest.pending[n]);
        if answer(key + rest.suffix)->Ok_0 {
            law_list_passes_errors_on(found, answer, n - 1);
        } else {
            law_list_passes_errors_on(passed, answer, n - 1);
        }
    }
}

/// The entries of a listing with metadata when the inner store answers `answer` for each
/// header and `metadata` for each data key.
pub open spec fn run_meta_with_failures(
    step: MetaStepView,
    answer: spec_fn(Seq<char>) -> error::Result<bool>,
    metadata: spec_fn(Seq<char>) -> core::result::Result<BlobMetaView, ErrorView>,
) -> core::result::Result<Seq<BlobMetaView>, ErrorView>
    decreases
            (match step {
                MetaStepView::CheckHeader { rest, .. } => 2 * rest.pending.len() + 2,
                MetaStepView::FetchMeta { rest, .. } => 2 * rest.pending.len() + 1,
                _ => 0,
            }),
{
    match step {
        MetaStepView::CheckHeader { header_key, key, rest } => run_meta_with_failures(
            listing::after_meta_header(key, rest, answer(header_key)),
            answer,
            metadata,
        ),
        MetaStepView::FetchMeta { data_key, key, rest } => run_meta_with_failures(
            listing::after_meta(key, rest, metadata(data_key)),
            answer,
            metadata,
        ),
        MetaStepView::Finished(metas) => Ok(metas),
        MetaStepView::Failed(e) => Err(e),
    }
}

/// Whether the inner store says that it has the header of a blob.
pub open spec fn header_is_there(
    key: Seq<char>,
    suffix: Seq<char>,
    answer: spec_fn(Seq<char>) -> error::Result<bool>,
) -> bool {
    answer(key + suffix) is Ok && answer(key + suffix)->Ok_0
}

/// A listing with metadata passes over a blob whose header is missing or cannot be
/// checked, and one whose data has disappeared. What it gives of the others is what the
/// inner store has for their data, under the key of the blob.
pub proof fn law_metadata_listing_passes_over_incomplete_blobs(
    rest: MetaRestView,
    answer: spec_fn(Seq<char>) -> error::Result<bool>,
    metadata: spec_fn(Seq<char>) -> core::result::Result<BlobMetaView, ErrorView>,
)
    requires
        forall|k: Seq<char>| (#[trigger] metadata(k)) matches Ok(meta) ==> meta.key == k,
        forall|i: int|
            0 <= i < rest.pending.len() && header_is_there(
                #[trigger] rest.pending[i],
                rest.suffix,
                answer,
            ) ==> metadata(rest.pending[i]) is Ok || metadata(rest.pending[i])->Err_0 is NotFound,
    ensures
        run_meta_with_failures(listing::next_meta(rest), answer, metadata) == Ok::<
            Seq<BlobMetaView>,
            ErrorView,
        >(
            rest.metas + rest.pending.filter(
                |k: Seq<char>| header_is_there(k, rest.suffix, answer) && metadata(k) is Ok,
            ).map_values(|k: Seq<char>| metadata(k)->Ok_0),
        ),
    decreases rest.pending.len(),
{
    let has = |k: Seq<char>| header_is_there(k, rest.suffix, answer) && metadata(k) is Ok;
    let entry = |k: Seq<char>| metadata(k)->Ok_0;
    let whole = run_meta_with_failures(listing::next_meta(rest), answer, metadata);
    if rest.pending.len() == 0 {
        reveal(Seq::filter);
        assert(rest.metas + rest.pending.filter(has).map_values(entry) =~= rest.metas);
    } else {
        let key = rest.pending[0];
        let later = rest.pending.skip(1);
        assert(rest.pending =~= seq![key] + later);
        laws::lemma_filter_front(key, later, has);
        assert forall|i: int|
            0 <= i < later.len() && header_is_there(
                #[trigger] later[i],
                rest.suffix,
                answer,
            ) implies metadata(later[i]) is Ok || metadata(later[i])->Err_0 is NotFound by {
            assert(later[i] == rest.pending[i + 1]);
        }
        let passed = MetaRestView { pending: later, ..rest };
        if header_is_there(key, rest.suffix, answer) {
            let fetch = MetaStepView::FetchMeta { data_key: key, key, rest: passed };
            assert(whole == run_meta_with_failures(fetch, answer, metadata));
        }
        if has(key) {
            assert(metadata(key)->Ok_0.with_key(key) == entry(key));
            let found = MetaRestView { metas: rest.metas.push(entry(key)), ..passed };
            law_metadata_listing_passes_over_incomplete_blobs(found, answer, metadata);
            assert(rest.metas.push(entry(key)) + later.filter(has).map_values(entry) =~= rest.metas
                + (seq![key] + later.filter(has)).map_values(entry));
        } else {
            assert(header_is_there(rest.pending[0], rest.suffix, answer) ==> metadata(
                key,
            )->Err_0 is NotFound);
            law_metadata_listing_passes_over_incomplete_blobs(passed, answer, metadata);
        }
    }
}

/// A listing with metadata ends with the error that the inner store gives for the
/// metadata of a blob that has a header, unchanged, unless it says that the data has
/// disappeared.
pub proof fn law_metadata_listing_passes_errors_on(
    rest: MetaRestView,
    answer: spec_fn(Seq<char>) -> error::Result<bool>,
    metadata: spec_fn(Seq<char>) -> core::result::Result<BlobMetaView, ErrorView>,
    n: int,
)
    requires
        0 <= n < rest.pending.len(),
        forall|i: int|
            0 <= i < n && header_is_there(#[trigger] rest.pending[i], rest.suffix, answer)
                ==> metadata(rest.pending[i]) is Ok || metadata(rest.pending[i])->Err_0 is NotFound,
        header_is_there(rest.pending[n], rest.suffix, answer),
        metadata(rest.pending[n]) is Err,
        !(metadata(rest.pending[n])->Err_0 is NotFound),
    ensures
        run_meta_with_failures(listing::next_meta(rest), answer, metadata) == Err::<
            Seq<BlobMetaView>,
            ErrorView,
        >(metadata(rest.pending[n])->Err_0),
    decreases n,
{
    let whole = run_meta_with_failures(listing::next_meta(rest), answer, metadata);
    let key = rest.pending[0];
    let later = rest.pending.skip(1);
    let passed = MetaRestView { pending: later, ..rest };
    let fetch = MetaStepView::FetchMeta { data_key: key, key, rest: passed };
    if header_is_there(key, rest.suffix, answer) {
        assert(whole == run_meta_with_failures(fetch, answer, metadata));
    }
    if n == 0 {
        assert(run_meta_with_failures(fetch, answer, metadata) == run_meta_with_failures(
            MetaStepView::Failed(metadata(key)->Err_0),
            answer,
            metadata,
        ));
    } else {
        assert forall|i: int|
            0 <= i < n - 1 && header_is_there(
                #[trigger] later[i],
                rest.suffix,
                answer,
            ) implies metadata(later[i]) is Ok || metadata(later[i])->Err_0 is NotFound by {
            assert(later[i] == rest.pending[i + 1]);
        }
        assert(later[n - 1] == rest.pending[n]);
        if header_is_there(key, rest.suffix, answer) && metadata(key) is Ok {
            let found = MetaRestView {
                metas: rest.metas.push(metadata(key)->Ok_0.with_key(key)),
                ..passed
            };
            law_metadata_listing_passes_errors_on(found, answer, metadata, n - 1);
        } else {
            assert(header_is_there(rest.pending[0], rest.suffix, answer) ==> metadata(
                key,
            )->Err_0 is NotFound);
            law_metadata_listing_passes_errors_on(passed, answer, metadata, n - 1);
        }
    }
}

/// The keys of the inner store that a listing looks at are those that are not reserved
/// for headers and that the filter selects by their key; a visited key is shown under
/// the same condition, with its metadata, where it has a header.
pub proof fn law_listings_leave_out_headers<F: ListFilter>(
    suffix: Seq<char>,
    filter: F,
    keys: Seq<Seq<char>>,
    k: Seq<char>,
    meta: Option<BlobMetaView>,
    header_exists: bool,
)
    ensures
        listing::candidates(suffix, &filter, keys).contains(k) <==> keys.contains(k)
            && !suffix.is_suffix_of(k) && filter.accepts(k, None),
        listing::is_shown(suffix, &filter, k, meta, header_exists) <==> !suffix.is_suffix_of(k)
            && header_exists && filter.accepts(k, meta),
{
    let wanted = |k: Seq<char>| !encrypt::is_header_key(suffix, k) && filter.accepts(k, None);
    lemma_filter_members(keys, wanted, k);
}

/// The steps of a retrieval, of a check and of a rekey run ask for just what their
/// mathematical values say, and what was fetched is taken as it is.
pub proof fn law_read_steps_are_taken_as_they_are<R>(
    get: get::GetStep,
    header: get::HeaderStep<R>,
    decrypt: get::DecryptStep<R>,
    exists_step: get::ExistsStep,
    reply: get::HeaderReply,
    rekey_step: rekey::RekeyStep,
)
    ensures
        match get {
            get::GetStep::FetchData { key, then } => get@ == (GetStepView::FetchData {
                data_key: key@,
                key: then.key@,
                header_key: then.header_key@,
            }),
            get::GetStep::Done(e) => get@ == GetStepView::Done(e@),
        },
        match header {
            get::HeaderStep::FetchHeader { header_key, then } => header@ == (
            HeaderStepView::FetchHeader { header_key: header_key@, key: then.key@, data: then.data }),
            get::HeaderStep::Done(e) => header@ == HeaderStepView::<R>::Done(e@),
        },
        match decrypt {
            get::DecryptStep::Decrypt { data, header: h } => decrypt@ == (DecryptStepView::Decrypt {
                data,
                header: h@,
            }),
            get::DecryptStep::Done(e) => decrypt@ == DecryptStepView::<R>::Done(e@),
        },
        match exists_step {
            get::ExistsStep::CheckData { key, then } => exists_step@ == (ExistsStepView::CheckData {
                key: key@,
                header_key: then.header_key@,
            }),
            get::ExistsStep::CheckHeader { header_key } => exists_step@ == (
            ExistsStepView::CheckHeader { header_key: header_key@ }),
            get::ExistsStep::Done(r) => exists_step@ == ExistsStepView::Done(error::result_view(r)),
        },
        match reply {
            get::HeaderReply::Bytes(h) => reply@ == HeaderReplyView::Bytes(h@),
            get::HeaderReply::Refused(e) => reply@ == HeaderReplyView::Refused(e@),
            get::HeaderReply::Unreadable(failure) => reply@ == HeaderReplyView::Unreadable(failure),
        },
        match rekey_step {
            rekey::RekeyStep::Rewrap { header: h, then } => rekey_step@ == (RekeyStepView::Rewrap {
                header: h@,
                key: then.key@,
                size: then.size,
            }),
            rekey::RekeyStep::Skip => rekey_step@ is Skip,
            rekey::RekeyStep::Failed(e) => rekey_step@ == RekeyStepView::Failed(e@),
        },
{
}

/// The steps of a put and of the listings ask for just what their mathematical values
/// say. A finished listing with metadata has the entries that were found, with ascending
/// keys.
pub proof fn law_write_and_list_steps_are_taken_as_they_are<D>(
    put: put::PutStep<D>,
    list: listing::ListStep,
    meta: listing::MetaStep,
    v: MetaStepView,
)
    ensures
        match put {
            put::PutStep::StoreData { input, then } => put@ == (PutStepView::StoreData {
                input: input@,
                key: then.key@,
                rest: then.rest@,
            }),
            put::PutStep::StoreHeader { input, then } => put@ == (PutStepView::StoreHeader {
                header_key: input.key@,
                header: input.data@,
                size_hint: input.size_hint,
                key: then.key@,
                stored: then.stored@,
                rest: then.rest@,
            }),
            put::PutStep::RollBack { key, then } => put@ == (PutStepView::<D>::RollBack {
                key: key@,
                error: then.error@,
            }),
            put::PutStep::Done(Ok(p)) => put@ == PutStepView::<D>::Done(Ok(p@)),
            put::PutStep::Done(Err(e)) => put@ == PutStepView::<D>::Done(Err(e@)),
        },
        match list {
            listing::ListStep::CheckHeader { header_key, then } => list@ == (
            ListStepView::CheckHeader { header_key: header_key@, key: then.key@, rest: then.rest@ }),
            listing::ListStep::Done(Ok(keys)) => list@ == ListStepView::Done(Ok(keys.deep_view())),
            listing::ListStep::Done(Err(e)) => list@ == ListStepView::Done(Err(e@)),
        },
        meta.realizes(v) ==> match meta {
            listing::MetaStep::CheckHeader { header_key, then } => v == (
            MetaStepView::CheckHeader { header_key: header_key@, key: then.key@, rest: then.rest@ }),
            listing::MetaStep::FetchMeta { key, then } => v == (MetaStepView::FetchMeta {
                data_key: key@,
                key: then.key@,
                rest: then.rest@,
            }),
            listing::MetaStep::Done(Ok(metas)) => v is Finished && crate::order::is_meta_sort_of(
                metas.deep_view(),
                v->Finished_0,
            ),
            listing::MetaStep::Done(Err(e)) => v == MetaStepView::Failed(e@),
        },
{
}

/// Where the inner store refuses the data of a blob, the put ends, whatever the
/// encryption reported: no header is stored and nothing is deleted. Where it refuses the
/// header, or where the encryption failed, the data is deleted again. A refusal that is
/// no batch error, or a batch error that names no failure, is passed on unchanged. A blob
/// that is stored adds its metadata to what was reported before.
pub proof fn law_put_ends_where_the_inner_store_refuses<D>(
    key: Seq<char>,
    rest: PutRestView<D>,
    stored: Seq<BlobMetaView>,
    refusal: ErrorView,
    encryption: Option<EncryptionResult<Seq<u8>>>,
    cause: EncryptionError,
    reply: Seq<BlobMetaView>,
)
    ensures
        put::after_data(key, rest, Err(refusal), encryption) == PutStepView::<D>::Done(
            Err(put::refused(rest.metas, key, refusal)),
        ),
        put::after_data(key, rest, Ok(stored), None) == PutStepView::<D>::Done(
            Err(encrypt::encryption_unfinished(key)),
        ),
        put::after_data(key, rest, Ok(stored), Some(Err(cause))) == (PutStepView::<D>::RollBack {
            key,
            error: encrypt::encryption_failed(key, cause),
        }),
        put::after_header(key, stored, rest, Err(refusal)) == (PutStepView::<D>::RollBack {
            key,
            error: put::refused(rest.metas, key, refusal),
        }),
        !(refusal is Batch) || refusal->Batch_0.errors.len() == 0 ==> put::refused(
            rest.metas,
            key,
            refusal,
        ) == refusal,
        refusal is Batch && refusal->Batch_0.errors.len() > 0 ==> (put::refused(
            rest.metas,
            key,
            refusal,
        ) matches ErrorView::Batch(own) && {
            &&& own.succeeded.len() == rest.metas.len()
            &&& forall|i: int|
                0 <= i < rest.metas.len() ==> #[trigger] own.succeeded[i] == rest.metas[i].key
            &&& own.errors.len() == 1
            &&& own.errors[0].key == key
            &&& own.errors[0].error == refusal->Batch_0.errors[0].error
        }),
        put::after_header(key, stored, rest, Ok(reply)) == put::next_blob(
            PutRestView {
                suffix: rest.suffix,
                pending: rest.pending,
                metas: rest.metas + put::without_headers(rest.suffix, stored),
            },
        ),
{
}

/// Listings, batch errors and the metadata of a put are decided entry by entry: an entry
/// at the end is kept there or left out, and changes nothing about those before it.
pub proof fn law_entries_are_decided_one_by_one<F: ListFilter>(
    suffix: Seq<char>,
    filter: F,
    listed: Seq<Seq<char>>,
    k: Seq<char>,
    metas: Seq<BlobMetaView>,
    m: BlobMetaView,
    keys: Seq<Seq<char>>,
    batch: crate::error::BatchErrorView,
    f: KeyErrorView,
)
    ensures
        listing::candidates(suffix, &filter, seq![]).len() == 0,
        listing::candidates(suffix, &filter, listed.push(k)) == if !suffix.is_suffix_of(k)
            && filter.accepts(k, None) {
            listing::candidates(suffix, &filter, listed).push(k)
        } else {
            listing::candidates(suffix, &filter, listed)
        },
        put::without_headers(suffix, seq![]).len() == 0,
        put::without_headers(suffix, metas.push(m)) == if !suffix.is_suffix_of(m.key) {
            put::without_headers(suffix, metas).push(m)
        } else {
            put::without_headers(suffix, metas)
        },
        ({
            let empty = crate::error::BatchErrorView { succeeded: seq![], errors: seq![] };
            let more = crate::error::BatchErrorView {
                succeeded: batch.succeeded.push(k),
                errors: batch.errors.push(f),
            };
            &&& encrypt::batch_of(keys, empty).succeeded.len() == 0
            &&& encrypt::batch_of(keys, empty).errors.len() == 0
            &&& encrypt::batch_of(keys, more).succeeded == if keys.contains(k) {
                encrypt::batch_of(keys, batch).succeeded.push(k)
            } else {
                encrypt::batch_of(keys, batch).succeeded
            }
            &&& encrypt::batch_of(keys, more).errors == if keys.contains(f.key) {
                encrypt::batch_of(keys, batch).errors.push(f)
            } else {
                encrypt::batch_of(keys, batch).errors
            }
        }),
{
    reveal(Seq::filter);
    assert(listed.push(k).drop_last() =~= listed);
    assert(metas.push(m).drop_last() =~= metas);
    assert(batch.succeeded.push(k).drop_last() =~= batch.succeeded);
    assert(batch.errors.push(f).drop_last() =~= batch.errors);
}

} // verus!
