//! The mathematical model of a blob store that keeps what it is given: a map
//! from keys to data. The laws of the layers speak of it.

use vstd::prelude::*;

use crate::error::ErrorView;
use crate::types::BlobInputView;

verus! {

/// The contents of a store.
pub type Contents = Map<Seq<char>, Seq<u8>>;

/// What a store with the given contents returns for a key.
pub open spec fn lookup(store: Contents, key: Seq<char>) -> core::result::Result<
    Seq<u8>,
    ErrorView,
> {
    if store.dom().contains(key) {
        Ok(store[key])
    } else {
        Err(ErrorView::NotFound(key))
    }
}

/// The contents after storing blobs in order; a later blob replaces an earlier
/// one of the same key.
pub open spec fn put_all(store: Contents, blobs: Seq<BlobInputView<Seq<u8>>>) -> Contents
    decreases blobs.len(),
{
    if blobs.len() == 0 {
        store
    } else {
        put_all(store.insert(blobs[0].key, blobs[0].data), blobs.skip(1))
    }
}

/// The contents after deleting keys; a missing key is no failure.
pub open spec fn delete_all(store: Contents, keys: Seq<Seq<char>>) -> Contents {
    store.remove_keys(keys.to_set())
}

/// Whether `keys` lists the contents: every key, and each once.
pub open spec fn lists(keys: Seq<Seq<char>>, store: Contents) -> bool {
    &&& keys.no_duplicates()
    &&& keys.to_set() == store.dom()
}

/// The pieces, one after the other.
pub open spec fn joined<T>(pieces: Seq<Seq<T>>) -> Seq<T>
    decreases pieces.len(),
{
    if pieces.len() == 0 {
        seq![]
    } else {
        pieces[0] + joined(pieces.skip(1))
    }
}

/// Appending a piece appends its elements.
pub proof fn lemma_joined_push<T>(pieces: Seq<Seq<T>>, last: Seq<T>)
    ensures
        joined(pieces.push(last)) == joined(pieces) + last,
    decreases pieces.len(),
{
    if pieces.len() == 0 {
        let one = pieces.push(last);
        assert(one[0] == last);
        assert(joined(one) == one[0] + joined(one.skip(1)));
        assert(joined(one.skip(1)) =~= seq![]);
        assert(joined(one) =~= last);
        assert(joined(pieces) + last =~= last);
    } else {
        lemma_joined_push(pieces.skip(1), last);
        assert(pieces.push(last).skip(1) =~= pieces.skip(1).push(last));
        assert(joined(pieces.push(last)) =~= joined(pieces) + last);
    }
}

/// Deleting is idempotent: deleting the same keys again changes nothing.
pub proof fn law_delete_is_idempotent(store: Contents, keys: Seq<Seq<char>>)
    ensures
        delete_all(delete_all(store, keys), keys) == delete_all(store, keys),
        forall|k: Seq<char>| keys.contains(k) ==> !delete_all(store, keys).dom().contains(k),
{
    assert(delete_all(delete_all(store, keys), keys) =~= delete_all(store, keys));
}

/// What a store holds under a key after a put is the data of the last blob of
/// that key, and what it held before where no blob has that key.
pub proof fn lemma_put_all(store: Contents, blobs: Seq<BlobInputView<Seq<u8>>>, key: Seq<char>)
    ensures
        (forall|i: int| 0 <= i < blobs.len() ==> (#[trigger] blobs[i]).key != key) ==> lookup(
            put_all(store, blobs),
            key,
        ) == lookup(store, key),
        forall|i: int|
            0 <= i < blobs.len() && (#[trigger] blobs[i]).key == key && (forall|j: int|
                i < j < blobs.len() ==> (#[trigger] blobs[j]).key != key) ==> lookup(
                put_all(store, blobs),
                key,
            ) == Ok::<Seq<u8>, ErrorView>(blobs[i].data),
    decreases blobs.len(),
{
    if blobs.len() > 0 {
        let rest = blobs.skip(1);
        let next = store.insert(blobs[0].key, blobs[0].data);
        lemma_put_all(next, rest, key);
        assert forall|i: int| 0 <= i < rest.len() implies #[trigger] rest[i] == blobs[i + 1] by {}
        if forall|i: int| 0 <= i < blobs.len() ==> (#[trigger] blobs[i]).key != key {
            assert forall|i: int| 0 <= i < rest.len() implies (#[trigger] rest[i]).key != key by {
                assert(rest[i] == blobs[i + 1]);
            }
        }
        assert forall|i: int|
            0 <= i < blobs.len() && (#[trigger] blobs[i]).key == key && (forall|j: int|
                i < j < blobs.len() ==> (#[trigger] blobs[j]).key != key) implies lookup(
            put_all(store, blobs),
            key,
        ) == Ok::<Seq<u8>, ErrorView>(blobs[i].data) by {
            if i == 0 {
                assert forall|j: int| 0 <= j < rest.len() implies (#[trigger] rest[j]).key
                    != key by {
                    assert(rest[j] == blobs[j + 1]);
                }
            } else {
                assert(rest[i - 1] == blobs[i]);
                assert forall|j: int| i - 1 < j < rest.len() implies (#[trigger] rest[j]).key
                    != key by {
                    assert(rest[j] == blobs[j + 1]);
                }
            }
        }
    }
}

/// Mapping some of the elements decides about the last one on its own.
pub proof fn lemma_filter_map_push<A, B>(s: Seq<A>, f: spec_fn(A) -> Option<B>, x: A)
    ensures
        s.push(x).filter_map(f) == match f(x) {
            Some(y) => s.filter_map(f).push(y),
            None => s.filter_map(f),
        },
{
    let t = s.push(x);
    t.lemma_filter_map_take_succ(f, s.len() as int);
    assert(t.take(t.len() as int) =~= t);
    assert(t.take(s.len() as int) =~= s);
}

} // verus!
