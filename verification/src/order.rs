//! The order of listings: keys by their characters.

use std::collections::VecDeque;
use vstd::prelude::*;

use crate::types::BlobMeta;
use crate::types::BlobMetaView;

verus! {

/// Whether `a` stands before `b`, or is `b`: the first differing character
/// decides, and a prefix stands before what extends it.
pub open spec fn key_le(a: Seq<char>, b: Seq<char>) -> bool
    decreases a.len(),
{
    if a.len() == 0 {
        true
    } else if b.len() == 0 {
        false
    } else if a[0] != b[0] {
        a[0] < b[0]
    } else {
        key_le(a.skip(1), b.skip(1))
    }
}

/// Whether the keys ascend.
pub open spec fn sorted(keys: Seq<Seq<char>>) -> bool {
    forall|i: int, j: int| 0 <= i <= j < keys.len() ==> key_le(#[trigger] keys[i], #[trigger] keys[j])
}

/// The keys of metadata, in its order.
pub open spec fn keys_of(metas: Seq<BlobMetaView>) -> Seq<Seq<char>> {
    metas.map_values(|m: BlobMetaView| m.key)
}

/// The metadata of one key, in its order.
pub open spec fn with_key(metas: Seq<BlobMetaView>, key: Seq<char>) -> Seq<BlobMetaView> {
    metas.filter(|m: BlobMetaView| m.key == key)
}

/// Whether `after` holds the keys of `before` in ascending order.
pub open spec fn is_sort_of(after: Seq<Seq<char>>, before: Seq<Seq<char>>) -> bool {
    &&& sorted(after)
    &&& after.to_multiset() == before.to_multiset()
}

/// Whether `after` holds the metadata of `before` with ascending keys, entries
/// of one key in their old order.
pub open spec fn is_meta_sort_of(after: Seq<BlobMetaView>, before: Seq<BlobMetaView>) -> bool {
    &&& sorted(keys_of(after))
    &&& after.to_multiset() == before.to_multiset()
    &&& forall|key: Seq<char>| #[trigger] with_key(after, key) == with_key(before, key)
}

/// `slice::sort` on strings: afterwards the same strings ascend. Strings are
/// ordered by their bytes in UTF-8, which orders them by their characters'
/// code points.
#[verifier::external_body]
pub(crate) fn sort_keys(keys: &mut Vec<String>)
    ensures
        is_sort_of(final(keys).deep_view(), old(keys).deep_view()),
{
    keys.sort();
}

/// `slice::sort_by_cached_key` with the key of each entry: afterwards the same
/// entries stand with ascending keys; the sort is stable.
#[verifier::external_body]
pub(crate) fn sort_metas(metas: &mut Vec<BlobMeta>)
    ensures
        is_meta_sort_of(final(metas).deep_view(), old(metas).deep_view()),
{
    metas.sort_by_cached_key(|m| m.key.clone());
}

/// The elements of a vector in a queue, first element first.
pub(crate) fn queue_of<T>(v: Vec<T>) -> (q: VecDeque<T>)
    ensures
        q@ == v@,
{
    let mut q: VecDeque<T> = VecDeque::new();
    for x in it: v
        invariant
            it.seq() == v@,
            q@ == v@.take(it.index()),
    {
        q.push_back(x);
        assert(v@.take(it.index() + 1) =~= v@.take(it.index()).push(x));
    }
    assert(v@.take(v@.len() as int) =~= v@);
    q
}

/// The order of keys is total.
pub proof fn lemma_key_le_total(a: Seq<char>, b: Seq<char>)
    ensures
        key_le(a, a),
        key_le(a, b) || key_le(b, a),
        key_le(a, b) && key_le(b, a) ==> a == b,
    decreases a.len(),
{
    if a.len() > 0 {
        lemma_key_le_total(a.skip(1), a.skip(1));
    }
    if a.len() > 0 && b.len() > 0 {
        lemma_key_le_total(a.skip(1), b.skip(1));
        if a[0] == b[0] && a.skip(1) == b.skip(1) {
            assert(a =~= seq![a[0]] + a.skip(1));
            assert(b =~= seq![b[0]] + b.skip(1));
        }
    } else if a.len() == 0 && b.len() == 0 {
        assert(a =~= b);
    }
}

/// A listing has one order only: two ascending sequences of the same keys are
/// the same sequence.
pub proof fn law_sorted_order_is_unique(a: Seq<Seq<char>>, b: Seq<Seq<char>>)
    requires
        sorted(a),
        sorted(b),
        a.to_multiset() == b.to_multiset(),
    ensures
        a == b,
    decreases a.len(),
{
    broadcast use vstd::seq_lib::group_to_multiset_ensures;

    assert(a.len() == a.to_multiset().len());
    assert(b.len() == b.to_multiset().len());
    if a.len() > 0 {
        assert(a.to_multiset().count(a[0]) > 0);
        assert(b.to_multiset().count(b[0]) > 0);
        assert(b.contains(a[0]));
        assert(a.contains(b[0]));
        let i = choose|i: int| 0 <= i < b.len() && b[i] == a[0];
        let j = choose|j: int| 0 <= j < a.len() && a[j] == b[0];
        assert(key_le(b[0], b[i]));
        assert(key_le(a[0], a[j]));
        lemma_key_le_total(a[0], b[0]);
        let ra = a.skip(1);
        let rb = b.skip(1);
        assert(ra =~= a.remove(0));
        assert(rb =~= b.remove(0));
        assert(ra.to_multiset() =~= rb.to_multiset());
        assert forall|i: int, j: int| 0 <= i <= j < ra.len() implies key_le(
            #[trigger] ra[i],
            #[trigger] ra[j],
        ) by {
            assert(ra[i] == a[i + 1] && ra[j] == a[j + 1]);
        }
        assert forall|i: int, j: int| 0 <= i <= j < rb.len() implies key_le(
            #[trigger] rb[i],
            #[trigger] rb[j],
        ) by {
            assert(rb[i] == b[i + 1] && rb[j] == b[j + 1]);
        }
        law_sorted_order_is_unique(ra, rb);
        assert(a =~= seq![a[0]] + ra);
        assert(b =~= seq![b[0]] + rb);
    } else {
        assert(a =~= b);
    }
}

/// A key occurs among the keys of metadata as often as there is metadata of it.
proof fn lemma_key_count(metas: Seq<BlobMetaView>, key: Seq<char>)
    ensures
        keys_of(metas).to_multiset().count(key) == with_key(metas, key).len(),
    decreases metas.len(),
{
    broadcast use vstd::seq_lib::group_to_multiset_ensures;

    reveal(Seq::filter);
    if metas.len() > 0 {
        let first = metas.drop_last();
        lemma_key_count(first, key);
        assert(keys_of(metas) =~= keys_of(first).push(metas.last().key));
    } else {
        assert(keys_of(metas) =~= Seq::<Seq<char>>::empty());
    }
}

/// A listing with metadata has the keys of the listing, in the same order: where
/// metadata was found for the keys that were found, in whatever order, the sorted
/// metadata has the sorted keys.
pub proof fn law_metadata_listing_has_the_keys(
    keys: Seq<Seq<char>>,
    found_keys: Seq<Seq<char>>,
    metas: Seq<BlobMetaView>,
    found_metas: Seq<BlobMetaView>,
)
    requires
        is_sort_of(keys, found_keys),
        is_meta_sort_of(metas, found_metas),
        found_keys.to_multiset() == keys_of(found_metas).to_multiset(),
    ensures
        keys_of(metas) == keys,
{
    assert forall|key: Seq<char>| #[trigger] keys_of(metas).to_multiset().count(key) == keys_of(
        found_metas,
    ).to_multiset().count(key) by {
        lemma_key_count(metas, key);
        lemma_key_count(found_metas, key);
        assert(with_key(metas, key) == with_key(found_metas, key));
    }
    assert(keys_of(metas).to_multiset() =~= keys_of(found_metas).to_multiset());
    law_sorted_order_is_unique(keys_of(metas), keys);
}

/// Keys are ordered by the first character in which they differ; a key comes before all
/// that it is the beginning of.
pub proof fn law_first_difference_decides(a: Seq<char>, b: Seq<char>)
    ensures
        key_le(a, b) <==> a.is_prefix_of(b) || exists|n: int|
            {
                &&& 0 <= n < a.len()
                &&& n < b.len()
                &&& a.take(n) == b.take(n)
                &&& #[trigger] a[n] < b[n]
            },
    decreases a.len(),
{
    if a.len() == 0 {
        assert(b.take(0) =~= a);
    } else if b.len() > 0 {
        let s = a.skip(1);
        let t = b.skip(1);
        if a[0] != b[0] {
            if a[0] < b[0] {
                assert(a.take(0) =~= b.take(0));
            }
            assert forall|n: int|
                0 <= n < a.len() && n < b.len() && a.take(n) == b.take(n) && #[trigger] a[n]
                    < b[n] implies n == 0 by {
                if n > 0 {
                    assert(a.take(n)[0] == b.take(n)[0]);
                }
            }
            if a.is_prefix_of(b) {
                assert(b.take(a.len() as int)[0] == b[0]);
            }
        } else {
            law_first_difference_decides(s, t);
            if s.is_prefix_of(t) {
                assert(b.take(a.len() as int) =~= a) by {
                    assert forall|i: int| 0 <= i < a.len() implies a[i] == b[i] by {
                        if i > 0 {
                            assert(t.take(s.len() as int)[i - 1] == s[i - 1]);
                        }
                    }
                }
            }
            if a.is_prefix_of(b) {
                assert(t.take(s.len() as int) =~= s) by {
                    assert forall|i: int| 0 <= i < s.len() implies s[i] == t[i] by {
                        assert(b.take(a.len() as int)[i + 1] == a[i + 1]);
                    }
                }
            }
            if exists|n: int|
                {
                    &&& 0 <= n < s.len()
                    &&& n < t.len()
                    &&& s.take(n) == t.take(n)
                    &&& #[trigger] s[n] < t[n]
                } {
                let n = choose|n: int|
                    {
                        &&& 0 <= n < s.len()
                        &&& n < t.len()
                        &&& s.take(n) == t.take(n)
                        &&& #[trigger] s[n] < t[n]
                    };
                assert(a.take(n + 1) =~= b.take(n + 1)) by {
                    assert forall|i: int| 0 <= i < n + 1 implies a[i] == b[i] by {
                        if i > 0 {
                            assert(s.take(n)[i - 1] == t.take(n)[i - 1]);
                        }
                    }
                }
                assert(a[n + 1] < b[n + 1]);
            }
            if exists|n: int|
                {
                    &&& 0 <= n < a.len()
                    &&& n < b.len()
                    &&& a.take(n) == b.take(n)
                    &&& #[trigger] a[n] < b[n]
                } {
                let n = choose|n: int|
                    {
                        &&& 0 <= n < a.len()
                        &&& n < b.len()
                        &&& a.take(n) == b.take(n)
                        &&& #[trigger] a[n] < b[n]
                    };
                assert(s.take(n - 1) =~= t.take(n - 1)) by {
                    assert forall|i: int| 0 <= i < n - 1 implies s[i] == t[i] by {
                        assert(a.take(n)[i + 1] == b.take(n)[i + 1]);
                    }
                }
                assert(s[n - 1] < t[n - 1]);
            }
        }
    }
}

/// A sorted listing has exactly the entries that were found, each as often as it was
/// found, with ascending keys.
pub proof fn law_sorting_keeps_the_entries(
    keys: Seq<Seq<char>>,
    found_keys: Seq<Seq<char>>,
    metas: Seq<BlobMetaView>,
    found_metas: Seq<BlobMetaView>,
)
    ensures
        is_sort_of(keys, found_keys) ==> {
            &&& keys.len() == found_keys.len()
            &&& forall|k: Seq<char>| #[trigger]
                keys.to_multiset().count(k) == found_keys.to_multiset().count(k)
            &&& forall|i: int, j: int|
                0 <= i <= j < keys.len() ==> key_le(#[trigger] keys[i], #[trigger] keys[j])
        },
        is_meta_sort_of(metas, found_metas) ==> {
            &&& metas.len() == found_metas.len()
            &&& forall|m: BlobMetaView| #[trigger]
                metas.to_multiset().count(m) == found_metas.to_multiset().count(m)
            &&& forall|i: int, j: int|
                0 <= i <= j < metas.len() ==> key_le(
                    (#[trigger] metas[i]).key,
                    (#[trigger] metas[j]).key,
                )
        },
        keys_of(metas).len() == metas.len(),
        forall|i: int| 0 <= i < metas.len() ==> #[trigger] keys_of(metas)[i] == metas[i].key,
{
    broadcast use vstd::seq_lib::group_to_multiset_ensures;

    assert(keys.to_multiset().len() == keys.len());
    assert(found_keys.to_multiset().len() == found_keys.len());
    assert(metas.to_multiset().len() == metas.len());
    assert(found_metas.to_multiset().len() == found_metas.len());
    if is_meta_sort_of(metas, found_metas) {
        assert forall|i: int, j: int| 0 <= i <= j < metas.len() implies key_le(
            (#[trigger] metas[i]).key,
            (#[trigger] metas[j]).key,
        ) by {
            assert(key_le(keys_of(metas)[i], keys_of(metas)[j]));
        }
    }
}

} // verus!
