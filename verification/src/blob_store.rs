//! What every blob store does unless its backend does better: placeholder
//! metadata, and visiting by way of a listing.

use std::collections::VecDeque;
use vstd::prelude::*;

use crate::error::Result;
use crate::order;
use crate::timestamp::utc_now;
use crate::timestamp::Timestamp;
use crate::types;
use crate::types::BlobMeta;
use crate::types::BlobMetaView;

verus! {

/// Placeholder metadata for each key, all of one time.
pub open spec fn placeholders(keys: Seq<Seq<char>>, now: Timestamp) -> Seq<BlobMetaView> {
    keys.map_values(|key: Seq<char>| types::placeholder(key, now))
}

/// Placeholder metadata for listed keys, stamped with the given time.
pub fn metas_for_keys_at(keys: Vec<String>, now: Timestamp) -> (r: Vec<BlobMeta>)
    ensures
        r.deep_view() == placeholders(keys.deep_view(), now),
{
    let mut metas: Vec<BlobMeta> = Vec::new();
    for key in it: keys
        invariant
            it.seq() == keys@,
            metas.deep_view() == placeholders(keys.deep_view(), now).take(it.index()),
    {
        let ghost before = metas.deep_view();
        metas.push(BlobMeta { key, stored_size: 0, modified_at: now, etag: None });
        assert(metas.deep_view() =~= before.push(types::placeholder(key@, now)));
        assert(metas.deep_view() =~= placeholders(keys.deep_view(), now).take(it.index() + 1));
    }
    assert(metas.deep_view() =~= placeholders(keys.deep_view(), now));
    metas
}

/// Placeholder metadata for listed keys, all stamped with the current time.
pub fn metas_for_keys(keys: Vec<String>) -> (r: Vec<BlobMeta>)
    ensures
        exists|now: Timestamp| r.deep_view() == #[trigger] placeholders(keys.deep_view(), now),
{
    let now = utc_now();
    metas_for_keys_at(keys, now)
}

/// What follows when a visitor has seen a blob.
pub enum VisitStep {
    /// Go on with the next blob.
    GoOn,
    /// End the visit.
    Stop(Result<()>),
}

/// What follows when a visitor has seen a blob: it may ask for more, stop the
/// visit, or fail it.
pub open spec fn visit_outcome(reply: Result<bool>) -> VisitStep {
    match reply {
        Ok(true) => VisitStep::GoOn,
        Ok(false) => VisitStep::Stop(Ok(())),
        Err(e) => VisitStep::Stop(Err(e)),
    }
}

/// Go on with what the visitor returned for a blob.
pub fn after_visit(reply: Result<bool>) -> (r: VisitStep)
    ensures
        r == visit_outcome(reply),
{
    match reply {
        Ok(true) => VisitStep::GoOn,
        Ok(false) => VisitStep::Stop(Ok(())),
        Err(e) => VisitStep::Stop(Err(e)),
    }
}

/// The next step of a visit of listed keys.
pub enum KeyVisitStep {
    /// Show the key to the visitor.
    Visit(String),
    /// The visit is over.
    Done(Result<()>),
}

/// The key that is shown next of those still to be visited: the first, as long as
/// the visitor wants more.
pub open spec fn next_key(pending: Seq<Seq<char>>, go_on: bool) -> Option<Seq<char>> {
    if go_on && pending.len() > 0 {
        Some(pending[0])
    } else {
        None
    }
}

/// A visit of listed keys: each in turn, until the visitor has seen enough.
pub struct KeyVisit {
    pending: VecDeque<String>,
}

impl KeyVisit {
    /// The keys still to be visited.
    pub closed spec fn pending(&self) -> Seq<Seq<char>> {
        self.pending.deep_view()
    }

    /// A visit of the given keys.
    pub fn new(keys: Vec<String>) -> (r: Self)
        ensures
            r.pending() == keys.deep_view(),
    {
        let r = KeyVisit { pending: order::queue_of(keys) };
        assert(r.pending() =~= keys.deep_view());
        r
    }

    /// Go on with what the visitor returned for the last key, and with `Ok(true)`
    /// at the start.
    pub fn step(&mut self, reply: Result<bool>) -> (r: KeyVisitStep)
        ensures
            match reply {
                Ok(go_on) => match next_key(old(self).pending(), go_on) {
                    Some(next) => {
                        &&& r matches KeyVisitStep::Visit(key)
                        &&& key@ == next
                        &&& final(self).pending() == old(self).pending().skip(1)
                    },
                    None => {
                        &&& r == KeyVisitStep::Done(Ok(()))
                        &&& final(self).pending() == old(self).pending()
                    },
                },
                Err(e) => {
                    &&& r == KeyVisitStep::Done(Err(e))
                    &&& final(self).pending() == old(self).pending()
                },
            },
    {
        match after_visit(reply) {
            VisitStep::Stop(r) => KeyVisitStep::Done(r),
            VisitStep::GoOn => {
                let ghost before = self.pending();
                match self.pending.pop_front() {
                    Some(key) => {
                        assert(self.pending() =~= before.skip(1));
                        KeyVisitStep::Visit(key)
                    },
                    None => {
                        assert(self.pending() =~= before);
                        KeyVisitStep::Done(Ok(()))
                    },
                }
            },
        }
    }
}

/// The keys that are shown when the visitor answers the `i`-th key with
/// `replies[i]`.
pub open spec fn visited(
    pending: Seq<Seq<char>>,
    go_on: bool,
    replies: Seq<bool>,
) -> Seq<Seq<char>>
    decreases pending.len(),
{
    match next_key(pending, go_on) {
        Some(key) => seq![key] + visited(
            pending.skip(1),
            replies.len() > 0 && replies[0],
            replies.skip(1),
        ),
        None => seq![],
    }
}

/// A visit shows the first keys of the listing, in the order of the listing: all
/// of them when the visitor never stops, and up to and with the first key for
/// which it returns `false` otherwise.
pub proof fn law_visit_is_a_prefix_of_the_listing(keys: Seq<Seq<char>>, replies: Seq<bool>)
    requires
        replies.len() == keys.len(),
    ensures
        ({
            let shown = visited(keys, true, replies);
            &&& shown.is_prefix_of(keys)
            &&& (forall|i: int| 0 <= i < replies.len() ==> #[trigger] replies[i]) ==> shown == keys
            &&& forall|i: int| 0 <= i < shown.len() - 1 ==> #[trigger] replies[i]
            &&& shown.len() < keys.len() ==> shown.len() > 0 && !replies[shown.len() - 1]
        }),
    decreases keys.len(),
{
    let shown = visited(keys, true, replies);
    if keys.len() > 0 {
        let k = keys.skip(1);
        let r = replies.skip(1);
        let later = visited(k, replies[0], r);
        assert(shown =~= seq![keys[0]] + later);
        if replies[0] {
            law_visit_is_a_prefix_of_the_listing(k, r);
            assert(later =~= keys.subrange(1, 1 + later.len() as int));
            assert(shown =~= keys.take(1 + later.len() as int));
            if forall|i: int| 0 <= i < replies.len() ==> #[trigger] replies[i] {
                assert forall|i: int| 0 <= i < r.len() implies #[trigger] r[i] by {
                    assert(r[i] == replies[i + 1]);
                }
                assert(shown =~= keys);
            }
            assert forall|i: int| 0 <= i < shown.len() - 1 implies #[trigger] replies[i] by {
                if i > 0 {
                    assert(r[i - 1] == replies[i]);
                }
            }
            if shown.len() < keys.len() {
                assert(r[later.len() - 1] == replies[later.len() as int]);
            }
        } else {
            assert(later =~= seq![]);
            assert(shown =~= keys.take(1));
        }
    } else {
        assert(shown =~= keys);
    }
}

/// Whether `shown` is what a visit shows of `all`, one after the other, to a
/// visitor that answers the `i`-th item with `replies(i)`: the first items, up to
/// and with the first one that is answered with `false`, and all of them where
/// there is none.
pub open spec fn is_visit_of<T>(
    shown: Seq<T>,
    all: Seq<T>,
    replies: spec_fn(int) -> bool,
) -> bool {
    &&& shown.is_prefix_of(all)
    &&& forall|i: int| 0 <= i < shown.len() - 1 ==> #[trigger] replies(i)
    &&& shown.len() < all.len() ==> shown.len() > 0 && !replies(shown.len() - 1)
}

/// What a visitor has been shown once the items have been shown to it, in order,
/// after those in `shown`, and what follows.
pub open spec fn visit_items<T>(
    items: Seq<T>,
    shown: Seq<T>,
    replies: spec_fn(int) -> bool,
) -> (Seq<T>, VisitStep)
    decreases items.len(),
{
    if items.len() == 0 {
        (shown, VisitStep::GoOn)
    } else {
        let after = shown.push(items[0]);
        match visit_outcome(Ok(replies(shown.len() as int))) {
            VisitStep::GoOn => visit_items(items.skip(1), after, replies),
            VisitStep::Stop(r) => (after, VisitStep::Stop(r)),
        }
    }
}

/// Items are shown until one is answered with `false`.
pub proof fn lemma_visit_items<T>(items: Seq<T>, shown: Seq<T>, replies: spec_fn(int) -> bool)
    ensures
        ({
            let (after, end) = visit_items(items, shown, replies);
            &&& shown.is_prefix_of(after)
            &&& after.is_prefix_of(shown + items)
            &&& end is GoOn ==> after == shown + items && forall|i: int|
                shown.len() <= i < after.len() ==> #[trigger] replies(i)
            &&& !(end is GoOn) ==> {
                &&& end == VisitStep::Stop(Ok(()))
                &&& after.len() > shown.len()
                &&& !replies(after.len() - 1)
                &&& forall|i: int| shown.len() <= i < after.len() - 1 ==> #[trigger] replies(i)
            }
        }),
    decreases items.len(),
{
    if items.len() == 0 {
        assert(shown + items =~= shown);
        assert(shown.take(shown.len() as int) =~= shown);
    } else {
        let next = shown.push(items[0]);
        let later = items.skip(1);
        assert(next + later =~= shown + items);
        assert(shown =~= next.take(shown.len() as int));
        if replies(shown.len() as int) {
            lemma_visit_items(later, next, replies);
            let after = visit_items(later, next, replies).0;
            assert(next =~= after.take(next.len() as int));
            assert(shown =~= after.take(shown.len() as int));
        } else {
            assert(next =~= (shown + items).take(next.len() as int));
        }
    }
}

/// A visitor that wants more goes on, one that has seen enough ends the visit without an
/// error, and the error of one that fails ends it, unchanged.
pub proof fn law_visitors_decide(e: crate::error::BlobStorageError)
    ensures
        visit_outcome(Ok(true)) is GoOn,
        visit_outcome(Ok(false)) == VisitStep::Stop(Ok(())),
        visit_outcome(Err(e)) == VisitStep::Stop(Err(e)),
{
}

/// Placeholders stand for their keys one by one and in order; they tell the key and the
/// time, and nothing else.
pub proof fn law_placeholders_name_their_keys(keys: Seq<Seq<char>>, now: Timestamp, i: int)
    requires
        0 <= i < keys.len(),
    ensures
        placeholders(keys, now).len() == keys.len(),
        placeholders(keys, now)[i].key == keys[i],
        placeholders(keys, now)[i].stored_size == 0,
        placeholders(keys, now)[i].modified_at == now,
        placeholders(keys, now)[i].etag is None,
{
}

} // verus!
