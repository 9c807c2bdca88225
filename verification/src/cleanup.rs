//! Deleting the blobs of a store that a predicate selects.
//!
//! The store is visited; the keys of selected blobs are collected and deleted in
//! batches. Everything else passes through to the wrapped store, once the keys have
//! been validated.

use vstd::prelude::*;

use crate::error::BlobStorageError;
use crate::error::Result;
use crate::list_filter::PrefixFilter;
use crate::model;
use crate::model::Contents;
use crate::types;
use crate::types::BlobInput;
use crate::types::BlobMeta;
use crate::types::CleanupResult;
use crate::validate;
use crate::validate::validate_blob_key;
use crate::validate::validate_blob_keys;
use crate::validate::validate_blobs;

verus! {

/// The number of keys per batch unless another one is chosen.
pub const DEFAULT_BATCH_SIZE: usize = 1000;

/// A cleaning layer over the store `S`, with the predicate `Q` on key and
/// metadata.
pub struct BlobCleanup<S, Q> {
    pub inner: S,
    pub predicate: Q,
    pub batch_size: usize,
}

impl<S, Q> BlobCleanup<S, Q> {
    /// A cleaning layer with the default batch size.
    pub fn new(inner: S, predicate: Q) -> (r: Self)
        ensures
            r.inner == inner,
            r.predicate == predicate,
            r.batch_size == DEFAULT_BATCH_SIZE,
    {
        BlobCleanup { inner, predicate, batch_size: DEFAULT_BATCH_SIZE }
    }

    /// The same layer with another batch size.
    pub fn with_batch_size(self, batch_size: usize) -> (r: Self)
        ensures
            r.inner == self.inner,
            r.predicate == self.predicate,
            r.batch_size == batch_size,
    {
        BlobCleanup { inner: self.inner, predicate: self.predicate, batch_size }
    }

    /// The blobs to store in the wrapped store: those that were given. An invalid
    /// key is refused.
    pub fn put_request<D>(&self, blobs: Vec<BlobInput<D>>) -> (r: Result<Vec<BlobInput<D>>>)
        ensures
            match validate::validation_of_all(validate::blob_keys(blobs.deep_view())) {
                Ok(()) => r == Ok::<Vec<BlobInput<D>>, BlobStorageError>(blobs),
                Err(e) => r matches Err(f) && f@ == e,
            },
    {
        match validate_blobs(&blobs) {
            Ok(()) => Ok(blobs),
            Err(e) => Err(e),
        }
    }

    /// The key to ask the wrapped store for, in order to retrieve a blob or to check
    /// for it: the one that was given. An invalid key is refused.
    pub fn read_request(&self, key: &str) -> (r: Result<String>)
        ensures
            match validate::validation(key@) {
                Ok(()) => r matches Ok(k) && k@ == key@,
                Err(e) => r matches Err(f) && f@ == e,
            },
    {
        match validate_blob_key(key) {
            Ok(()) => Ok(key.to_owned()),
            Err(e) => Err(e),
        }
    }

    /// The keys to delete from the wrapped store: those that were given. An invalid
    /// key is refused.
    pub fn delete_request(&self, keys: Vec<String>) -> (r: Result<Vec<String>>)
        ensures
            match validate::validation_of_all(keys.deep_view()) {
                Ok(()) => r == Ok::<Vec<String>, BlobStorageError>(keys),
                Err(e) => r matches Err(f) && f@ == e,
            },
    {
        match validate_blob_keys(&keys) {
            Ok(()) => Ok(keys),
            Err(e) => Err(e),
        }
    }

    /// Begin a run: the filter with which to visit the wrapped store, and the run
    /// that treats each visited blob.
    pub fn cleanup(&self) -> (r: (PrefixFilter, CleanupRun))
        ensures
            r.0.prefix@ == ""@,
            r.1@ == (CleanupRunView { batch: seq![], batch_size: self.batch_size, deleted: 0 }),
    {
        let run = CleanupRun { batch: Vec::new(), batch_size: self.batch_size, deleted: 0 };
        assert(run@.batch =~= seq![]);
        (PrefixFilter::new(""), run)
    }
}

impl<S, Q: Fn(&str, &BlobMeta) -> bool> BlobCleanup<S, Q> {
    /// Whether the predicate selects a visited blob. Where the wrapped store gave
    /// no metadata, the predicate sees a placeholder of the current time.
    pub fn selects(&self, key: &str, meta: Option<&BlobMeta>) -> (r: bool)
        requires
            forall|k: &str, m: &BlobMeta| call_requires(self.predicate, (k, m)),
        ensures
            match meta {
                Some(m) => call_ensures(self.predicate, (key, m), r),
                None => exists|m: &BlobMeta|
                    m@ == types::placeholder(key@, m.modified_at) && #[trigger] call_ensures(
                        self.predicate,
                        (key, m),
                        r,
                    ),
            },
    {
        match meta {
            Some(m) => (self.predicate)(key, m),
            None => {
                let placeholder = BlobMeta::for_key(key);
                (self.predicate)(key, &placeholder)
            },
        }
    }
}

/// A cleanup run: the keys that are to be deleted next, and the number of keys
/// that have been deleted.
pub struct CleanupRun {
    batch: Vec<String>,
    batch_size: usize,
    deleted: u64,
}

/// The mathematical value of a [`CleanupRun`].
#[verifier::ext_equal]
pub struct CleanupRunView {
    pub batch: Seq<Seq<char>>,
    pub batch_size: usize,
    pub deleted: int,
}

impl View for CleanupRun {
    type V = CleanupRunView;

    closed spec fn view(&self) -> CleanupRunView {
        CleanupRunView {
            batch: self.batch.deep_view(),
            batch_size: self.batch_size,
            deleted: self.deleted as int,
        }
    }
}

/// Resumes a run once a batch has been deleted.
pub struct AwaitBatch {
    batch_size: usize,
    deleted: u64,
    count: usize,
}

impl AwaitBatch {
    /// The run as it goes on when the batch has been deleted.
    pub closed spec fn resumed(&self) -> CleanupRunView {
        CleanupRunView {
            batch: seq![],
            batch_size: self.batch_size,
            deleted: self.deleted + self.count,
        }
    }
}

/// The next step of a run.
pub enum CleanupStep {
    /// Go on with the visit.
    Next(CleanupRun),
    /// Delete a batch of keys from the wrapped store.
    Delete { keys: Vec<String>, then: AwaitBatch },
}

/// The mathematical value of a [`CleanupStep`].
#[verifier::ext_equal]
pub enum CleanupStepView {
    Next(CleanupRunView),
    Delete { keys: Seq<Seq<char>>, resumed: CleanupRunView },
}

impl View for CleanupStep {
    type V = CleanupStepView;

    open spec fn view(&self) -> CleanupStepView {
        match self {
            CleanupStep::Next(run) => CleanupStepView::Next(run@),
            CleanupStep::Delete { keys, then } => CleanupStepView::Delete {
                keys: keys.deep_view(),
                resumed: then.resumed(),
            },
        }
    }
}

/// What a run does with the keys that it has collected: nothing where there are
/// none.
pub open spec fn flush(run: CleanupRunView) -> CleanupStepView {
    if run.batch.len() == 0 {
        CleanupStepView::Next(run)
    } else {
        CleanupStepView::Delete {
            keys: run.batch,
            resumed: CleanupRunView {
                batch: seq![],
                deleted: run.deleted + run.batch.len(),
                ..run
            },
        }
    }
}

/// What a run does with a visited blob, once it is known whether the predicate
/// selects it.
pub open spec fn after_visited(
    run: CleanupRunView,
    key: Seq<char>,
    selected: bool,
) -> CleanupStepView {
    let longer = CleanupRunView { batch: run.batch.push(key), ..run };
    if !selected {
        CleanupStepView::Next(run)
    } else if longer.batch.len() >= run.batch_size {
        flush(longer)
    } else {
        CleanupStepView::Next(longer)
    }
}

impl CleanupRun {
    /// Treat a visited blob. A full batch is to be deleted at once.
    pub fn visited(self, key: &str, selected: bool) -> (r: CleanupStep)
        ensures
            r@ == after_visited(self@, key@, selected),
    {
        if !selected {
            return CleanupStep::Next(self);
        }
        let ghost before = self@;
        let mut run = self;
        run.batch.push(key.to_owned());
        assert(run@ =~= (CleanupRunView { batch: before.batch.push(key@), ..before }));
        if run.batch.len() >= run.batch_size {
            run.flush()
        } else {
            CleanupStep::Next(run)
        }
    }

    /// Delete what has been collected; at the end of the visit, and whenever a
    /// batch is full.
    pub fn flush(self) -> (r: CleanupStep)
        ensures
            r@ == flush(self@),
    {
        if self.batch.len() == 0 {
            CleanupStep::Next(self)
        } else {
            let count: usize = self.batch.len();
            CleanupStep::Delete {
                keys: self.batch,
                then: AwaitBatch { batch_size: self.batch_size, deleted: self.deleted, count },
            }
        }
    }

    /// The result of the run.
    pub fn result(&self) -> (r: CleanupResult)
        ensures
            r.deleted_count == self@.deleted,
    {
        CleanupResult { deleted_count: self.deleted }
    }
}

impl AwaitBatch {
    /// Go on once the batch has been deleted. A failure ends the run.
    pub fn deleted(self, reply: Result<()>) -> (r: Result<CleanupRun>)
        requires
            self.resumed().deleted <= u64::MAX,
        ensures
            match reply {
                Ok(()) => r matches Ok(run) && run@ == self.resumed(),
                Err(e) => r matches Err(f) && f == e,
            },
    {
        match reply {
            Err(e) => Err(e),
            Ok(()) => {
                let run = CleanupRun {
                    batch: Vec::new(),
                    batch_size: self.batch_size,
                    deleted: self.deleted + self.count as u64,
                };
                assert(run@ =~= self.resumed());
                Ok(run)
            },
        }
    }
}

/// The batches that a run deletes, and the run after that, when blobs are visited
/// with the given keys and selections and every deletion succeeds.
pub open spec fn run_visits(run: CleanupRunView, visits: Seq<(Seq<char>, bool)>) -> (
    Seq<Seq<Seq<char>>>,
    CleanupRunView,
)
    decreases visits.len(),
{
    if visits.len() == 0 {
        (seq![], run)
    } else {
        match after_visited(run, visits[0].0, visits[0].1) {
            CleanupStepView::Next(next) => run_visits(next, visits.skip(1)),
            CleanupStepView::Delete { keys, resumed } => {
                let (batches, end) = run_visits(resumed, visits.skip(1));
                (seq![keys] + batches, end)
            },
        }
    }
}

/// The batches that a whole run deletes, and the number of deleted blobs.
pub open spec fn run_cleanup(batch_size: usize, visits: Seq<(Seq<char>, bool)>) -> (
    Seq<Seq<Seq<char>>>,
    int,
) {
    let start = CleanupRunView { batch: seq![], batch_size, deleted: 0 };
    let (batches, run) = run_visits(start, visits);
    match flush(run) {
        CleanupStepView::Next(end) => (batches, end.deleted),
        CleanupStepView::Delete { keys, resumed } => (batches.push(keys), resumed.deleted),
    }
}

/// The keys of the selected blobs, in the order of the visit.
pub open spec fn selected_keys(visits: Seq<(Seq<char>, bool)>) -> Seq<Seq<char>>
    decreases visits.len(),
{
    if visits.len() == 0 {
        seq![]
    } else if visits[0].1 {
        seq![visits[0].0] + selected_keys(visits.skip(1))
    } else {
        selected_keys(visits.skip(1))
    }
}

/// The number of keys in a full batch. A batch size of zero counts as one.
pub open spec fn full_batch(batch_size: usize) -> int {
    if batch_size == 0 {
        1
    } else {
        batch_size as int
    }
}

/// The visits of a run, one after the other.
proof fn lemma_run_visits(run: CleanupRunView, visits: Seq<(Seq<char>, bool)>)
    requires
        run.batch.len() == 0 || run.batch.len() < run.batch_size,
    ensures
        ({
            let (batches, end) = run_visits(run, visits);
            &&& model::joined(batches) + end.batch == run.batch + selected_keys(visits)
            &&& end.deleted + end.batch.len() == run.deleted + run.batch.len() + selected_keys(
                visits,
            ).len()
            &&& end.batch_size == run.batch_size
            &&& end.batch.len() == 0 || end.batch.len() < run.batch_size
            &&& forall|i: int|
                0 <= i < batches.len() ==> (#[trigger] batches[i]).len() == full_batch(
                    run.batch_size,
                )
        }),
    decreases visits.len(),
{
    let (batches, end) = run_visits(run, visits);
    if visits.len() == 0 {
        assert(model::joined(batches) + end.batch =~= run.batch + selected_keys(visits));
    } else {
        let key = visits[0].0;
        let later = visits.skip(1);
        match after_visited(run, key, visits[0].1) {
            CleanupStepView::Next(next) => {
                lemma_run_visits(next, later);
                if visits[0].1 {
                    assert(run.batch.push(key) + selected_keys(later) =~= run.batch + (seq![key]
                        + selected_keys(later)));
                }
            },
            CleanupStepView::Delete { keys, resumed } => {
                lemma_run_visits(resumed, later);
                let (batches2, end2) = run_visits(resumed, later);
                assert(batches.skip(1) =~= batches2);
                assert(model::joined(batches) =~= keys + model::joined(batches2));
                assert(resumed.batch + selected_keys(later) =~= selected_keys(later));
                assert(keys + model::joined(batches2) + end.batch =~= keys + (model::joined(batches2)
                    + end.batch));
                assert(keys + selected_keys(later) =~= run.batch + selected_keys(visits));
                assert forall|i: int| 0 <= i < batches.len() implies (#[trigger] batches[i]).len()
                    == full_batch(run.batch_size) by {
                    if i > 0 {
                        assert(batches[i] == batches2[i - 1]);
                    }
                }
            },
        }
    }
}

/// A cleanup run deletes exactly the blobs that the predicate selected, each in
/// one batch, in the order of the visit, and counts them. Every batch but the last
/// has the batch size; the last is not empty and not larger. (A batch size of zero
/// counts as one.)
pub proof fn law_cleanup_deletes_exactly_the_selected(
    batch_size: usize,
    visits: Seq<(Seq<char>, bool)>,
)
    ensures
        ({
            let (batches, deleted) = run_cleanup(batch_size, visits);
            &&& model::joined(batches) == selected_keys(visits)
            &&& deleted == selected_keys(visits).len()
            &&& forall|i: int|
                0 <= i < batches.len() - 1 ==> (#[trigger] batches[i]).len() == full_batch(
                    batch_size,
                )
            &&& batches.len() > 0 ==> 0 < batches.last().len() <= full_batch(batch_size)
        }),
{
    let start = CleanupRunView { batch: seq![], batch_size, deleted: 0 };
    lemma_run_visits(start, visits);
    let (batches, run) = run_visits(start, visits);
    assert(start.batch + selected_keys(visits) =~= selected_keys(visits));
    if run.batch.len() == 0 {
        assert(model::joined(batches) + run.batch =~= model::joined(batches));
    } else {
        model::lemma_joined_push(batches, run.batch);
    }
}

/// The contents of a store after the batches have been deleted.
pub open spec fn delete_batches(store: Contents, batches: Seq<Seq<Seq<char>>>) -> Contents
    decreases batches.len(),
{
    if batches.len() == 0 {
        store
    } else {
        delete_batches(model::delete_all(store, batches[0]), batches.skip(1))
    }
}

/// Deleting in batches is deleting all at once: after a cleanup run the store
/// holds what it held before, without the selected blobs.
pub proof fn law_cleanup_leaves_the_rest(
    store: Contents,
    batch_size: usize,
    visits: Seq<(Seq<char>, bool)>,
)
    ensures
        delete_batches(store, run_cleanup(batch_size, visits).0) == model::delete_all(
            store,
            selected_keys(visits),
        ),
{
    law_cleanup_deletes_exactly_the_selected(batch_size, visits);
    lemma_delete_batches(store, run_cleanup(batch_size, visits).0);
}

/// Deleting in batches is deleting all at once.
proof fn lemma_delete_batches(store: Contents, batches: Seq<Seq<Seq<char>>>)
    ensures
        delete_batches(store, batches) == model::delete_all(store, model::joined(batches)),
    decreases batches.len(),
{
    if batches.len() == 0 {
        assert(model::delete_all(store, model::joined(batches)) =~= store);
    } else {
        let first = batches[0];
        let later = model::joined(batches.skip(1));
        lemma_delete_batches(model::delete_all(store, first), batches.skip(1));
        assert forall|k: Seq<char>| (first + later).contains(k) == (first.contains(k)
            || later.contains(k)) by {
            if first.contains(k) {
                let i = choose|i: int| 0 <= i < first.len() && first[i] == k;
                assert((first + later)[i] == k);
            }
            if later.contains(k) {
                let i = choose|i: int| 0 <= i < later.len() && later[i] == k;
                assert((first + later)[first.len() + i] == k);
            }
        }
        assert(model::delete_all(model::delete_all(store, first), later) =~= model::delete_all(
            store,
            first + later,
        ));
    }
}

/// A batch holds a thousand keys unless another size is chosen. A visited blob that is
/// not selected changes nothing; one that is selected joins the batch, which is deleted
/// as soon as it is full, and counted when it has been deleted. A run that has collected
/// nothing deletes nothing.
pub proof fn law_batches_fill_up(run: CleanupRunView, key: Seq<char>)
    ensures
        DEFAULT_BATCH_SIZE == 1000,
        after_visited(run, key, false) == CleanupStepView::Next(run),
        run.batch.len() + 1 < run.batch_size ==> (after_visited(
            run,
            key,
            true,
        ) matches CleanupStepView::Next(next) && next.batch == run.batch + seq![key]
            && next.batch_size == run.batch_size && next.deleted == run.deleted),
        run.batch.len() + 1 >= run.batch_size ==> (after_visited(
            run,
            key,
            true,
        ) matches CleanupStepView::Delete { keys, resumed } && keys == run.batch + seq![key]
            && resumed.batch.len() == 0 && resumed.batch_size == run.batch_size && resumed.deleted
            == run.deleted + run.batch.len() + 1),
        run.batch.len() == 0 ==> flush(run) == CleanupStepView::Next(run),
        run.batch.len() > 0 ==> (flush(run) matches CleanupStepView::Delete { keys, resumed }
            && keys == run.batch && resumed.batch.len() == 0 && resumed.batch_size
            == run.batch_size && resumed.deleted == run.deleted + run.batch.len()),
{
    assert(run.batch.push(key) =~= run.batch + seq![key]);
}

/// The steps of a run ask for just what their mathematical values say.
pub proof fn law_steps_are_taken_as_they_are(step: CleanupStep)
    ensures
        match step {
            CleanupStep::Next(run) => step@ == CleanupStepView::Next(run@),
            CleanupStep::Delete { keys, then } => step@ == (CleanupStepView::Delete {
                keys: keys.deep_view(),
                resumed: then.resumed(),
            }),
        },
{
}

} // verus!
