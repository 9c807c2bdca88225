//! A key prefix on top of another store.
//!
//! The layer stores every blob under a prefixed key. The logical keys that callers
//! give are validated before the inner store is asked. Callers see their own,
//! logical keys in results, listings and visits, in the not-found error of a
//! retrieval, and in the keys of the batch error of a put or a delete. Every other
//! error of the inner store passes unchanged; its text may quote a prefixed key.

pub mod laws;

use vstd::prelude::*;

use crate::error;
use crate::error::BatchError;
use crate::error::BatchErrorView;
use crate::error::BlobStorageError;
use crate::error::ErrorView;
use crate::error::KeyError;
use crate::error::KeyErrorView;
use crate::error::Result;
use crate::list_filter::ListFilter;
use crate::text;
use crate::timestamp::utc_now;
use crate::timestamp::Timestamp;
use crate::types;
use crate::types::BlobInput;
use crate::types::BlobInputView;
use crate::types::BlobMeta;
use crate::types::BlobMetaView;
use crate::types::PutResult;
use crate::validate;
use crate::validate::validate_blob_key;
use crate::validate::validate_blob_keys;
use crate::validate::validate_blobs;

verus! {

/// The key that is left when the prefix is taken off; `None` for a key without
/// it.
pub open spec fn stripped(prefix: Seq<char>, key: Seq<char>) -> Option<Seq<char>> {
    if prefix.is_prefix_of(key) {
        Some(key.skip(prefix.len() as int))
    } else {
        None
    }
}

/// The key without its prefix, or as it is where it has none.
pub open spec fn logical(prefix: Seq<char>, key: Seq<char>) -> Seq<char> {
    match stripped(prefix, key) {
        Some(k) => k,
        None => key,
    }
}

/// The blob under its prefixed key.
pub open spec fn prefixed_blob<D>(
    prefix: Seq<char>,
    blob: BlobInputView<D>,
) -> BlobInputView<D> {
    BlobInputView { key: prefix + blob.key, ..blob }
}

/// The blobs to store in the inner store. An invalid logical key is refused.
pub open spec fn put_requested<D>(
    prefix: Seq<char>,
    blobs: Seq<BlobInputView<D>>,
) -> core::result::Result<Seq<BlobInputView<D>>, ErrorView> {
    match validate::validation_of_all(validate::blob_keys(blobs)) {
        Ok(()) => Ok(blobs.map_values(|b: BlobInputView<D>| prefixed_blob(prefix, b))),
        Err(e) => Err(e),
    }
}

/// The key to ask the inner store for. An invalid logical key is refused.
pub open spec fn read_requested(prefix: Seq<char>, key: Seq<char>) -> core::result::Result<
    Seq<char>,
    ErrorView,
> {
    match validate::validation(key) {
        Ok(()) => Ok(prefix + key),
        Err(e) => Err(e),
    }
}

/// The keys to delete from the inner store. An invalid logical key is refused.
pub open spec fn delete_requested(prefix: Seq<char>, keys: Seq<Seq<char>>) -> core::result::Result<
    Seq<Seq<char>>,
    ErrorView,
> {
    match validate::validation_of_all(keys) {
        Ok(()) => Ok(keys.map_values(|k: Seq<char>| prefix + k)),
        Err(e) => Err(e),
    }
}

/// A batch error about logical keys: keys without the prefix are no longer
/// listed as processed, and failures keep their key as it is.
pub open spec fn logical_batch(prefix: Seq<char>, batch: BatchErrorView) -> BatchErrorView {
    BatchErrorView {
        succeeded: batch.succeeded.filter_map(|k: Seq<char>| stripped(prefix, k)),
        errors: batch.errors.map_values(
            |e: KeyErrorView| KeyErrorView { key: logical(prefix, e.key), ..e },
        ),
    }
}

/// The error of a put or a delete as the caller sees it.
pub open spec fn logical_batch_error(prefix: Seq<char>, e: ErrorView) -> ErrorView {
    match e {
        ErrorView::Batch(batch) => ErrorView::Batch(logical_batch(prefix, batch)),
        other => other,
    }
}

/// What is listed of a key of the inner store.
pub open spec fn listed<F: ListFilter + ?Sized>(
    prefix: Seq<char>,
    filter: &F,
    now: Timestamp,
    key: Seq<char>,
) -> Option<Seq<char>> {
    match stripped(prefix, key) {
        Some(k) => if filter.accepts(k, Some(types::placeholder(k, now))) {
            Some(k)
        } else {
            None
        },
        None => None,
    }
}

/// What is listed of the keys of the inner store.
pub open spec fn listing<F: ListFilter + ?Sized>(
    prefix: Seq<char>,
    filter: &F,
    now: Timestamp,
    keys: Seq<Seq<char>>,
) -> Seq<Seq<char>> {
    keys.filter_map(|k: Seq<char>| listed(prefix, filter, now, k))
}

/// What is listed of the metadata of a blob of the inner store.
pub open spec fn listed_meta<F: ListFilter + ?Sized>(
    prefix: Seq<char>,
    filter: &F,
    meta: BlobMetaView,
) -> Option<BlobMetaView> {
    match stripped(prefix, meta.key) {
        Some(k) => if filter.accepts(k, Some(meta.with_key(k))) {
            Some(meta.with_key(k))
        } else {
            None
        },
        None => None,
    }
}

/// The metadata of a visited blob under its logical key.
pub open spec fn visited_meta(prefix: Seq<char>, meta: Option<BlobMetaView>) -> Option<
    BlobMetaView,
> {
    match meta {
        Some(m) => Some(
            m.with_key(
                match stripped(prefix, m.key) {
                    Some(k) => k,
                    None => seq![],
                },
            ),
        ),
        None => None,
    }
}

/// Narrows the search of the inner store to the prefix of the layer, extended by
/// what the caller's filter hints at.
pub struct CombinedPrefixFilter {
    pub full: String,
}

impl CombinedPrefixFilter {
    /// The prefix of the layer, extended by the hint of a filter.
    pub open spec fn combined(prefix: Seq<char>, hint: Option<Seq<char>>) -> Seq<char> {
        match hint {
            Some(h) => prefix + h,
            None => prefix,
        }
    }

    /// The filter for the inner store.
    pub fn new<F: ListFilter + ?Sized>(store_prefix: &str, filter: &F) -> (r: Self)
        ensures
            r.full@ == Self::combined(store_prefix@, filter.hint()),
    {
        match filter.prefix_hint() {
            Some(hint) => CombinedPrefixFilter { full: text::concat(store_prefix, hint) },
            None => CombinedPrefixFilter { full: store_prefix.to_owned() },
        }
    }
}

impl ListFilter for CombinedPrefixFilter {
    open spec fn accepts(&self, key: Seq<char>, meta: Option<BlobMetaView>) -> bool {
        self.full@.is_prefix_of(key)
    }

    open spec fn hint(&self) -> Option<Seq<char>> {
        Some(self.full@)
    }

    fn matches(&self, key: &str, meta: Option<&BlobMeta>) -> (r: bool) {
        text::starts_with(key, self.full.as_str())
    }

    fn prefix_hint(&self) -> (r: Option<&str>) {
        Some(self.full.as_str())
    }
}

/// A layer that prefixes the keys of the store `S`.
pub struct PrefixBlobStore<S> {
    pub inner: S,
    pub prefix: String,
}

impl<S> PrefixBlobStore<S> {
    /// A layer with the given prefix.
    pub fn new(inner: S, prefix: &str) -> (r: Self)
        ensures
            r.inner == inner,
            r.prefix@ == prefix@,
    {
        PrefixBlobStore { inner, prefix: prefix.to_owned() }
    }

    /// The key in the inner store.
    pub fn prefixed(&self, key: &str) -> (r: String)
        ensures
            r@ == self.prefix@ + key@,
    {
        text::concat(self.prefix.as_str(), key)
    }

    /// The key without the prefix; `None` for a key that does not have it.
    pub fn strip_prefix(&self, key: &str) -> (r: Option<String>)
        ensures
            types::text_view(r) == stripped(self.prefix@, key@),
    {
        text::strip_prefix(key, self.prefix.as_str())
    }

    /// An error of the inner store as the caller sees it.
    pub fn map_error(&self, logical_key: &str, err: BlobStorageError) -> (r: BlobStorageError)
        ensures
            r@ == err@.missing_as(logical_key@),
    {
        err.missing_as(logical_key)
    }

    /// An error of a put or a delete as the caller sees it.
    pub fn map_batch_error(&self, err: BlobStorageError) -> (r: BlobStorageError)
        ensures
            r@ == logical_batch_error(self.prefix@, err@),
    {
        match err {
            BlobStorageError::Batch(batch) => {
                let ghost prefix = self.prefix@;
                let ghost done = batch.succeeded.deep_view();
                let ghost failed = batch.errors.deep_view();
                let ghost strip = |k: Seq<char>| stripped(prefix, k);
                let ghost rename = |e: KeyErrorView|
                    KeyErrorView { key: logical(prefix, e.key), ..e };
                let mut succeeded: Vec<String> = Vec::new();
                let mut errors: Vec<KeyError> = Vec::new();
                for key in it: batch.succeeded
                    invariant
                        it.seq() == batch.succeeded@,
                        done == batch.succeeded.deep_view(),
                        prefix == self.prefix@,
                        strip == (|k: Seq<char>| stripped(prefix, k)),
                        succeeded.deep_view() == done.take(it.index()).filter_map(strip),
                {
                    let ghost before = succeeded.deep_view();
                    let ghost i = it.index();
                    proof {
                        done.lemma_filter_map_take_succ(strip, i);
                        assert(done[i] == key@);
                    }
                    if let Some(k) = self.strip_prefix(key.as_str()) {
                        succeeded.push(k);
                        assert(succeeded.deep_view() =~= before.push(k@));
                    }
                    assert(succeeded.deep_view() =~= done.take(i + 1).filter_map(strip));
                }
                assert(done.take(done.len() as int) =~= done);
                for error in it: batch.errors
                    invariant
                        it.seq() == batch.errors@,
                        failed == batch.errors.deep_view(),
                        prefix == self.prefix@,
                        rename == (|e: KeyErrorView|
                            KeyErrorView { key: logical(prefix, e.key), ..e }),
                        errors.deep_view() == failed.take(it.index()).map_values(rename),
                {
                    let ghost before = errors.deep_view();
                    let ghost i = it.index();
                    let ghost entry = error@;
                    assert(failed[i] == entry);
                    let renamed = match self.strip_prefix(error.key.as_str()) {
                        Some(k) => KeyError { key: k, error: error.error },
                        None => error,
                    };
                    assert(renamed@ == rename(entry));
                    errors.push(renamed);
                    assert(errors.deep_view() =~= before.push(rename(entry)));
                    assert(errors.deep_view() =~= failed.take(i + 1).map_values(rename));
                }
                assert(failed.take(failed.len() as int) =~= failed);
                BlobStorageError::Batch(BatchError { succeeded, errors })
            },
            other => other,
        }
    }

    /// The blobs to store in the inner store.
    pub fn put_request<D>(&self, blobs: Vec<BlobInput<D>>) -> (r: Result<Vec<BlobInput<D>>>)
        ensures
            put_requested(self.prefix@, blobs.deep_view()) == match r {
                Ok(request) => Ok::<Seq<BlobInputView<D>>, ErrorView>(request.deep_view()),
                Err(e) => Err(e@),
            },
    {
        match validate_blobs(&blobs) {
            Ok(()) => {},
            Err(e) => {
                return Err(e);
            },
        }
        let ghost all = blobs.deep_view();
        let ghost rename = |b: BlobInputView<D>| prefixed_blob(self.prefix@, b);
        let mut request: Vec<BlobInput<D>> = Vec::new();
        for blob in it: blobs
            invariant
                it.seq() == blobs@,
                all == blobs.deep_view(),
                rename == (|b: BlobInputView<D>| prefixed_blob(self.prefix@, b)),
                request.deep_view() == all.take(it.index()).map_values(rename),
        {
            let ghost before = request.deep_view();
            let ghost i = it.index();
            let ghost entry = blob@;
            assert(all[i] == entry);
            let key = self.prefixed(blob.key.as_str());
            request.push(BlobInput { key, data: blob.data, size_hint: blob.size_hint });
            assert(request.deep_view() =~= before.push(rename(entry)));
            assert(request.deep_view() =~= all.take(i + 1).map_values(rename));
        }
        assert(all.take(all.len() as int) =~= all);
        Ok(request)
    }

    /// The key to ask the inner store for, in order to retrieve a blob or to check
    /// for it.
    pub fn read_request(&self, key: &str) -> (r: Result<String>)
        ensures
            read_requested(self.prefix@, key@) == match r {
                Ok(request) => Ok::<Seq<char>, ErrorView>(request@),
                Err(e) => Err(e@),
            },
    {
        match validate_blob_key(key) {
            Ok(()) => Ok(self.prefixed(key)),
            Err(e) => Err(e),
        }
    }

    /// The metadata of a blob of the inner store under its logical key.
    pub fn logical_meta(&self, meta: BlobMeta) -> (r: BlobMeta)
        ensures
            r@ == meta@.with_key(logical(self.prefix@, meta@.key)),
    {
        match self.strip_prefix(meta.key.as_str()) {
            Some(key) => meta.with_key(key),
            None => meta,
        }
    }

    /// What a put returns, from what the inner store returned for it.
    pub fn put_response(&self, reply: Result<PutResult>) -> (r: Result<PutResult>)
        ensures
            match reply {
                Ok(inner) => r matches Ok(result) && result@ == inner@.map_values(
                    |m: BlobMetaView| m.with_key(logical(self.prefix@, m.key)),
                ),
                Err(e) => r matches Err(f) && f@ == logical_batch_error(self.prefix@, e@),
            },
    {
        match reply {
            Err(e) => Err(self.map_batch_error(e)),
            Ok(inner) => {
                let ghost all = inner@;
                let ghost rename = |m: BlobMetaView| m.with_key(logical(self.prefix@, m.key));
                let mut metas: Vec<BlobMeta> = Vec::new();
                for meta in it: inner.blobs
                    invariant
                        it.seq() == inner.blobs@,
                        all == inner.blobs.deep_view(),
                        rename == (|m: BlobMetaView| m.with_key(logical(self.prefix@, m.key))),
                        metas.deep_view() == all.take(it.index()).map_values(rename),
                {
                    let ghost before = metas.deep_view();
                    let ghost i = it.index();
                    let ghost entry = meta@;
                    assert(all[i] == entry);
                    metas.push(self.logical_meta(meta));
                    assert(metas.deep_view() =~= before.push(rename(entry)));
                    assert(metas.deep_view() =~= all.take(i + 1).map_values(rename));
                }
                assert(all.take(all.len() as int) =~= all);
                Ok(PutResult::multiple(metas))
            },
        }
    }

    /// What a retrieval or a check of one key returns, from what the inner store
    /// returned for the prefixed key.
    pub fn get_response<R>(&self, key: &str, reply: Result<R>) -> (r: Result<R>)
        ensures
            error::result_view(r) == match reply {
                Ok(x) => Ok::<R, ErrorView>(x),
                Err(e) => Err(e@.missing_as(key@)),
            },
    {
        match reply {
            Ok(x) => Ok(x),
            Err(e) => Err(self.map_error(key, e)),
        }
    }

    /// What a retrieval with metadata returns, from what the inner store returned
    /// for the prefixed key.
    pub fn get_with_metadata_response<R>(
        &self,
        key: &str,
        reply: Result<(BlobMeta, R)>,
    ) -> (r: Result<(BlobMeta, R)>)
        ensures
            match reply {
                Ok((meta, data)) => r matches Ok((m, d)) && d == data && m@ == meta@.with_key(
                    logical(self.prefix@, meta@.key),
                ),
                Err(e) => r matches Err(f) && f@ == e@.missing_as(key@),
            },
    {
        match reply {
            Ok((meta, data)) => Ok((self.logical_meta(meta), data)),
            Err(e) => Err(self.map_error(key, e)),
        }
    }

    /// The keys to delete from the inner store.
    pub fn delete_request(&self, keys: &Vec<String>) -> (r: Result<Vec<String>>)
        ensures
            delete_requested(self.prefix@, keys.deep_view()) == match r {
                Ok(request) => Ok::<Seq<Seq<char>>, ErrorView>(request.deep_view()),
                Err(e) => Err(e@),
            },
    {
        match validate_blob_keys(keys) {
            Ok(()) => {},
            Err(e) => {
                return Err(e);
            },
        }
        let ghost all = keys.deep_view();
        let ghost rename = |k: Seq<char>| self.prefix@ + k;
        let mut request: Vec<String> = Vec::new();
        let mut i: usize = 0;
        while i < keys.len()
            invariant
                i <= keys.len(),
                all == keys.deep_view(),
                rename == (|k: Seq<char>| self.prefix@ + k),
                request.deep_view() == all.take(i as int).map_values(rename),
            decreases keys.len() - i,
        {
            let ghost before = request.deep_view();
            assert(all[i as int] == keys[i as int]@);
            request.push(self.prefixed(keys[i].as_str()));
            assert(request.deep_view() =~= before.push(rename(all[i as int])));
            assert(request.deep_view() =~= all.take(i + 1).map_values(rename));
            i = i + 1;
        }
        assert(all.take(all.len() as int) =~= all);
        Ok(request)
    }

    /// What a delete returns, from what the inner store returned for the prefixed
    /// keys.
    pub fn delete_response(&self, reply: Result<()>) -> (r: Result<()>)
        ensures
            error::result_view(r) == match reply {
                Ok(()) => Ok::<(), ErrorView>(()),
                Err(e) => Err(logical_batch_error(self.prefix@, e@)),
            },
    {
        match reply {
            Ok(()) => Ok(()),
            Err(e) => Err(self.map_batch_error(e)),
        }
    }

    /// The filter with which to list or visit the inner store.
    pub fn inner_filter<F: ListFilter + ?Sized>(&self, filter: &F) -> (r: CombinedPrefixFilter)
        ensures
            r.full@ == CombinedPrefixFilter::combined(self.prefix@, filter.hint()),
    {
        CombinedPrefixFilter::new(self.prefix.as_str(), filter)
    }

    /// What a listing returns, from what the inner store listed. The filter sees
    /// logical keys, with placeholder metadata of the given time.
    pub fn list_response_at<F: ListFilter + ?Sized>(
        &self,
        filter: &F,
        reply: Result<Vec<String>>,
        now: Timestamp,
    ) -> (r: Result<Vec<String>>)
        ensures
            match reply {
                Ok(keys) => r matches Ok(result) && result.deep_view() == listing(
                    self.prefix@,
                    filter,
                    now,
                    keys.deep_view(),
                ),
                Err(_) => r == reply,
            },
    {
        match reply {
            Err(e) => Err(e),
            Ok(keys) => {
                let ghost all = keys.deep_view();
                let ghost pick = |k: Seq<char>| listed(self.prefix@, filter, now, k);
                let mut result: Vec<String> = Vec::new();
                for key in it: keys
                    invariant
                        it.seq() == keys@,
                        all == keys.deep_view(),
                        pick == (|k: Seq<char>| listed(self.prefix@, filter, now, k)),
                        result.deep_view() == all.take(it.index()).filter_map(pick),
                {
                    let ghost before = result.deep_view();
                    let ghost i = it.index();
                    proof {
                        all.lemma_filter_map_take_succ(pick, i);
                        assert(all[i] == key@);
                    }
                    if let Some(k) = self.strip_prefix(key.as_str()) {
                        let placeholder = BlobMeta::for_key_at(k.as_str(), now);
                        if filter.matches(k.as_str(), Some(&placeholder)) {
                            result.push(k);
                            assert(result.deep_view() =~= before.push(k@));
                        }
                    }
                    assert(result.deep_view() =~= all.take(i + 1).filter_map(pick));
                }
                assert(all.take(all.len() as int) =~= all);
                Ok(result)
            },
        }
    }

    /// What a listing returns, from what the inner store listed. The filter sees
    /// logical keys, with placeholder metadata of the current time.
    pub fn list_response<F: ListFilter + ?Sized>(
        &self,
        filter: &F,
        reply: Result<Vec<String>>,
    ) -> (r: Result<Vec<String>>)
        ensures
            match reply {
                Ok(keys) => r matches Ok(result) && exists|now: Timestamp|
                    result.deep_view() == #[trigger] listing(
                        self.prefix@,
                        filter,
                        now,
                        keys.deep_view(),
                    ),
                Err(_) => r == reply,
            },
    {
        self.list_response_at(filter, reply, utc_now())
    }

    /// What a listing with metadata returns, from what the inner store listed.
    /// The filter sees logical keys.
    pub fn list_with_metadata_response<F: ListFilter + ?Sized>(
        &self,
        filter: &F,
        reply: Result<Vec<BlobMeta>>,
    ) -> (r: Result<Vec<BlobMeta>>)
        ensures
            match reply {
                Ok(metas) => r matches Ok(result) && result.deep_view()
                    == metas.deep_view().filter_map(
                    |m: BlobMetaView| listed_meta(self.prefix@, filter, m),
                ),
                Err(_) => r == reply,
            },
    {
        match reply {
            Err(e) => Err(e),
            Ok(metas) => {
                let ghost all = metas.deep_view();
                let ghost pick = |m: BlobMetaView| listed_meta(self.prefix@, filter, m);
                let mut result: Vec<BlobMeta> = Vec::new();
                for meta in it: metas
                    invariant
                        it.seq() == metas@,
                        all == metas.deep_view(),
                        pick == (|m: BlobMetaView| listed_meta(self.prefix@, filter, m)),
                        result.deep_view() == all.take(it.index()).filter_map(pick),
                {
                    let ghost before = result.deep_view();
                    let ghost i = it.index();
                    proof {
                        all.lemma_filter_map_take_succ(pick, i);
                        assert(all[i] == meta@);
                    }
                    if let Some(key) = self.strip_prefix(meta.key.as_str()) {
                        let entry = meta.with_key(key);
                        if filter.matches(entry.key.as_str(), Some(&entry)) {
                            result.push(entry);
                            assert(result.deep_view() =~= before.push(entry@));
                        }
                    }
                    assert(result.deep_view() =~= all.take(i + 1).filter_map(pick));
                }
                assert(all.take(all.len() as int) =~= all);
                Ok(result)
            },
        }
    }

    /// What the caller's visitor is shown of a visited blob of the inner store:
    /// logical key and metadata where the filter selects them, `None` otherwise.
    pub fn visit_item<F: ListFilter + ?Sized>(
        &self,
        filter: &F,
        key: &str,
        meta: Option<&BlobMeta>,
    ) -> (r: Option<(String, Option<BlobMeta>)>)
        ensures
            ({
                let shown = visited_meta(self.prefix@, types::meta_view(meta));
                match r {
                    Some((k, m)) => {
                        &&& stripped(self.prefix@, key@) == Some(k@)
                        &&& meta_option_view(m) == shown
                        &&& filter.accepts(k@, shown)
                    },
                    None => match stripped(self.prefix@, key@) {
                        Some(k) => !filter.accepts(k, shown),
                        None => true,
                    },
                }
            }),
    {
        let k = match self.strip_prefix(key) {
            None => {
                return None;
            },
            Some(k) => k,
        };
        let shown = match meta {
            None => None,
            Some(m) => {
                let meta_key = match self.strip_prefix(m.key.as_str()) {
                    Some(s) => s,
                    None => String::new(),
                };
                let etag = match &m.etag {
                    Some(t) => Some(t.clone()),
                    None => None,
                };
                Some(
                    BlobMeta {
                        key: meta_key,
                        stored_size: m.stored_size,
                        modified_at: m.modified_at,
                        etag,
                    },
                )
            },
        };
        let selected = match &shown {
            Some(m) => filter.matches(k.as_str(), Some(m)),
            None => filter.matches(k.as_str(), None),
        };
        if selected {
            Some((k, shown))
        } else {
            None
        }
    }
}

/// The view of owned optional metadata.
pub open spec fn meta_option_view(meta: Option<BlobMeta>) -> Option<BlobMetaView> {
    match meta {
        Some(m) => Some(m@),
        None => None,
    }
}

} // verus!
