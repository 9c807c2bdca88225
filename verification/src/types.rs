//! Blob inputs, blob metadata and operation results.

use vstd::prelude::*;

use crate::error::ErrorView;
use crate::error::Result;
use crate::timestamp::utc_now;
use crate::timestamp::Timestamp;

verus! {

/// The separator between the components of a blob key.
pub const KEY_SEPARATOR: char = '/';

/// A blob to store: its key, its data (whatever the backend reads it from) and
/// optionally its size.
pub struct BlobInput<D> {
    /// Key under which the blob is stored.
    pub key: String,
    /// The data.
    pub data: D,
    /// Size of the data, where it is known in advance.
    pub size_hint: Option<u64>,
}

/// The mathematical value of a [`BlobInput`].
pub struct BlobInputView<D> {
    pub key: Seq<char>,
    pub data: D,
    pub size_hint: Option<u64>,
}

impl<D> View for BlobInput<D> {
    type V = BlobInputView<D>;

    open spec fn view(&self) -> BlobInputView<D> {
        BlobInputView { key: self.key@, data: self.data, size_hint: self.size_hint }
    }
}

impl<D> DeepView for BlobInput<D> {
    type V = BlobInputView<D>;

    open spec fn deep_view(&self) -> BlobInputView<D> {
        self@
    }
}

impl<D> BlobInput<D> {
    /// A blob of unknown size.
    pub fn new(key: &str, data: D) -> (r: Self)
        ensures
            r@ == (BlobInputView { key: key@, data, size_hint: None }),
            r.key@ == key@,
            r.data == data,
            r.size_hint is None,
    {
        BlobInput { key: key.to_owned(), data, size_hint: None }
    }

    /// A blob of the given size.
    pub fn with_size(key: &str, data: D, size: u64) -> (r: Self)
        ensures
            r@ == (BlobInputView { key: key@, data, size_hint: Some(size) }),
            r.key@ == key@,
            r.data == data,
            r.size_hint == Some(size),
    {
        BlobInput { key: key.to_owned(), data, size_hint: Some(size) }
    }
}

/// Metadata of a stored blob.
#[derive(Debug, Clone)]
pub struct BlobMeta {
    /// Key of the blob.
    pub key: String,
    /// Size of the data as stored.
    pub stored_size: u64,
    /// When the blob was last modified.
    pub modified_at: Timestamp,
    /// Entity tag, where the backend has one.
    pub etag: Option<String>,
}

/// The mathematical value of a [`BlobMeta`].
pub struct BlobMetaView {
    pub key: Seq<char>,
    pub stored_size: u64,
    pub modified_at: Timestamp,
    pub etag: Option<Seq<char>>,
}

impl BlobMetaView {
    /// The same metadata under another key.
    pub open spec fn with_key(self, key: Seq<char>) -> Self {
        BlobMetaView { key, ..self }
    }
}

/// Metadata of which only the key and the time are known.
pub open spec fn placeholder(key: Seq<char>, now: Timestamp) -> BlobMetaView {
    BlobMetaView { key, stored_size: 0, modified_at: now, etag: None }
}

/// The view of an optional string.
pub open spec fn text_view(s: Option<String>) -> Option<Seq<char>> {
    match s {
        Some(t) => Some(t@),
        None => None,
    }
}

impl View for BlobMeta {
    type V = BlobMetaView;

    open spec fn view(&self) -> BlobMetaView {
        BlobMetaView {
            key: self.key@,
            stored_size: self.stored_size,
            modified_at: self.modified_at,
            etag: text_view(self.etag),
        }
    }
}

impl DeepView for BlobMeta {
    type V = BlobMetaView;

    open spec fn deep_view(&self) -> BlobMetaView {
        self@
    }
}

/// The view of optional metadata.
pub open spec fn meta_view(meta: Option<&BlobMeta>) -> Option<BlobMetaView> {
    match meta {
        Some(m) => Some(m@),
        None => None,
    }
}

impl BlobMeta {
    /// Placeholder metadata for a key, stamped with the given time.
    pub fn for_key_at(key: &str, now: Timestamp) -> (r: Self)
        ensures
            r@ == placeholder(key@, now),
            r.key@ == key@,
            r.stored_size == 0,
            r.modified_at == now,
            r.etag is None,
    {
        BlobMeta { key: key.to_owned(), stored_size: 0, modified_at: now, etag: None }
    }

    /// Placeholder metadata for a key, stamped with the current time.
    pub fn for_key(key: &str) -> (r: Self)
        ensures
            r@ == placeholder(key@, r.modified_at),
            r.key@ == key@,
            r.stored_size == 0,
            r.etag is None,
    {
        BlobMeta::for_key_at(key, utc_now())
    }

    /// The same metadata under another key.
    pub fn with_key(self, key: String) -> (r: Self)
        ensures
            r@ == self@.with_key(key@),
            r.key == key,
            r.stored_size == self.stored_size,
            r.modified_at == self.modified_at,
            r.etag == self.etag,
    {
        BlobMeta {
            key,
            stored_size: self.stored_size,
            modified_at: self.modified_at,
            etag: self.etag,
        }
    }
}

/// A metadata reply with everything taken by its mathematical value.
pub open spec fn meta_result_view(r: Result<BlobMeta>) -> core::result::Result<
    BlobMetaView,
    ErrorView,
> {
    match r {
        Ok(m) => Ok(m@),
        Err(e) => Err(e@),
    }
}

/// What storing blobs returned: the metadata of each blob.
#[derive(Debug, Clone)]
pub struct PutResult {
    /// Metadata of the stored blobs.
    pub blobs: Vec<BlobMeta>,
}

impl View for PutResult {
    type V = Seq<BlobMetaView>;

    open spec fn view(&self) -> Seq<BlobMetaView> {
        self.blobs.deep_view()
    }
}

/// A put result with everything taken by its mathematical value.
pub open spec fn put_result_view(r: Result<PutResult>) -> core::result::Result<
    Seq<BlobMetaView>,
    ErrorView,
> {
    match r {
        Ok(p) => Ok(p@),
        Err(e) => Err(e@),
    }
}

impl PutResult {
    /// The result of storing one blob.
    pub fn single(meta: BlobMeta) -> (r: Self)
        ensures
            r@ == seq![meta@],
            r.blobs@ == seq![meta],
    {
        let mut blobs: Vec<BlobMeta> = Vec::new();
        blobs.push(meta);
        let r = PutResult { blobs };
        assert(r@ =~= seq![meta@]);
        r
    }

    /// The result of storing several blobs.
    pub fn multiple(blobs: Vec<BlobMeta>) -> (r: Self)
        ensures
            r.blobs == blobs,
            r@ == blobs.deep_view(),
    {
        PutResult { blobs }
    }
}

/// What a cleanup run did.
#[derive(Debug, Clone, Copy)]
pub struct CleanupResult {
    /// Number of deleted blobs.
    pub deleted_count: u64,
}

/// What a rekey run did.
#[derive(Debug, Clone, Copy)]
pub struct RekeyResult {
    /// Number of headers that were wrapped with the current key.
    pub rekeyed_count: u64,
}

/// Giving metadata another key changes the key and nothing else; a placeholder has
/// the key and the time, no size and no entity tag.
pub proof fn law_only_the_key_is_replaced(meta: BlobMetaView, key: Seq<char>, now: Timestamp)
    ensures
        meta.with_key(key).key == key,
        meta.with_key(key).stored_size == meta.stored_size,
        meta.with_key(key).modified_at == meta.modified_at,
        meta.with_key(key).etag == meta.etag,
        placeholder(key, now).key == key,
        placeholder(key, now).stored_size == 0,
        placeholder(key, now).modified_at == now,
        placeholder(key, now).etag is None,
{
}

/// Two values have the same mathematical value only if all of their parts agree.
pub proof fn law_views_tell_values_apart<D>(
    a: BlobMeta,
    b: BlobMeta,
    p: BlobInput<D>,
    q: BlobInput<D>,
)
    ensures
        a@ == b@ <==> a.key@ == b.key@ && a.stored_size == b.stored_size && a.modified_at
            == b.modified_at && text_view(a.etag) == text_view(b.etag),
        text_view(a.etag) == text_view(b.etag) <==> (a.etag is None && b.etag is None) || (
        a.etag is Some && b.etag is Some && a.etag->0@ == b.etag->0@),
        p@ == q@ <==> p.key@ == q.key@ && p.data == q.data && p.size_hint == q.size_hint,
        a@.key == a.key@,
        a@.stored_size == a.stored_size,
        a@.modified_at == a.modified_at,
        a@.etag == text_view(a.etag),
        a.etag is None ==> a@.etag is None,
        a.etag matches Some(t) ==> a@.etag == Some(t@),
        p@.key == p.key@,
        p@.data == p.data,
        p@.size_hint == p.size_hint,
{
}

/// Replies are taken as they are.
pub proof fn law_replies_are_taken_as_they_are(
    meta: BlobMeta,
    put: PutResult,
    e: crate::error::BlobStorageError,
)
    ensures
        meta_view(Some(&meta)) == Some(meta@),
        meta_view(None) is None,
        meta_result_view(Ok(meta)) == Ok::<BlobMetaView, ErrorView>(meta@),
        meta_result_view(Err(e)) == Err::<BlobMetaView, ErrorView>(e@),
        put_result_view(Ok(put)) == Ok::<Seq<BlobMetaView>, ErrorView>(put@),
        put_result_view(Err(e)) == Err::<Seq<BlobMetaView>, ErrorView>(e@),
        put@.len() == put.blobs.len(),
        forall|i: int| 0 <= i < put.blobs.len() ==> #[trigger] put@[i] == put.blobs[i]@,
{
}

} // verus!
