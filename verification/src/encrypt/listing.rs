//! Listing and visiting encrypted blobs: headers stay hidden, and so does data
//! that has no header.

use std::collections::VecDeque;
use vstd::prelude::*;

use crate::encrypt;
use crate::encrypt::EncryptedBlobStore;
use crate::error::BlobStorageError;
use crate::error::ErrorView;
use crate::error::Result;
use crate::list_filter::ListFilter;
use crate::order;
use crate::text;
use crate::types;
use crate::types::BlobMeta;
use crate::types::BlobMetaView;

verus! {

/// The keys of the inner store that may name a blob to list: data keys that the
/// filter selects by their key alone.
pub open spec fn candidates<F: ListFilter + ?Sized>(
    suffix: Seq<char>,
    filter: &F,
    keys: Seq<Seq<char>>,
) -> Seq<Seq<char>> {
    keys.filter(|k: Seq<char>| !encrypt::is_header_key(suffix, k) && filter.accepts(k, None))
}

/// The keys of the inner store that may name a blob to list, in a queue.
fn candidate_queue<F: ListFilter + ?Sized>(suffix: &str, filter: &F, keys: Vec<String>) -> (r:
    VecDeque<String>)
    ensures
        r.deep_view() == candidates(suffix@, filter, keys.deep_view()),
{
    let ghost all = keys.deep_view();
    let ghost wanted = |k: Seq<char>|
        !encrypt::is_header_key(suffix@, k) && filter.accepts(k, None);
    let mut queue: VecDeque<String> = VecDeque::new();
    assert(queue.deep_view() =~= all.take(0).filter(wanted)) by {
        reveal(Seq::filter);
    }
    for key in it: keys
        invariant
            it.seq() == keys@,
            all == keys.deep_view(),
            wanted == (|k: Seq<char>|
                !encrypt::is_header_key(suffix@, k) && filter.accepts(k, None)),
            queue.deep_view() == all.take(it.index()).filter(wanted),
    {
        let ghost before = queue.deep_view();
        let ghost i = it.index();
        proof {
            assert(all.take(i + 1).drop_last() =~= all.take(i));
            reveal(Seq::filter);
        }
        if !text::ends_with(key.as_str(), suffix) && filter.matches(key.as_str(), None) {
            queue.push_back(key);
            assert(queue.deep_view() =~= before.push(key@));
        }
    }
    assert(all.take(all.len() as int) =~= all);
    queue
}

/// The rest of a listing: the candidates that are left, and the keys that were
/// found to name a blob.
pub struct ListRest {
    suffix: String,
    pending: VecDeque<String>,
    listed: Vec<String>,
}

/// The mathematical value of a [`ListRest`].
#[verifier::ext_equal]
pub struct ListRestView {
    pub suffix: Seq<char>,
    pub pending: Seq<Seq<char>>,
    pub listed: Seq<Seq<char>>,
}

impl View for ListRest {
    type V = ListRestView;

    closed spec fn view(&self) -> ListRestView {
        ListRestView {
            suffix: self.suffix@,
            pending: self.pending.deep_view(),
            listed: self.listed.deep_view(),
        }
    }
}

/// Resumes a listing once the inner store has answered for a header.
pub struct AwaitListed {
    pub key: String,
    pub rest: ListRest,
}

/// The next step of a listing.
pub enum ListStep {
    /// Ask the inner store whether it has a header.
    CheckHeader { header_key: String, then: AwaitListed },
    /// The listing is over.
    Done(Result<Vec<String>>),
}

/// The mathematical value of a [`ListStep`].
#[verifier::ext_equal]
pub enum ListStepView {
    CheckHeader { header_key: Seq<char>, key: Seq<char>, rest: ListRestView },
    Done(core::result::Result<Seq<Seq<char>>, ErrorView>),
}

impl View for ListStep {
    type V = ListStepView;

    open spec fn view(&self) -> ListStepView {
        match self {
            ListStep::CheckHeader { header_key, then } => ListStepView::CheckHeader {
                header_key: header_key@,
                key: then.key@,
                rest: then.rest@,
            },
            ListStep::Done(Ok(keys)) => ListStepView::Done(Ok(keys.deep_view())),
            ListStep::Done(Err(e)) => ListStepView::Done(Err(e@)),
        }
    }
}

/// What a listing does next.
pub open spec fn next_candidate(rest: ListRestView) -> ListStepView {
    if rest.pending.len() == 0 {
        ListStepView::Done(Ok(rest.listed))
    } else {
        ListStepView::CheckHeader {
            header_key: encrypt::header_key_of(rest.suffix, rest.pending[0]),
            key: rest.pending[0],
            rest: ListRestView { pending: rest.pending.skip(1), ..rest },
        }
    }
}

/// What a listing does next when the inner store has answered for the header of
/// `key`.
pub open spec fn after_candidate(
    key: Seq<char>,
    rest: ListRestView,
    reply: Result<bool>,
) -> ListStepView {
    match reply {
        Err(e) => ListStepView::Done(Err(e@)),
        Ok(true) => next_candidate(ListRestView { listed: rest.listed.push(key), ..rest }),
        Ok(false) => next_candidate(rest),
    }
}

impl ListRest {
    /// The step for the next candidate.
    fn next(self) -> (r: ListStep)
        ensures
            r@ == next_candidate(self@),
    {
        let ghost before = self@;
        let mut pending = self.pending;
        match pending.pop_front() {
            None => ListStep::Done(Ok(self.listed)),
            Some(key) => {
                let header_key = text::concat(key.as_str(), self.suffix.as_str());
                let rest = ListRest { suffix: self.suffix, pending, listed: self.listed };
                assert(rest@ =~= (ListRestView { pending: before.pending.skip(1), ..before }));
                ListStep::CheckHeader { header_key, then: AwaitListed { key, rest } }
            },
        }
    }
}

impl AwaitListed {
    /// Go on with whether the inner store has the header.
    pub fn answered(self, reply: Result<bool>) -> (r: ListStep)
        ensures
            r@ == after_candidate(self.key@, self.rest@, reply),
    {
        match reply {
            Err(e) => ListStep::Done(Err(e)),
            Ok(true) => {
                let ghost before = self.rest@;
                let mut listed = self.rest.listed;
                listed.push(self.key);
                let rest = ListRest {
                    suffix: self.rest.suffix,
                    pending: self.rest.pending,
                    listed,
                };
                assert(rest@ =~= (ListRestView {
                    listed: before.listed.push(self.key@),
                    ..before
                }));
                rest.next()
            },
            Ok(false) => self.rest.next(),
        }
    }
}

impl<S, E> EncryptedBlobStore<S, E> {
    /// Begin a listing, with what the inner store returned for the listing of
    /// all its keys.
    pub fn list<F: ListFilter + ?Sized>(&self, filter: &F, all: Result<Vec<String>>) -> (r:
        ListStep)
        ensures
            match all {
                Err(e) => r == ListStep::Done(all),
                Ok(keys) => r@ == next_candidate(
                    ListRestView {
                        suffix: self.header_suffix@,
                        pending: candidates(self.header_suffix@, filter, keys.deep_view()),
                        listed: seq![],
                    },
                ),
            },
    {
        match all {
            Err(e) => ListStep::Done(Err(e)),
            Ok(keys) => {
                let rest = ListRest {
                    suffix: self.header_suffix.clone(),
                    pending: candidate_queue(self.header_suffix.as_str(), filter, keys),
                    listed: Vec::new(),
                };
                assert(rest@ =~= (ListRestView {
                    suffix: self.header_suffix@,
                    pending: candidates(self.header_suffix@, filter, keys.deep_view()),
                    listed: seq![],
                }));
                rest.next()
            },
        }
    }
}

/// The rest of a listing with metadata.
pub struct MetaRest {
    suffix: String,
    pending: VecDeque<String>,
    metas: Vec<BlobMeta>,
}

/// The mathematical value of a [`MetaRest`].
#[verifier::ext_equal]
pub struct MetaRestView {
    pub suffix: Seq<char>,
    pub pending: Seq<Seq<char>>,
    pub metas: Seq<BlobMetaView>,
}

impl View for MetaRest {
    type V = MetaRestView;

    closed spec fn view(&self) -> MetaRestView {
        MetaRestView {
            suffix: self.suffix@,
            pending: self.pending.deep_view(),
            metas: self.metas.deep_view(),
        }
    }
}

/// Resumes a listing with metadata once the inner store has answered for a
/// header.
pub struct AwaitMetaHeader {
    pub key: String,
    pub rest: MetaRest,
}

/// Resumes a listing with metadata once the inner store has given the metadata
/// of a blob.
pub struct AwaitMeta {
    pub key: String,
    pub rest: MetaRest,
}

/// The next step of a listing with metadata.
#[allow(inconsistent_fields)]
pub enum MetaStep {
    /// Ask the inner store whether it has a header.
    CheckHeader { header_key: String, then: AwaitMetaHeader },
    /// Get the metadata of the data from the inner store.
    FetchMeta { key: String, then: AwaitMeta },
    /// The listing is over.
    Done(Result<Vec<BlobMeta>>),
}

/// The mathematical value of a [`MetaStep`]. A finished listing is given in the
/// order in which its entries were found.
#[verifier::ext_equal]
pub enum MetaStepView {
    CheckHeader { header_key: Seq<char>, key: Seq<char>, rest: MetaRestView },
    FetchMeta { data_key: Seq<char>, key: Seq<char>, rest: MetaRestView },
    Finished(Seq<BlobMetaView>),
    Failed(ErrorView),
}

impl MetaStep {
    /// Whether the step is the given one. The entries of a finished listing
    /// stand in the order of their keys.
    pub open spec fn realizes(&self, v: MetaStepView) -> bool {
        match self {
            MetaStep::CheckHeader { header_key, then } => v == MetaStepView::CheckHeader {
                header_key: header_key@,
                key: then.key@,
                rest: then.rest@,
            },
            MetaStep::FetchMeta { key, then } => v == MetaStepView::FetchMeta {
                data_key: key@,
                key: then.key@,
                rest: then.rest@,
            },
            MetaStep::Done(Ok(metas)) => v matches MetaStepView::Finished(found)
                && order::is_meta_sort_of(metas.deep_view(), found),
            MetaStep::Done(Err(e)) => v == MetaStepView::Failed(e@),
        }
    }
}

/// What a listing with metadata does next.
pub open spec fn next_meta(rest: MetaRestView) -> MetaStepView {
    if rest.pending.len() == 0 {
        MetaStepView::Finished(rest.metas)
    } else {
        MetaStepView::CheckHeader {
            header_key: encrypt::header_key_of(rest.suffix, rest.pending[0]),
            key: rest.pending[0],
            rest: MetaRestView { pending: rest.pending.skip(1), ..rest },
        }
    }
}

/// What a listing with metadata does next when the inner store has answered for
/// the header of `key`. A blob whose header cannot be checked is passed over.
pub open spec fn after_meta_header(
    key: Seq<char>,
    rest: MetaRestView,
    reply: Result<bool>,
) -> MetaStepView {
    match reply {
        Ok(true) => MetaStepView::FetchMeta { data_key: key, key, rest },
        _ => next_meta(rest),
    }
}

/// What a listing with metadata does next when the inner store has answered to
/// the request for metadata. A blob that disappeared meanwhile is passed over.
pub open spec fn after_meta(
    key: Seq<char>,
    rest: MetaRestView,
    reply: core::result::Result<BlobMetaView, ErrorView>,
) -> MetaStepView {
    match reply {
        Ok(meta) => next_meta(MetaRestView { metas: rest.metas.push(meta.with_key(key)), ..rest }),
        Err(ErrorView::NotFound(_)) => next_meta(rest),
        Err(e) => MetaStepView::Failed(e),
    }
}

impl MetaRest {
    /// The step for the next candidate.
    fn next(self) -> (r: MetaStep)
        ensures
            r.realizes(next_meta(self@)),
    {
        let ghost before = self@;
        let mut pending = self.pending;
        match pending.pop_front() {
            None => {
                let mut metas = self.metas;
                order::sort_metas(&mut metas);
                MetaStep::Done(Ok(metas))
            },
            Some(key) => {
                let header_key = text::concat(key.as_str(), self.suffix.as_str());
                let rest = MetaRest { suffix: self.suffix, pending, metas: self.metas };
                assert(rest@ =~= (MetaRestView { pending: before.pending.skip(1), ..before }));
                MetaStep::CheckHeader { header_key, then: AwaitMetaHeader { key, rest } }
            },
        }
    }
}

impl AwaitMetaHeader {
    /// Go on with whether the inner store has the header.
    pub fn answered(self, reply: Result<bool>) -> (r: MetaStep)
        ensures
            r.realizes(after_meta_header(self.key@, self.rest@, reply)),
    {
        match reply {
            Ok(true) => MetaStep::FetchMeta {
                key: self.key.clone(),
                then: AwaitMeta { key: self.key, rest: self.rest },
            },
            _ => self.rest.next(),
        }
    }
}

impl AwaitMeta {
    /// Go on with the metadata that the inner store gave.
    pub fn fetched(self, reply: Result<BlobMeta>) -> (r: MetaStep)
        ensures
            r.realizes(after_meta(self.key@, self.rest@, types::meta_result_view(reply))),
    {
        match reply {
            Ok(meta) => {
                let ghost before = self.rest@;
                let ghost entry = meta@.with_key(self.key@);
                let mut metas = self.rest.metas;
                metas.push(meta.with_key(self.key));
                let rest = MetaRest {
                    suffix: self.rest.suffix,
                    pending: self.rest.pending,
                    metas,
                };
                assert(rest@ =~= (MetaRestView { metas: before.metas.push(entry), ..before }));
                rest.next()
            },
            Err(BlobStorageError::NotFound(_)) => self.rest.next(),
            Err(e) => MetaStep::Done(Err(e)),
        }
    }
}

/// Whether a visited key of the inner store is shown to the caller's visitor.
pub open spec fn is_shown<F: ListFilter + ?Sized>(
    suffix: Seq<char>,
    filter: &F,
    key: Seq<char>,
    meta: Option<BlobMetaView>,
    header_exists: bool,
) -> bool {
    !encrypt::is_header_key(suffix, key) && header_exists && filter.accepts(key, meta)
}

impl<S, E> EncryptedBlobStore<S, E> {
    /// Begin a listing with metadata, with what the inner store returned for the
    /// listing of all its keys.
    pub fn list_with_metadata<F: ListFilter + ?Sized>(
        &self,
        filter: &F,
        all: Result<Vec<String>>,
    ) -> (r: MetaStep)
        ensures
            match all {
                Err(e) => r == MetaStep::Done(Err(e)),
                Ok(keys) => r.realizes(
                    next_meta(
                        MetaRestView {
                            suffix: self.header_suffix@,
                            pending: candidates(self.header_suffix@, filter, keys.deep_view()),
                            metas: seq![],
                        },
                    ),
                ),
            },
    {
        match all {
            Err(e) => MetaStep::Done(Err(e)),
            Ok(keys) => {
                let rest = MetaRest {
                    suffix: self.header_suffix.clone(),
                    pending: candidate_queue(self.header_suffix.as_str(), filter, keys),
                    metas: Vec::new(),
                };
                assert(rest@ =~= (MetaRestView {
                    suffix: self.header_suffix@,
                    pending: candidates(self.header_suffix@, filter, keys.deep_view()),
                    metas: seq![],
                }));
                rest.next()
            },
        }
    }

    /// The header to check before a visited key of the inner store is shown;
    /// `None` for a header itself, which is never shown.
    pub fn visit_header_key(&self, key: &str) -> (r: Option<String>)
        ensures
            r is None <==> encrypt::is_header_key(self.header_suffix@, key@),
            r matches Some(h) ==> h@ == encrypt::header_key_of(self.header_suffix@, key@),
    {
        if text::ends_with(key, self.header_suffix.as_str()) {
            None
        } else {
            Some(self.header_key(key))
        }
    }

    /// Whether a visited key of the inner store is shown, once it is known
    /// whether it has a header.
    pub fn shows<F: ListFilter + ?Sized>(
        &self,
        filter: &F,
        key: &str,
        meta: Option<&BlobMeta>,
        header_exists: bool,
    ) -> (r: bool)
        ensures
            r == is_shown(
                self.header_suffix@,
                filter,
                key@,
                types::meta_view(meta),
                header_exists,
            ),
    {
        !text::ends_with(key, self.header_suffix.as_str()) && header_exists && filter.matches(
            key,
            meta,
        )
    }
}

} // verus!
