//! Listing and visiting the objects of a bucket, page by page.

use vstd::prelude::*;

use crate::error::BlobStorageError;
use crate::list_filter::ListFilter;
use crate::s3;
use crate::s3::meta_of_object;
use crate::s3::request_error;
use crate::s3::S3BlobStore;
use crate::s3::S3Failure;
use crate::s3::S3Object;
use crate::types;
use crate::types::BlobMeta;
use crate::types::BlobMetaView;

verus! {

/// A page of objects, and the token for the next page.
pub struct Page {
    pub objects: Vec<S3Object>,
    pub next_token: Option<String>,
}

/// The request for a page.
pub struct PageRequest {
    pub bucket: String,
    /// The key prefix to which the service narrows the listing.
    pub prefix: Option<String>,
    /// The token of the page before; `None` for the first page.
    pub token: Option<String>,
}

/// The mathematical value of a [`PageRequest`].
pub struct PageRequestView {
    pub bucket: Seq<char>,
    pub prefix: Option<Seq<char>>,
    pub token: Option<Seq<char>>,
}

impl View for PageRequest {
    type V = PageRequestView;

    open spec fn view(&self) -> PageRequestView {
        PageRequestView {
            bucket: self.bucket@,
            prefix: types::text_view(self.prefix),
            token: types::text_view(self.token),
        }
    }
}

/// The view of an optional request.
pub open spec fn request_view(request: Option<PageRequest>) -> Option<PageRequestView> {
    match request {
        Some(r) => Some(r@),
        None => None,
    }
}

/// What a page comes to.
pub enum PageStep {
    /// The objects of the page that the filter selects, and the request for the
    /// next page, if there is one.
    Page { metas: Vec<BlobMeta>, next: Option<PageRequest> },
    /// The listing failed.
    Failed(BlobStorageError),
}

/// The metadata of an object, where it has a key that the filter selects.
pub open spec fn selected<F: ListFilter + ?Sized>(filter: &F, object: S3Object) -> Option<
    BlobMetaView,
> {
    match object.key {
        Some(key) => if filter.accepts(key@, None) {
            Some(s3::object_meta(key@, object))
        } else {
            None
        },
        None => None,
    }
}

/// The prefix of a request, from the hint of a filter: an empty hint narrows
/// nothing.
pub open spec fn request_prefix(hint: Option<Seq<char>>) -> Option<Seq<char>> {
    match hint {
        Some(h) => if h.len() > 0 {
            Some(h)
        } else {
            None
        },
        None => None,
    }
}

/// The objects of a page that a filter selects.
pub open spec fn selection<F: ListFilter + ?Sized>(
    filter: &F,
    objects: Seq<S3Object>,
) -> Seq<BlobMetaView> {
    objects.filter_map(|o: S3Object| selected(filter, o))
}

/// The request for the page after one with the given token.
pub open spec fn next_request(
    request: PageRequestView,
    token: Option<Seq<char>>,
) -> Option<PageRequestView> {
    match token {
        Some(t) => Some(PageRequestView { token: Some(t), ..request }),
        None => None,
    }
}

impl PageRequest {
    /// Go on with the page that the service gave.
    pub fn page<F: ListFilter + ?Sized>(
        self,
        filter: &F,
        reply: core::result::Result<Page, S3Failure>,
    ) -> (r: PageStep)
        ensures
            match reply {
                Err(failure) => r matches PageStep::Failed(e) && e@ == s3::request_failed(
                    self@.bucket,
                    failure,
                    "S3 list failed"@,
                ),
                Ok(page) => r matches PageStep::Page { metas, next } && {
                    &&& metas.deep_view() == selection(filter, page.objects@)
                    &&& request_view(next) == next_request(
                        self@,
                        types::text_view(page.next_token),
                    )
                },
            },
    {
        let page = match reply {
            Err(failure) => {
                return PageStep::Failed(
                    request_error(self.bucket.as_str(), failure, "S3 list failed".to_owned()),
                );
            },
            Ok(page) => page,
        };
        let ghost all = page.objects@;
        let ghost pick = |o: S3Object| selected(filter, o);
        let mut metas: Vec<BlobMeta> = Vec::new();
        for object in it: page.objects
            invariant
                it.seq() == all,
                pick == (|o: S3Object| selected(filter, o)),
                metas.deep_view() == all.take(it.index()).filter_map(pick),
        {
            let ghost before = metas.deep_view();
            let ghost i = it.index();
            proof {
                all.lemma_filter_map_take_succ(pick, i);
                assert(all[i] == object);
            }
            let ghost whole = object;
            let wanted = match &object.key {
                Some(key) => filter.matches(key.as_str(), None),
                None => false,
            };
            if wanted {
                let mut object = object;
                let mut key: Option<String> = None;
                std::mem::swap(&mut key, &mut object.key);
                if let Some(k) = key {
                    let meta = meta_of_object(k, object);
                    assert(meta@ == s3::object_meta(k@, whole));
                    metas.push(meta);
                    assert(metas.deep_view() =~= before.push(meta@));
                }
            }
            assert(metas.deep_view() =~= all.take(i + 1).filter_map(pick));
        }
        assert(all.take(all.len() as int) =~= all);
        let next = match page.next_token {
            Some(token) => Some(
                PageRequest { bucket: self.bucket, prefix: self.prefix, token: Some(token) },
            ),
            None => None,
        };
        PageStep::Page { metas, next }
    }
}

impl<C> S3BlobStore<C> {
    /// The request for the first page of a listing or visit.
    pub fn first_page<F: ListFilter + ?Sized>(&self, filter: &F) -> (r: PageRequest)
        ensures
            r@ == (PageRequestView {
                bucket: self.bucket(),
                prefix: request_prefix(filter.hint()),
                token: None,
            }),
    {
        let prefix = match filter.prefix_hint() {
            Some(hint) => if hint.is_empty() {
                None
            } else {
                Some(hint.to_owned())
            },
            None => None,
        };
        PageRequest { bucket: self.bucket_name().to_owned(), prefix, token: None }
    }
}

} // verus!
