//! Filters that select blobs in listings.

use vstd::prelude::*;

use crate::text::ends_with;
use crate::text::starts_with;
use crate::types;
use crate::types::BlobMeta;
use crate::types::BlobMetaView;

verus! {

/// The view of an optional hint.
pub open spec fn hint_view(hint: Option<&str>) -> Option<Seq<char>> {
    match hint {
        Some(h) => Some(h@),
        None => None,
    }
}

/// Selects blobs by key and, where it is at hand, by metadata.
pub trait ListFilter: Send + Sync {
    /// Whether the filter selects a blob. A filter of which proofs are to speak says so here; one
    /// that is written outside of `verus!` leaves this out.
    open spec fn accepts(&self, key: Seq<char>, meta: Option<BlobMetaView>) -> bool {
        arbitrary()
    }

    /// The key prefix to which a backend may narrow its search. As with `accepts`, a
    /// filter that is written outside of `verus!` leaves this out.
    open spec fn hint(&self) -> Option<Seq<char>> {
        arbitrary()
    }

    /// Whether the blob is to be listed.
    fn matches(&self, key: &str, meta: Option<&BlobMeta>) -> (r: bool)
        ensures
            r == self.accepts(key@, types::meta_view(meta)),
    ;

    /// The key prefix to which a backend may narrow its search.
    fn prefix_hint(&self) -> (r: Option<&str>)
        ensures
            hint_view(r) == self.hint(),
    ;
}

/// A filter whose hint leaves nothing out that the filter selects.
pub open spec fn hint_sound<F: ListFilter + ?Sized>(filter: &F) -> bool {
    filter.hint() matches Some(h) ==> forall|key: Seq<char>, meta: Option<BlobMetaView>| #[trigger]
        filter.accepts(key, meta) ==> h.is_prefix_of(key)
}

/// Selects the keys that end with a suffix.
#[derive(Debug, Clone)]
pub struct SuffixFilter {
    pub suffix: String,
}

impl SuffixFilter {
    /// A filter for the given suffix.
    pub fn new(suffix: &str) -> (r: Self)
        ensures
            r.suffix@ == suffix@,
    {
        SuffixFilter { suffix: suffix.to_owned() }
    }
}

impl ListFilter for SuffixFilter {
    open spec fn accepts(&self, key: Seq<char>, meta: Option<BlobMetaView>) -> bool {
        self.suffix@.is_suffix_of(key)
    }

    open spec fn hint(&self) -> Option<Seq<char>> {
        None
    }

    fn matches(&self, key: &str, meta: Option<&BlobMeta>) -> (r: bool) {
        ends_with(key, self.suffix.as_str())
    }

    fn prefix_hint(&self) -> (r: Option<&str>) {
        None
    }
}

/// Selects the keys that start with a prefix, and hints at that prefix.
#[derive(Debug, Clone)]
pub struct PrefixFilter {
    pub prefix: String,
}

impl PrefixFilter {
    /// A filter for the given prefix.
    pub fn new(prefix: &str) -> (r: Self)
        ensures
            r.prefix@ == prefix@,
    {
        PrefixFilter { prefix: prefix.to_owned() }
    }
}

impl ListFilter for PrefixFilter {
    open spec fn accepts(&self, key: Seq<char>, meta: Option<BlobMetaView>) -> bool {
        self.prefix@.is_prefix_of(key)
    }

    open spec fn hint(&self) -> Option<Seq<char>> {
        Some(self.prefix@)
    }

    fn matches(&self, key: &str, meta: Option<&BlobMeta>) -> (r: bool) {
        starts_with(key, self.prefix.as_str())
    }

    fn prefix_hint(&self) -> (r: Option<&str>) {
        Some(self.prefix.as_str())
    }
}

/// A boxed filter selects what its contents select.
impl<F: ListFilter + ?Sized> ListFilter for Box<F> {
    open spec fn accepts(&self, key: Seq<char>, meta: Option<BlobMetaView>) -> bool {
        (**self).accepts(key, meta)
    }

    open spec fn hint(&self) -> Option<Seq<char>> {
        (**self).hint()
    }

    fn matches(&self, key: &str, meta: Option<&BlobMeta>) -> (r: bool) {
        (**self).matches(key, meta)
    }

    fn prefix_hint(&self) -> (r: Option<&str>) {
        (**self).prefix_hint()
    }
}

/// Selects what another filter does not select.
pub struct NotFilter<F> {
    pub inner: F,
}

impl<F: ListFilter> NotFilter<F> {
    /// The negation of a filter.
    pub fn new(inner: F) -> (r: Self)
        ensures
            r.inner == inner,
    {
        NotFilter { inner }
    }
}

impl<F: ListFilter> ListFilter for NotFilter<F> {
    open spec fn accepts(&self, key: Seq<char>, meta: Option<BlobMetaView>) -> bool {
        !self.inner.accepts(key, meta)
    }

    open spec fn hint(&self) -> Option<Seq<char>> {
        None
    }

    fn matches(&self, key: &str, meta: Option<&BlobMeta>) -> (r: bool) {
        !self.inner.matches(key, meta)
    }

    fn prefix_hint(&self) -> (r: Option<&str>) {
        None
    }
}

impl dyn ListFilter {
    /// Selects the keys that do not end with the suffix.
    pub fn exclude_suffix(suffix: &str) -> (r: NotFilter<SuffixFilter>)
        ensures
            r.inner.suffix@ == suffix@,
            forall|key: Seq<char>, meta: Option<BlobMetaView>| #[trigger]
                r.accepts(key, meta) == !suffix@.is_suffix_of(key),
    {
        NotFilter::new(SuffixFilter::new(suffix))
    }
}

/// A negated filter selects exactly what the filter does not, whatever the
/// filter hints at, and negating twice selects what the filter selects.
pub proof fn law_not_filter_negates<F: ListFilter>(
    filter: NotFilter<F>,
    twice: NotFilter<NotFilter<F>>,
    key: Seq<char>,
    meta: Option<BlobMetaView>,
)
    requires
        twice.inner == filter,
    ensures
        filter.accepts(key, meta) == !filter.inner.accepts(key, meta),
        twice.accepts(key, meta) == filter.inner.accepts(key, meta),
        filter.hint() is None,
{
}

/// The filters that come with the library hint at nothing that they would leave
/// out: a backend that searches only below the hint finds all they select.
pub proof fn law_builtin_hints_sound<F: ListFilter>(
    suffix: SuffixFilter,
    prefix: PrefixFilter,
    not: NotFilter<F>,
)
    ensures
        hint_sound(&suffix),
        hint_sound(&prefix),
        hint_sound(&not),
{
}

/// The filters select by the characters of the key alone: a key with the suffix is some
/// text followed by it, a key with the prefix is the prefix followed by some text. Only
/// the filter for a prefix has a hint. A boxed filter is as good as the filter.
pub proof fn law_filters_select_by_the_key<F: ListFilter>(
    suffix: SuffixFilter,
    prefix: PrefixFilter,
    boxed: Box<F>,
    key: Seq<char>,
    meta: Option<BlobMetaView>,
)
    ensures
        suffix.accepts(key, meta) <==> exists|head: Seq<char>| key == head + suffix.suffix@,
        prefix.accepts(key, meta) <==> exists|tail: Seq<char>| key == prefix.prefix@ + tail,
        suffix.hint() is None,
        prefix.hint() == Some(prefix.prefix@),
        boxed.accepts(key, meta) == (*boxed).accepts(key, meta),
        boxed.hint() == (*boxed).hint(),
{
    let s = suffix.suffix@;
    let p = prefix.prefix@;
    if suffix.accepts(key, meta) {
        assert(key =~= key.take(key.len() - s.len()) + s);
    }
    if exists|head: Seq<char>| key == head + s {
        let head = choose|head: Seq<char>| key == head + s;
        assert((head + s).skip(head.len() as int) =~= s);
    }
    if prefix.accepts(key, meta) {
        assert(key =~= p + key.skip(p.len() as int));
    }
    if exists|tail: Seq<char>| key == p + tail {
        let tail = choose|tail: Seq<char>| key == p + tail;
        assert((p + tail).take(p.len() as int) =~= p);
    }
}

/// A hint is taken as it is.
pub proof fn law_hint_view_is_faithful(hint: Option<&str>)
    ensures
        hint is None <==> hint_view(hint) is None,
        hint matches Some(h) ==> hint_view(hint) == Some(h@),
{
}

} // verus!
