//! Collecting what a listing finds, and putting it in order.

use vstd::prelude::*;

use crate::order;
use crate::types::BlobMeta;
use crate::types::BlobMetaView;

verus! {

/// The keys found by a listing.
pub struct KeyListing {
    keys: Vec<String>,
}

impl KeyListing {
    /// The keys found so far, in the order in which they were found.
    pub closed spec fn found(&self) -> Seq<Seq<char>> {
        self.keys.deep_view()
    }

    /// A listing that has found nothing.
    pub fn new() -> (r: Self)
        ensures
            r.found() == Seq::<Seq<char>>::empty(),
    {
        let r = KeyListing { keys: Vec::new() };
        assert(r.found() =~= Seq::<Seq<char>>::empty());
        r
    }

    /// Note a key that was found.
    pub fn push(&mut self, key: String)
        ensures
            final(self).found() == old(self).found().push(key@),
    {
        let ghost before = self.found();
        self.keys.push(key);
        assert(self.found() =~= before.push(key@));
    }

    /// The listing: the keys that were found, in ascending order.
    pub fn finish(self) -> (r: Vec<String>)
        ensures
            order::is_sort_of(r.deep_view(), self.found()),
    {
        let mut keys = self.keys;
        order::sort_keys(&mut keys);
        keys
    }
}

/// The metadata found by a listing.
pub struct MetaListing {
    metas: Vec<BlobMeta>,
}

impl MetaListing {
    /// The metadata found so far, in the order in which it was found.
    pub closed spec fn found(&self) -> Seq<BlobMetaView> {
        self.metas.deep_view()
    }

    /// A listing that has found nothing.
    pub fn new() -> (r: Self)
        ensures
            r.found() == Seq::<BlobMetaView>::empty(),
    {
        let r = MetaListing { metas: Vec::new() };
        assert(r.found() =~= Seq::<BlobMetaView>::empty());
        r
    }

    /// Note metadata that was found.
    pub fn push(&mut self, meta: BlobMeta)
        ensures
            final(self).found() == old(self).found().push(meta@),
    {
        let ghost before = self.found();
        self.metas.push(meta);
        assert(self.found() =~= before.push(meta@));
    }

    /// The listing: the metadata that was found, with ascending keys.
    pub fn finish(self) -> (r: Vec<BlobMeta>)
        ensures
            order::is_meta_sort_of(r.deep_view(), self.found()),
    {
        let mut metas = self.metas;
        order::sort_metas(&mut metas);
        metas
    }
}

} // verus!
