//! Transparent encryption on top of another store.
//!
//! Every blob is stored as two blobs of the inner store: the encrypted data
//! under the blob's own key, and the encryption header under that key extended
//! by a reserved suffix. A blob exists where both do. Callers see the data keys
//! only: keys that end with the suffix are refused, and headers never show up in
//! listings, visits and results, nor in the not-found error of a retrieval, nor
//! in the keys of the batch error of a put or a delete. Every other error of the
//! inner store passes unchanged; its text may quote a header's key.

pub mod failure_laws;
pub mod get;
pub mod laws;
pub mod listing;
pub mod put;
pub mod rekey;

use vstd::prelude::*;

use crate::error;
use crate::error::BatchError;
use crate::error::BatchErrorView;
use crate::error::BlobStorageError;
use crate::error::EncryptionError;
use crate::error::ErrorView;
use crate::error::KeyError;
use crate::error::KeyErrorView;
use crate::error::Result;
use crate::list_filter::SuffixFilter;
use crate::text;
use crate::validate;
use crate::validate::validate_blob_key;
use crate::validate::validate_blob_keys;

verus! {

/// The suffix of header keys unless another one is chosen.
pub const DEFAULT_HEADER_SUFFIX: &'static str = ".enc-header";

/// An encrypting layer over the store `S`, with the encryption provider `E`.
pub struct EncryptedBlobStore<S, E> {
    pub inner: S,
    pub encryption: E,
    pub header_suffix: String,
}

/// The key under which the header of a blob is stored.
pub open spec fn header_key_of(suffix: Seq<char>, key: Seq<char>) -> Seq<char> {
    key + suffix
}

/// Whether a key is reserved for headers.
pub open spec fn is_header_key(suffix: Seq<char>, key: Seq<char>) -> bool {
    suffix.is_suffix_of(key)
}

/// The error that refuses a key that is reserved for headers.
pub open spec fn collision(suffix: Seq<char>, key: Seq<char>) -> ErrorView {
    ErrorView::InvalidInput(
        "blob key must not end with reserved header suffix '"@ + suffix + "': '"@ + key + "'"@,
    )
}

/// The first refusal among several keys, in order; `Ok` when none is reserved.
pub open spec fn no_collisions(suffix: Seq<char>, keys: Seq<Seq<char>>) -> core::result::Result<
    (),
    ErrorView,
>
    decreases keys.len(),
{
    if keys.len() == 0 {
        Ok(())
    } else if is_header_key(suffix, keys[0]) {
        Err(collision(suffix, keys[0]))
    } else {
        no_collisions(suffix, keys.skip(1))
    }
}

/// Whether a key names a blob that can be asked for: one that is neither reserved
/// nor invalid.
pub open spec fn key_check(suffix: Seq<char>, key: Seq<char>) -> core::result::Result<
    (),
    ErrorView,
> {
    if is_header_key(suffix, key) {
        Err(collision(suffix, key))
    } else {
        validate::validation(key)
    }
}

/// Whether keys name blobs that can be deleted. The first reserved key decides, and
/// the first invalid one where none is reserved.
pub open spec fn keys_check(suffix: Seq<char>, keys: Seq<Seq<char>>) -> core::result::Result<
    (),
    ErrorView,
> {
    match no_collisions(suffix, keys) {
        Ok(()) => validate::validation_of_all(keys),
        Err(e) => Err(e),
    }
}

/// Each key followed by its header key.
pub open spec fn with_headers(suffix: Seq<char>, keys: Seq<Seq<char>>) -> Seq<Seq<char>>
    decreases keys.len(),
{
    if keys.len() == 0 {
        seq![]
    } else {
        with_headers(suffix, keys.drop_last()).push(keys.last()).push(
            header_key_of(suffix, keys.last()),
        )
    }
}

/// The part of a batch error that speaks of the given keys.
pub open spec fn batch_of(keys: Seq<Seq<char>>, batch: BatchErrorView) -> BatchErrorView {
    BatchErrorView {
        succeeded: batch.succeeded.filter(|k: Seq<char>| keys.contains(k)),
        errors: batch.errors.filter(|e: KeyErrorView| keys.contains(e.key)),
    }
}

/// What deleting `keys` returns when deleting them and their headers from the
/// inner store returned `reply`.
pub open spec fn delete_outcome(
    keys: Seq<Seq<char>>,
    reply: core::result::Result<(), ErrorView>,
) -> core::result::Result<(), ErrorView> {
    match reply {
        Err(ErrorView::Batch(batch)) => if batch_of(keys, batch).errors.len() == 0 {
            Ok(())
        } else {
            Err(ErrorView::Batch(batch_of(keys, batch)))
        },
        _ => reply,
    }
}

/// The error of a blob whose encryption failed.
pub open spec fn encryption_failed(key: Seq<char>, cause: EncryptionError) -> ErrorView {
    ErrorView::Encryption {
        message: "encryption failed for key '"@ + key + "'"@,
        source: Some(seq![cause.text()] + cause.causes()),
    }
}

/// The error of a blob whose encryption never reported a result.
pub open spec fn encryption_unfinished(key: Seq<char>) -> ErrorView {
    ErrorView::Encryption {
        message: "encryption task did not complete for key '"@ + key + "'"@,
        source: None,
    }
}

/// The error of a blob whose decryption failed.
pub open spec fn decryption_failed(key: Seq<char>, cause: EncryptionError) -> ErrorView {
    ErrorView::Encryption {
        message: "decryption failed for key '"@ + key + "'"@,
        source: Some(seq![cause.text()] + cause.causes()),
    }
}

/// An encryption error about a key, with its cause.
pub(crate) fn encryption_error(
    before: &str,
    key: &str,
    cause: Option<EncryptionError>,
) -> (r: BlobStorageError)
    ensures
        r@ == (ErrorView::Encryption {
            message: before@ + key@ + "'"@,
            source: match cause {
                Some(c) => Some(seq![c.text()] + c.causes()),
                None => None,
            },
        }),
{
    let source = match cause {
        Some(c) => Some(c.into_source()),
        None => None,
    };
    BlobStorageError::Encryption { message: text::concat3(before, key, "'"), source }
}

/// Whether a vector of keys holds the given one.
fn holds_key(keys: &Vec<String>, key: &str) -> (r: bool)
    ensures
        r == keys.deep_view().contains(key@),
{
    let mut i: usize = 0;
    while i < keys.len()
        invariant
            i <= keys.len(),
            forall|j: int| 0 <= j < i ==> keys.deep_view()[j] != key@,
        decreases keys.len() - i,
    {
        if text::str_eq(keys[i].as_str(), key) {
            assert(keys.deep_view()[i as int] == key@);
            return true;
        }
        i = i + 1;
    }
    false
}

/// The part of a batch error that speaks of the given keys.
fn restrict_batch(keys: &Vec<String>, batch: BatchError) -> (r: BatchError)
    ensures
        r@ == batch_of(keys.deep_view(), batch@),
{
    let ghost named = keys.deep_view();
    let ghost by_key = |k: Seq<char>| named.contains(k);
    let ghost by_error = |e: KeyErrorView| named.contains(e.key);
    let mut succeeded: Vec<String> = Vec::new();
    let mut errors: Vec<KeyError> = Vec::new();
    let ghost all = batch.succeeded.deep_view();
    assert(succeeded.deep_view() =~= all.take(0).filter(by_key)) by {
        reveal(Seq::filter);
    }
    for key in it: batch.succeeded
        invariant
            it.seq() == batch.succeeded@,
            all == batch.succeeded.deep_view(),
            named == keys.deep_view(),
            by_key == (|k: Seq<char>| named.contains(k)),
            succeeded.deep_view() == all.take(it.index()).filter(by_key),
    {
        let ghost before = succeeded.deep_view();
        let ghost i = it.index();
        proof {
            assert(all.take(i + 1).drop_last() =~= all.take(i));
            reveal(Seq::filter);
        }
        if holds_key(keys, key.as_str()) {
            succeeded.push(key);
            assert(succeeded.deep_view() =~= before.push(key@));
        }
    }
    assert(all.take(all.len() as int) =~= all);
    let ghost failed = batch.errors.deep_view();
    assert(errors.deep_view() =~= failed.take(0).filter(by_error)) by {
        reveal(Seq::filter);
    }
    for error in it: batch.errors
        invariant
            it.seq() == batch.errors@,
            failed == batch.errors.deep_view(),
            named == keys.deep_view(),
            by_error == (|e: KeyErrorView| named.contains(e.key)),
            errors.deep_view() == failed.take(it.index()).filter(by_error),
    {
        let ghost before = errors.deep_view();
        let ghost i = it.index();
        proof {
            assert(failed.take(i + 1).drop_last() =~= failed.take(i));
            reveal(Seq::filter);
        }
        if holds_key(keys, error.key.as_str()) {
            errors.push(error);
            assert(errors.deep_view() =~= before.push(error@));
        }
    }
    assert(failed.take(failed.len() as int) =~= failed);
    BatchError { succeeded, errors }
}

impl<S, E> EncryptedBlobStore<S, E> {
    /// An encrypting layer with the default header suffix.
    pub fn new(inner: S, encryption: E) -> (r: Self)
        ensures
            r.inner == inner,
            r.encryption == encryption,
            r.header_suffix@ == DEFAULT_HEADER_SUFFIX@,
    {
        EncryptedBlobStore {
            inner,
            encryption,
            header_suffix: DEFAULT_HEADER_SUFFIX.to_owned(),
        }
    }

    /// An encrypting layer with a header suffix of one's own.
    pub fn with_suffix(inner: S, encryption: E, header_suffix: &str) -> (r: Self)
        ensures
            r.inner == inner,
            r.encryption == encryption,
            r.header_suffix@ == header_suffix@,
    {
        EncryptedBlobStore { inner, encryption, header_suffix: header_suffix.to_owned() }
    }

    /// The key under which the header of a blob is stored.
    pub fn header_key(&self, key: &str) -> (r: String)
        ensures
            r@ == header_key_of(self.header_suffix@, key@),
    {
        text::concat(key, self.header_suffix.as_str())
    }

    /// Refuse a key that is reserved for headers.
    pub fn validate_key_no_header_collision(&self, key: &str) -> (r: Result<()>)
        ensures
            error::result_view(r) == if is_header_key(self.header_suffix@, key@) {
                Err(collision(self.header_suffix@, key@))
            } else {
                Ok(())
            },
    {
        if text::ends_with(key, self.header_suffix.as_str()) {
            Err(collision_error(self.header_suffix.as_str(), key))
        } else {
            Ok(())
        }
    }

    /// Refuse a key that is reserved for headers, or invalid.
    pub(crate) fn check_key(&self, key: &str) -> (r: Result<()>)
        ensures
            error::result_view(r) == key_check(self.header_suffix@, key@),
    {
        match self.validate_key_no_header_collision(key) {
            Ok(()) => validate_blob_key(key),
            Err(e) => Err(e),
        }
    }

    /// The filter with which to list or visit the inner store: it selects every
    /// key.
    pub fn inner_filter(&self) -> (r: SuffixFilter)
        ensures
            r.suffix@ == ""@,
    {
        SuffixFilter::new("")
    }

    /// The keys to delete from the inner store in order to delete the given
    /// blobs: each key and its header key. Reserved and invalid keys are refused.
    pub fn delete_request(&self, keys: &Vec<String>) -> (r: Result<Vec<String>>)
        ensures
            match r {
                Ok(all) => {
                    &&& keys_check(self.header_suffix@, keys.deep_view()) is Ok
                    &&& all.deep_view() == with_headers(self.header_suffix@, keys.deep_view())
                },
                Err(e) => keys_check(self.header_suffix@, keys.deep_view()) == Err::<
                    (),
                    ErrorView,
                >(e@),
            },
    {
        let ghost named = keys.deep_view();
        let ghost suffix = self.header_suffix@;
        let mut i: usize = 0;
        assert(named.skip(0) =~= named);
        while i < keys.len()
            invariant
                i <= keys.len(),
                named == keys.deep_view(),
                suffix == self.header_suffix@,
                no_collisions(suffix, named.skip(i as int)) == no_collisions(suffix, named),
            decreases keys.len() - i,
        {
            assert(named.skip(i as int)[0] == keys[i as int]@);
            assert(named.skip(i as int).skip(1) =~= named.skip(i + 1));
            match self.validate_key_no_header_collision(keys[i].as_str()) {
                Ok(()) => {},
                Err(e) => {
                    return Err(e);
                },
            }
            i = i + 1;
        }
        match validate_blob_keys(keys) {
            Ok(()) => {},
            Err(e) => {
                return Err(e);
            },
        }
        let mut all: Vec<String> = Vec::new();
        i = 0;
        assert(all.deep_view() =~= with_headers(suffix, named.take(0)));
        while i < keys.len()
            invariant
                i <= keys.len(),
                named == keys.deep_view(),
                suffix == self.header_suffix@,
                all.deep_view() == with_headers(suffix, named.take(i as int)),
            decreases keys.len() - i,
        {
            let ghost before = all.deep_view();
            assert(named.take(i + 1).drop_last() =~= named.take(i as int));
            let header = self.header_key(keys[i].as_str());
            all.push(keys[i].clone());
            all.push(header);
            assert(all.deep_view() =~= before.push(keys[i as int]@).push(header@));
            i = i + 1;
        }
        assert(named.take(named.len() as int) =~= named);
        Ok(all)
    }

    /// What deleting the given blobs returns, from what deleting them and their
    /// headers from the inner store returned. A batch error is reduced to the
    /// given keys; where only headers failed, the caller sees success.
    pub fn delete_response(&self, keys: &Vec<String>, reply: Result<()>) -> (r: Result<()>)
        ensures
            error::result_view(r) == delete_outcome(keys.deep_view(), error::result_view(reply)),
    {
        match reply {
            Err(BlobStorageError::Batch(batch)) => {
                let own = restrict_batch(keys, batch);
                if own.errors.len() == 0 {
                    Ok(())
                } else {
                    Err(BlobStorageError::Batch(own))
                }
            },
            other => other,
        }
    }
}

/// The error that refuses a key that is reserved for headers.
pub(crate) fn collision_error(suffix: &str, key: &str) -> (r: BlobStorageError)
    ensures
        r@ == collision(suffix@, key@),
{
    let mut message: String = "blob key must not end with reserved header suffix '".to_owned();
    message.append(suffix);
    message.append("': '");
    message.append(key);
    message.append("'");
    BlobStorageError::InvalidInput(message)
}

} // verus!
