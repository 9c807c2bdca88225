//! Storing encrypted blobs, step by step.
//!
//! All keys are validated before anything is stored. Then, for each blob in turn,
//! the encrypted data is stored first and the header second. Each step says what
//! to do next and carries what to resume with.

use std::collections::VecDeque;
use vstd::prelude::*;

use crate::batch;
use crate::encrypt;
use crate::encrypt::EncryptedBlobStore;
use crate::error::BlobStorageError;
use crate::error::EncryptionResult;
use crate::error::ErrorView;
use crate::error::Result;
use crate::order;
use crate::text;
use crate::types;
use crate::types::BlobInput;
use crate::types::BlobInputView;
use crate::types::BlobMeta;
use crate::types::BlobMetaView;
use crate::types::PutResult;
use crate::validate;

verus! {

/// What is left to store, and what has been stored.
pub struct PutRest<D> {
    suffix: String,
    pending: VecDeque<BlobInput<D>>,
    metas: Vec<BlobMeta>,
}

/// The mathematical value of a [`PutRest`].
#[verifier::ext_equal]
pub struct PutRestView<D> {
    pub suffix: Seq<char>,
    pub pending: Seq<BlobInputView<D>>,
    pub metas: Seq<BlobMetaView>,
}

impl<D> View for PutRest<D> {
    type V = PutRestView<D>;

    closed spec fn view(&self) -> PutRestView<D> {
        PutRestView {
            suffix: self.suffix@,
            pending: self.pending.deep_view(),
            metas: self.metas.deep_view(),
        }
    }
}

/// Resumes a put once the inner store has taken the data of a blob.
pub struct AwaitData<D> {
    pub key: String,
    pub rest: PutRest<D>,
}

/// Resumes a put once the inner store has taken the header of a blob.
pub struct AwaitHeader<D> {
    pub key: String,
    /// What the inner store returned for the data.
    pub stored: PutResult,
    pub rest: PutRest<D>,
}

/// Resumes a put once the data of a failed blob has been taken back.
pub struct AwaitRollback {
    pub error: BlobStorageError,
}

/// The next step of a put.
#[allow(inconsistent_fields)]
pub enum PutStep<D> {
    /// Encrypt the data of `input` and store the ciphertext under its key in the
    /// inner store; the size is a hint only.
    StoreData { input: BlobInput<D>, then: AwaitData<D> },
    /// Store a header in the inner store.
    StoreHeader { input: BlobInput<Vec<u8>>, then: AwaitHeader<D> },
    /// Delete the data of a failed blob from the inner store; whether that
    /// succeeds does not matter.
    RollBack { key: String, then: AwaitRollback },
    /// The put is over.
    Done(Result<PutResult>),
}

/// The mathematical value of a [`PutStep`].
#[verifier::ext_equal]
pub enum PutStepView<D> {
    StoreData { input: BlobInputView<D>, key: Seq<char>, rest: PutRestView<D> },
    StoreHeader {
        header_key: Seq<char>,
        header: Seq<u8>,
        size_hint: Option<u64>,
        key: Seq<char>,
        stored: Seq<BlobMetaView>,
        rest: PutRestView<D>,
    },
    RollBack { key: Seq<char>, error: ErrorView },
    Done(core::result::Result<Seq<BlobMetaView>, ErrorView>),
}

impl<D> View for PutStep<D> {
    type V = PutStepView<D>;

    open spec fn view(&self) -> PutStepView<D> {
        match self {
            PutStep::StoreData { input, then } => PutStepView::StoreData {
                input: input@,
                key: then.key@,
                rest: then.rest@,
            },
            PutStep::StoreHeader { input, then } => PutStepView::StoreHeader {
                header_key: input.key@,
                header: input.data@,
                size_hint: input.size_hint,
                key: then.key@,
                stored: then.stored@,
                rest: then.rest@,
            },
            PutStep::RollBack { key, then } => PutStepView::RollBack {
                key: key@,
                error: then.error@,
            },
            PutStep::Done(r) => PutStepView::Done(types::put_result_view(*r)),
        }
    }
}

/// What is done next when no blob is under way.
pub open spec fn next_blob<D>(rest: PutRestView<D>) -> PutStepView<D> {
    if rest.pending.len() == 0 {
        PutStepView::Done(Ok(rest.metas))
    } else {
        let blob = rest.pending[0];
        if encrypt::is_header_key(rest.suffix, blob.key) {
            PutStepView::Done(Err(encrypt::collision(rest.suffix, blob.key)))
        } else {
            PutStepView::StoreData {
                input: BlobInputView {
                    size_hint: match blob.size_hint {
                        Some(n) => Some(n),
                        None => Some(0),
                    },
                    ..blob
                },
                key: blob.key,
                rest: PutRestView { pending: rest.pending.skip(1), ..rest },
            }
        }
    }
}

/// The first step of a put. An invalid key refuses it before anything is stored.
pub open spec fn begin<D>(suffix: Seq<char>, blobs: Seq<BlobInputView<D>>) -> PutStepView<D> {
    match validate::validation_of_all(validate::blob_keys(blobs)) {
        Err(e) => PutStepView::Done(Err(e)),
        Ok(()) => next_blob(PutRestView { suffix, pending: blobs, metas: seq![] }),
    }
}

/// What the encryption of a blob reported, with its header taken by its
/// mathematical value.
pub open spec fn header_outcome(encryption: Option<EncryptionResult<Vec<u8>>>) -> Option<
    EncryptionResult<Seq<u8>>,
> {
    match encryption {
        Some(Ok(header)) => Some(Ok(header@)),
        Some(Err(cause)) => Some(Err(cause)),
        None => None,
    }
}

/// The error of a put that ends because the inner store refused the data or the
/// header of the blob under `key`. A batch error that names a failure becomes one
/// about the blobs of this put: those before it have been stored, and it has
/// failed, with the failure that the inner store names first. Every other error
/// passes unchanged.
pub open spec fn refused(stored: Seq<BlobMetaView>, key: Seq<char>, e: ErrorView) -> ErrorView {
    match e {
        ErrorView::Batch(b) => if b.errors.len() > 0 {
            batch::ended_at(stored, key, b.errors[0].error)
        } else {
            e
        },
        _ => e,
    }
}

/// What is done next when the inner store has answered to the data of a blob,
/// and the encryption has, or has not, reported its header.
pub open spec fn after_data<D>(
    key: Seq<char>,
    rest: PutRestView<D>,
    reply: core::result::Result<Seq<BlobMetaView>, ErrorView>,
    encryption: Option<EncryptionResult<Seq<u8>>>,
) -> PutStepView<D> {
    match reply {
        Err(e) => PutStepView::Done(Err(refused(rest.metas, key, e))),
        Ok(stored) => match encryption {
            Some(Ok(header)) => PutStepView::StoreHeader {
                header_key: encrypt::header_key_of(rest.suffix, key),
                header,
                size_hint: Some(header.len() as u64),
                key,
                stored,
                rest,
            },
            Some(Err(cause)) => PutStepView::RollBack {
                key,
                error: encrypt::encryption_failed(key, cause),
            },
            None => PutStepView::Done(Err(encrypt::encryption_unfinished(key))),
        },
    }
}

/// The metadata that the caller gets to see.
pub open spec fn without_headers(suffix: Seq<char>, metas: Seq<BlobMetaView>) -> Seq<BlobMetaView> {
    metas.filter(|m: BlobMetaView| !encrypt::is_header_key(suffix, m.key))
}

/// What is done next when the inner store has answered to the header of a blob.
pub open spec fn after_header<D>(
    key: Seq<char>,
    stored: Seq<BlobMetaView>,
    rest: PutRestView<D>,
    reply: core::result::Result<Seq<BlobMetaView>, ErrorView>,
) -> PutStepView<D> {
    match reply {
        Err(e) => PutStepView::RollBack { key, error: refused(rest.metas, key, e) },
        Ok(_) => next_blob(
            PutRestView { metas: rest.metas + without_headers(rest.suffix, stored), ..rest },
        ),
    }
}

/// The error of a put that ends because the inner store refused a blob.
fn refused_put(stored: Vec<BlobMeta>, key: &str, e: BlobStorageError) -> (r: BlobStorageError)
    ensures
        r@ == refused(stored.deep_view(), key@, e@),
{
    match e {
        BlobStorageError::Batch(b) => {
            let ghost all = b.errors.deep_view();
            if b.errors.len() == 0 {
                return BlobStorageError::Batch(b);
            }
            let mut errors = b.errors;
            let first = errors.remove(0);
            assert(all[0] == first@);
            batch::ended_put(stored, key.to_owned(), first.error)
        },
        other => other,
    }
}

impl<D> PutRest<D> {
    /// The step that begins the next blob.
    fn next(self) -> (r: PutStep<D>)
        ensures
            r@ == next_blob(self@),
    {
        let ghost before = self@;
        let mut pending = self.pending;
        match pending.pop_front() {
            None => {
                assert(before.pending.len() == 0);
                PutStep::Done(Ok(PutResult::multiple(self.metas)))
            },
            Some(blob) => {
                assert(blob@ == before.pending[0]);
                if text::ends_with(blob.key.as_str(), self.suffix.as_str()) {
                    return PutStep::Done(
                        Err(encrypt::collision_error(self.suffix.as_str(), blob.key.as_str())),
                    );
                }
                let size: u64 = match blob.size_hint {
                    Some(n) => n,
                    None => 0,
                };
                let key = blob.key.clone();
                let rest = PutRest { suffix: self.suffix, pending, metas: self.metas };
                assert(rest@ =~= (PutRestView { pending: before.pending.skip(1), ..before }));
                PutStep::StoreData {
                    input: BlobInput { key: blob.key, data: blob.data, size_hint: Some(size) },
                    then: AwaitData { key, rest },
                }
            },
        }
    }
}

impl<D> AwaitData<D> {
    /// Go on with what the inner store returned for the data, and with what the
    /// encryption reported: its header, its failure, or nothing.
    pub fn stored(
        self,
        reply: Result<PutResult>,
        encryption: Option<EncryptionResult<Vec<u8>>>,
    ) -> (r: PutStep<D>)
        ensures
            r@ == after_data(
                self.key@,
                self.rest@,
                types::put_result_view(reply),
                header_outcome(encryption),
            ),
    {
        let stored = match reply {
            Err(e) => {
                return PutStep::Done(
                    Err(refused_put(self.rest.metas, self.key.as_str(), e)),
                );
            },
            Ok(stored) => stored,
        };
        match encryption {
            Some(Ok(header)) => {
                let size: u64 = header.len() as u64;
                let header_key = text::concat(self.key.as_str(), self.rest.suffix.as_str());
                PutStep::StoreHeader {
                    input: BlobInput { key: header_key, data: header, size_hint: Some(size) },
                    then: AwaitHeader { key: self.key, stored, rest: self.rest },
                }
            },
            Some(Err(cause)) => {
                let error = encrypt::encryption_error(
                    "encryption failed for key '",
                    self.key.as_str(),
                    Some(cause),
                );
                PutStep::RollBack { key: self.key, then: AwaitRollback { error } }
            },
            None => PutStep::Done(
                Err(
                    encrypt::encryption_error(
                        "encryption task did not complete for key '",
                        self.key.as_str(),
                        None,
                    ),
                ),
            ),
        }
    }
}

impl<D> AwaitHeader<D> {
    /// Go on with what the inner store returned for the header.
    pub fn stored(self, reply: Result<PutResult>) -> (r: PutStep<D>)
        ensures
            r@ == after_header(self.key@, self.stored@, self.rest@, types::put_result_view(reply)),
    {
        match reply {
            Err(e) => {
                let error = refused_put(self.rest.metas, self.key.as_str(), e);
                PutStep::RollBack { key: self.key, then: AwaitRollback { error } }
            },
            Ok(_) => {
                let ghost before = self.rest@;
                let ghost shown = self.stored@;
                let suffix = self.rest.suffix;
                let mut metas = self.rest.metas;
                let ghost visible = |m: BlobMetaView| !encrypt::is_header_key(suffix@, m.key);
                assert(metas.deep_view() =~= before.metas + shown.take(0).filter(visible)) by {
                    reveal(Seq::filter);
                }
                for meta in it: self.stored.blobs
                    invariant
                        it.seq() == self.stored.blobs@,
                        shown == self.stored.blobs.deep_view(),
                        visible == (|m: BlobMetaView| !encrypt::is_header_key(suffix@, m.key)),
                        metas.deep_view() == before.metas + shown.take(it.index()).filter(visible),
                {
                    let ghost so_far = metas.deep_view();
                    let ghost i = it.index();
                    proof {
                        assert(shown.take(i + 1).drop_last() =~= shown.take(i));
                        reveal(Seq::filter);
                    }
                    if !text::ends_with(meta.key.as_str(), suffix.as_str()) {
                        metas.push(meta);
                        assert(metas.deep_view() =~= so_far.push(meta@));
                        assert(metas.deep_view() =~= before.metas + shown.take(i + 1).filter(
                            visible,
                        ));
                    }
                }
                assert(shown.take(shown.len() as int) =~= shown);
                let rest = PutRest { suffix, pending: self.rest.pending, metas };
                assert(rest@ =~= (PutRestView {
                    metas: before.metas + encrypt::put::without_headers(before.suffix, shown),
                    ..before
                }));
                rest.next()
            },
        }
    }
}

impl AwaitRollback {
    /// End the put with the failure, once the data has been taken back.
    pub fn rolled_back<D>(self) -> (r: PutStep<D>)
        ensures
            r@ == PutStepView::<D>::Done(Err(self.error@)),
    {
        PutStep::Done(Err(self.error))
    }
}

impl<S, E> EncryptedBlobStore<S, E> {
    /// Begin storing blobs.
    pub fn put<D>(&self, blobs: Vec<BlobInput<D>>) -> (r: PutStep<D>)
        ensures
            r@ == begin(self.header_suffix@, blobs.deep_view()),
    {
        match validate::validate_blobs(&blobs) {
            Ok(()) => {},
            Err(e) => {
                return PutStep::Done(Err(e));
            },
        }
        let rest = PutRest {
            suffix: self.header_suffix.clone(),
            pending: order::queue_of(blobs),
            metas: Vec::new(),
        };
        assert(rest@ =~= (PutRestView {
            suffix: self.header_suffix@,
            pending: blobs.deep_view(),
            metas: seq![],
        }));
        rest.next()
    }
}

} // verus!
