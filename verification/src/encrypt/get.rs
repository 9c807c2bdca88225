//! Retrieving encrypted blobs, and checking for them, step by step.

use vstd::prelude::*;

use crate::encrypt;
use crate::encrypt::EncryptedBlobStore;
use crate::error;
use crate::error::BlobStorageError;
use crate::error::EncryptionError;
use crate::error::ErrorView;
use crate::error::IoFailure;
use crate::error::Result;
use crate::text;
use crate::types::BlobMeta;

verus! {

/// What came of fetching a header and reading it to its end.
pub enum HeaderReply {
    /// The bytes of the header.
    Bytes(Vec<u8>),
    /// The inner store refused.
    Refused(BlobStorageError),
    /// The inner store had the header, but reading it failed.
    Unreadable(IoFailure),
}

/// Resumes a retrieval once the inner store has answered to the data key.
pub struct AwaitEncryptedData {
    pub key: String,
    pub header_key: String,
}

/// Resumes a retrieval once the header has been read. `R` is what the inner
/// store gave for the data.
pub struct AwaitHeaderBytes<R> {
    pub key: String,
    pub data: R,
}

/// The first step of a retrieval.
pub enum GetStep {
    /// Fetch the encrypted data from the inner store.
    FetchData { key: String, then: AwaitEncryptedData },
    /// The key is refused.
    Done(BlobStorageError),
}

/// The second step of a retrieval.
pub enum HeaderStep<R> {
    /// Fetch the header from the inner store and read it.
    FetchHeader { header_key: String, then: AwaitHeaderBytes<R> },
    /// The retrieval failed.
    Done(BlobStorageError),
}

/// What a retrieval ends with.
pub enum DecryptStep<R> {
    /// Decrypt `data` with `header`, and hand the plaintext to the caller.
    Decrypt { data: R, header: Vec<u8> },
    /// The retrieval failed.
    Done(BlobStorageError),
}

/// The mathematical value of a [`HeaderReply`].
pub enum HeaderReplyView {
    Bytes(Seq<u8>),
    Refused(ErrorView),
    Unreadable(IoFailure),
}

impl View for HeaderReply {
    type V = HeaderReplyView;

    open spec fn view(&self) -> HeaderReplyView {
        match self {
            HeaderReply::Bytes(header) => HeaderReplyView::Bytes(header@),
            HeaderReply::Refused(e) => HeaderReplyView::Refused(e@),
            HeaderReply::Unreadable(failure) => HeaderReplyView::Unreadable(*failure),
        }
    }
}

/// The mathematical value of a [`GetStep`].
pub enum GetStepView {
    FetchData { data_key: Seq<char>, key: Seq<char>, header_key: Seq<char> },
    Done(ErrorView),
}

impl View for GetStep {
    type V = GetStepView;

    open spec fn view(&self) -> GetStepView {
        match self {
            GetStep::FetchData { key, then } => GetStepView::FetchData {
                data_key: key@,
                key: then.key@,
                header_key: then.header_key@,
            },
            GetStep::Done(e) => GetStepView::Done(e@),
        }
    }
}

/// The mathematical value of a [`HeaderStep`].
pub enum HeaderStepView<R> {
    FetchHeader { header_key: Seq<char>, key: Seq<char>, data: R },
    Done(ErrorView),
}

impl<R> View for HeaderStep<R> {
    type V = HeaderStepView<R>;

    open spec fn view(&self) -> HeaderStepView<R> {
        match self {
            HeaderStep::FetchHeader { header_key, then } => HeaderStepView::FetchHeader {
                header_key: header_key@,
                key: then.key@,
                data: then.data,
            },
            HeaderStep::Done(e) => HeaderStepView::Done(e@),
        }
    }
}

/// The mathematical value of a [`DecryptStep`].
pub enum DecryptStepView<R> {
    Decrypt { data: R, header: Seq<u8> },
    Done(ErrorView),
}

impl<R> View for DecryptStep<R> {
    type V = DecryptStepView<R>;

    open spec fn view(&self) -> DecryptStepView<R> {
        match self {
            DecryptStep::Decrypt { data, header } => DecryptStepView::Decrypt {
                data: *data,
                header: header@,
            },
            DecryptStep::Done(e) => DecryptStepView::Done(e@),
        }
    }
}

/// The first step of a retrieval. A reserved or invalid key is refused.
pub open spec fn begin_get(suffix: Seq<char>, key: Seq<char>) -> GetStepView {
    match encrypt::key_check(suffix, key) {
        Err(e) => GetStepView::Done(e),
        Ok(()) => GetStepView::FetchData {
            data_key: key,
            key,
            header_key: encrypt::header_key_of(suffix, key),
        },
    }
}

/// What is done next when the inner store has answered to the data key.
pub open spec fn after_data<R>(
    key: Seq<char>,
    header_key: Seq<char>,
    reply: core::result::Result<R, ErrorView>,
) -> HeaderStepView<R> {
    match reply {
        Ok(data) => HeaderStepView::FetchHeader { header_key, key, data },
        Err(e) => HeaderStepView::Done(e.missing_as(key)),
    }
}

/// What a retrieval ends with, from what came of fetching the header.
pub open spec fn after_header<R>(
    key: Seq<char>,
    data: R,
    reply: HeaderReplyView,
) -> DecryptStepView<R> {
    match reply {
        HeaderReplyView::Bytes(header) => DecryptStepView::Decrypt { data, header },
        HeaderReplyView::Refused(e) => DecryptStepView::Done(e.missing_as(key)),
        HeaderReplyView::Unreadable(failure) => DecryptStepView::Done(error::io_error(failure)),
    }
}

impl<S, E> EncryptedBlobStore<S, E> {
    /// Begin a retrieval.
    pub fn get(&self, key: &str) -> (r: GetStep)
        ensures
            r@ == begin_get(self.header_suffix@, key@),
    {
        match self.check_key(key) {
            Err(e) => GetStep::Done(e),
            Ok(()) => GetStep::FetchData {
                key: key.to_owned(),
                then: AwaitEncryptedData {
                    key: key.to_owned(),
                    header_key: self.header_key(key),
                },
            },
        }
    }

    /// The metadata of a blob as the caller sees it, from what the inner store
    /// has for the data.
    pub fn logical_meta(&self, key: &str, inner: BlobMeta) -> (r: BlobMeta)
        ensures
            r@ == inner@.with_key(key@),
    {
        inner.with_key(key.to_owned())
    }
}

impl AwaitEncryptedData {
    /// Go on with what the inner store returned for the data.
    pub fn fetched<R>(self, reply: Result<R>) -> (r: HeaderStep<R>)
        ensures
            r@ == after_data(self.key@, self.header_key@, error::result_view(reply)),
    {
        match reply {
            Ok(data) => HeaderStep::FetchHeader {
                header_key: self.header_key,
                then: AwaitHeaderBytes { key: self.key, data },
            },
            Err(e) => HeaderStep::Done(e.missing_as(self.key.as_str())),
        }
    }
}

impl<R> AwaitHeaderBytes<R> {
    /// Go on with what came of fetching the header.
    pub fn fetched(self, reply: HeaderReply) -> (r: DecryptStep<R>)
        ensures
            r@ == after_header(self.key@, self.data, reply@),
    {
        match reply {
            HeaderReply::Bytes(header) => DecryptStep::Decrypt { data: self.data, header },
            HeaderReply::Refused(e) => DecryptStep::Done(e.missing_as(self.key.as_str())),
            HeaderReply::Unreadable(failure) => DecryptStep::Done(BlobStorageError::from(failure)),
        }
    }
}

/// The end of a stream of decrypted data. A failed decryption ends the stream
/// early; the reader must then report the failure instead of the end.
pub struct DecryptedStream {
    failure: Option<BlobStorageError>,
}

impl DecryptedStream {
    /// The failure that is still to be reported.
    pub closed spec fn failure(&self) -> Option<ErrorView> {
        match self.failure {
            Some(e) => Some(e@),
            None => None,
        }
    }

    /// A stream whose decryption has not failed.
    pub fn new() -> (r: Self)
        ensures
            r.failure() is None,
    {
        DecryptedStream { failure: None }
    }

    /// Note that the decryption of the blob under `key` failed.
    pub fn fail(&mut self, key: &str, cause: EncryptionError)
        ensures
            final(self).failure() == Some(encrypt::decryption_failed(key@, cause)),
    {
        self.failure = Some(
            encrypt::encryption_error("decryption failed for key '", key, Some(cause)),
        );
    }

    /// A read returned `count` bytes. At the end of the stream, where it
    /// returned none, the text of a failure is handed out, once.
    pub fn read(&mut self, count: usize) -> (r: Option<String>)
        ensures
            r is Some <==> count == 0 && old(self).failure() is Some,
            r is None ==> final(self).failure() == old(self).failure(),
            r matches Some(message) ==> {
                &&& message@ == old(self).failure()->0.text()
                &&& final(self).failure() is None
            },
    {
        proof {
            use_type_invariant(&*self);
        }
        if count != 0 {
            return None;
        }
        let mut taken: Option<BlobStorageError> = None;
        std::mem::swap(&mut taken, &mut self.failure);
        match taken {
            Some(e) => Some(e.to_string()),
            None => None,
        }
    }

    /// Only failed decryptions are noted.
    #[verifier::type_invariant]
    spec fn wf(&self) -> bool {
        self.failure matches Some(e) ==> e is Encryption
    }
}

/// Resumes a check for a blob once the inner store has answered for the data.
pub struct AwaitDataExists {
    pub header_key: String,
}

/// The next step of a check for a blob.
pub enum ExistsStep {
    /// Ask the inner store for the data key.
    CheckData { key: String, then: AwaitDataExists },
    /// Ask the inner store for the header key; its answer is the answer.
    CheckHeader { header_key: String },
    /// The check is over.
    Done(Result<bool>),
}

/// The mathematical value of an [`ExistsStep`].
pub enum ExistsStepView {
    CheckData { key: Seq<char>, header_key: Seq<char> },
    CheckHeader { header_key: Seq<char> },
    Done(core::result::Result<bool, ErrorView>),
}

impl View for ExistsStep {
    type V = ExistsStepView;

    open spec fn view(&self) -> ExistsStepView {
        match self {
            ExistsStep::CheckData { key, then } => ExistsStepView::CheckData {
                key: key@,
                header_key: then.header_key@,
            },
            ExistsStep::CheckHeader { header_key } => ExistsStepView::CheckHeader {
                header_key: header_key@,
            },
            ExistsStep::Done(r) => ExistsStepView::Done(error::result_view(*r)),
        }
    }
}

/// The first step of a check for a blob. A reserved or invalid key is refused.
pub open spec fn begin_exists(suffix: Seq<char>, key: Seq<char>) -> ExistsStepView {
    match encrypt::key_check(suffix, key) {
        Err(e) => ExistsStepView::Done(Err(e)),
        Ok(()) => ExistsStepView::CheckData {
            key,
            header_key: encrypt::header_key_of(suffix, key),
        },
    }
}

/// What is done next when the inner store has said whether it has the data.
pub open spec fn after_data_exists(
    header_key: Seq<char>,
    reply: core::result::Result<bool, ErrorView>,
) -> ExistsStepView {
    match reply {
        Ok(true) => ExistsStepView::CheckHeader { header_key },
        _ => ExistsStepView::Done(reply),
    }
}

impl<S, E> EncryptedBlobStore<S, E> {
    /// Begin a check for a blob.
    pub fn blob_exists(&self, key: &str) -> (r: ExistsStep)
        ensures
            r@ == begin_exists(self.header_suffix@, key@),
    {
        match self.check_key(key) {
            Err(e) => ExistsStep::Done(Err(e)),
            Ok(()) => ExistsStep::CheckData {
                key: key.to_owned(),
                then: AwaitDataExists { header_key: self.header_key(key) },
            },
        }
    }
}

impl AwaitDataExists {
    /// Go on with whether the inner store has the data.
    pub fn answered(self, reply: Result<bool>) -> (r: ExistsStep)
        ensures
            r@ == after_data_exists(self.header_key@, error::result_view(reply)),
    {
        match reply {
            Ok(true) => ExistsStep::CheckHeader { header_key: self.header_key },
            other => ExistsStep::Done(other),
        }
    }
}

} // verus!
