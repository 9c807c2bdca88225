//! Wrapping headers with the current key, one visited header at a time.
//!
//! Only headers are rewritten; the encrypted data stays as it is.

use vstd::prelude::*;

use crate::encrypt::get::HeaderReply;
use crate::encrypt::get::HeaderReplyView;
use crate::encrypt::EncryptedBlobStore;
use crate::error::BlobStorageError;
use crate::error::EncryptionResult;
use crate::error::ErrorView;
use crate::error::Result;
use crate::list_filter::SuffixFilter;
use crate::text;
use crate::types::BlobInput;
use crate::types::BlobInputView;
use crate::types::PutResult;
use crate::types::RekeyResult;

verus! {

/// A rekey run: the number of headers that were rewritten so far.
pub struct RekeyRun {
    rekeyed: u64,
}

/// Resumes the treatment of a header once the encryption provider has looked at
/// it.
pub struct AwaitRewrap {
    pub key: String,
    /// Size of the old header.
    pub size: u64,
}

/// What follows when a header has been fetched.
pub enum RekeyStep {
    /// Ask the encryption provider to wrap the header with the current key.
    Rewrap { header: Vec<u8>, then: AwaitRewrap },
    /// Go on with the next header.
    Skip,
    /// Stop the run.
    Failed(BlobStorageError),
}

/// The error of a header that could not be read.
pub open spec fn unreadable_header(key: Seq<char>, source: Seq<Seq<char>>) -> ErrorView {
    ErrorView::Storage {
        message: "failed to read header '"@ + key + "'"@,
        source: Some(source),
    }
}

/// The mathematical value of a [`RekeyStep`].
pub enum RekeyStepView {
    Rewrap { header: Seq<u8>, key: Seq<char>, size: u64 },
    Skip,
    Failed(ErrorView),
}

impl View for RekeyStep {
    type V = RekeyStepView;

    open spec fn view(&self) -> RekeyStepView {
        match self {
            RekeyStep::Rewrap { header, then } => RekeyStepView::Rewrap {
                header: header@,
                key: then.key@,
                size: then.size,
            },
            RekeyStep::Skip => RekeyStepView::Skip,
            RekeyStep::Failed(e) => RekeyStepView::Failed(e@),
        }
    }
}

/// What follows for the header under `key` when it has been fetched.
pub open spec fn after_fetch(key: Seq<char>, reply: HeaderReplyView) -> RekeyStepView {
    match reply {
        HeaderReplyView::Bytes(header) => RekeyStepView::Rewrap {
            header,
            key,
            size: header.len() as u64,
        },
        HeaderReplyView::Refused(_) => RekeyStepView::Skip,
        HeaderReplyView::Unreadable(failure) => RekeyStepView::Failed(
            unreadable_header(key, failure.source_spec()),
        ),
    }
}

/// What the encryption provider made of a header, with a new header taken by its
/// mathematical value.
pub open spec fn rewrap_outcome(reply: EncryptionResult<Option<Vec<u8>>>) -> EncryptionResult<
    Option<Seq<u8>>,
> {
    match reply {
        Ok(Some(header)) => Ok(Some(header@)),
        Ok(None) => Ok(None),
        Err(cause) => Err(cause),
    }
}

/// The header to store in place of the old one, if there is one.
pub open spec fn replacement(
    key: Seq<char>,
    size: u64,
    reply: EncryptionResult<Option<Seq<u8>>>,
) -> Option<BlobInputView<Seq<u8>>> {
    match reply {
        Ok(Some(header)) => Some(BlobInputView { key, data: header, size_hint: Some(size) }),
        _ => None,
    }
}

/// The number of rewritten headers after one more that the inner store took, or
/// refused.
pub open spec fn counted(rekeyed: nat, taken: bool) -> nat {
    if taken {
        rekeyed + 1
    } else {
        rekeyed
    }
}

impl RekeyRun {
    /// The number of headers that were rewritten so far.
    pub closed spec fn rekeyed(&self) -> u64 {
        self.rekeyed
    }

    /// A run that has not rewritten anything.
    pub fn new() -> (r: Self)
        ensures
            r.rekeyed() == 0,
    {
        RekeyRun { rekeyed: 0 }
    }

    /// Treat the header under `key`, with what came of fetching it. A header that
    /// the inner store refuses is passed over; one that cannot be read to its end
    /// stops the run.
    pub fn fetched(&self, key: &str, reply: HeaderReply) -> (r: RekeyStep)
        ensures
            r@ == after_fetch(key@, reply@),
    {
        match reply {
            HeaderReply::Bytes(header) => {
                let size: u64 = header.len() as u64;
                RekeyStep::Rewrap { header, then: AwaitRewrap { key: key.to_owned(), size } }
            },
            HeaderReply::Refused(_) => RekeyStep::Skip,
            HeaderReply::Unreadable(failure) => RekeyStep::Failed(
                BlobStorageError::Storage {
                    message: text::concat3("failed to read header '", key, "'"),
                    source: Some(failure.into_source()),
                },
            ),
        }
    }

    /// Note what the inner store returned for a rewritten header.
    pub fn stored(&mut self, reply: &Result<PutResult>)
        requires
            old(self).rekeyed() < u64::MAX,
        ensures
            final(self).rekeyed() == counted(old(self).rekeyed() as nat, reply is Ok),
    {
        match reply {
            Ok(_) => {
                self.rekeyed = self.rekeyed + 1;
            },
            Err(_) => {},
        }
    }

    /// The result of the run.
    pub fn result(&self) -> (r: RekeyResult)
        ensures
            r.rekeyed_count == self.rekeyed(),
    {
        RekeyResult { rekeyed_count: self.rekeyed }
    }
}

impl AwaitRewrap {
    /// The header to store in place of the old one; `None` where the provider
    /// found the header up to date, or failed.
    pub fn rewrapped(self, reply: EncryptionResult<Option<Vec<u8>>>) -> (r: Option<
        BlobInput<Vec<u8>>,
    >)
        ensures
            match r {
                Some(input) => replacement(self.key@, self.size, rewrap_outcome(reply)) == Some(
                    BlobInputView {
                        key: input.key@,
                        data: input.data@,
                        size_hint: input.size_hint,
                    },
                ),
                None => replacement(self.key@, self.size, rewrap_outcome(reply)) is None,
            },
    {
        match reply {
            Ok(Some(new_header)) => Some(
                BlobInput { key: self.key, data: new_header, size_hint: Some(self.size) },
            ),
            _ => None,
        }
    }
}

impl<S, E> EncryptedBlobStore<S, E> {
    /// Begin a rekey run: the filter with which to visit the inner store, and
    /// the run that treats each visited header.
    pub fn rekey(&self) -> (r: (SuffixFilter, RekeyRun))
        ensures
            r.0.suffix@ == self.header_suffix@,
            r.1.rekeyed() == 0,
    {
        (SuffixFilter::new(self.header_suffix.as_str()), RekeyRun::new())
    }
}

} // verus!
