//! Uploading one large blob in parts, step by step.
//!
//! The upload is created, the data is read and uploaded part by part, and the
//! upload is completed. A failure on the way aborts it.

use vstd::prelude::*;

use crate::error::BlobStorageError;
use crate::error::ErrorView;
use crate::error::IoFailure;
use crate::error::Result;
use crate::s3;
use crate::s3::request_error;
use crate::s3::S3BlobStore;
use crate::s3::S3Failure;
use crate::text;
use crate::timestamp::utc_now;
use crate::timestamp::Timestamp;
use crate::types;
use crate::types::BlobMeta;
use crate::types::BlobMetaView;

verus! {

/// A part that the service has taken.
pub struct UploadedPart {
    pub part_number: i32,
    pub etag: String,
}

/// The mathematical value of an [`UploadedPart`].
pub struct UploadedPartView {
    pub part_number: i32,
    pub etag: Seq<char>,
}

impl DeepView for UploadedPart {
    type V = UploadedPartView;

    open spec fn deep_view(&self) -> UploadedPartView {
        UploadedPartView { part_number: self.part_number, etag: self.etag@ }
    }
}

/// An upload that has been created.
pub struct Upload {
    bucket: String,
    key: String,
    upload_id: String,
    part_size: u64,
    parts: Vec<UploadedPart>,
    total: u64,
}

/// The mathematical value of an [`Upload`].
#[verifier::ext_equal]
pub struct UploadView {
    pub bucket: Seq<char>,
    pub key: Seq<char>,
    pub upload_id: Seq<char>,
    pub part_size: u64,
    pub parts: Seq<UploadedPartView>,
    pub total: int,
}

impl View for Upload {
    type V = UploadView;

    closed spec fn view(&self) -> UploadView {
        UploadView {
            bucket: self.bucket@,
            key: self.key@,
            upload_id: self.upload_id@,
            part_size: self.part_size,
            parts: self.parts.deep_view(),
            total: self.total as int,
        }
    }
}

/// Resumes an upload once it has been created.
pub struct AwaitCreated {
    pub bucket: String,
    pub key: String,
    pub part_size: u64,
}

/// Resumes an upload once the data of the next part has been read.
pub struct AwaitPart {
    pub upload: Upload,
}

/// Resumes an upload once the service has answered to a part.
pub struct AwaitUploaded {
    pub part_number: i32,
    pub upload: Upload,
}

/// Resumes an upload once the service has answered to its completion.
pub struct AwaitCompleted {
    pub bucket: String,
    pub key: String,
    pub total: u64,
}

/// Resumes an upload once it has been aborted.
pub struct AwaitAborted {
    pub error: BlobStorageError,
}

/// The next step of an upload.
#[allow(inconsistent_fields)]
pub enum UploadStep {
    /// Create an upload for the key.
    Create { key: String, then: AwaitCreated },
    /// Read the next bytes of the data: `limit` of them, or what is left.
    ReadPart { limit: u64, then: AwaitPart },
    /// Upload a part.
    UploadPart {
        key: String,
        upload_id: String,
        part_number: i32,
        body: Vec<u8>,
        then: AwaitUploaded,
    },
    /// Complete the upload.
    Complete { key: String, upload_id: String, parts: Vec<UploadedPart>, then: AwaitCompleted },
    /// Abort the upload; whether that succeeds does not matter.
    Abort { key: String, upload_id: String, then: AwaitAborted },
    /// The upload is over.
    Done(Result<BlobMeta>),
}

/// The mathematical value of an [`UploadStep`].
#[verifier::ext_equal]
pub enum UploadStepView {
    Create { key: Seq<char>, bucket: Seq<char>, part_size: u64 },
    ReadPart { limit: u64, upload: UploadView },
    UploadPart {
        key: Seq<char>,
        upload_id: Seq<char>,
        part_number: int,
        body: Seq<u8>,
        upload: UploadView,
    },
    Complete {
        key: Seq<char>,
        upload_id: Seq<char>,
        parts: Seq<UploadedPartView>,
        bucket: Seq<char>,
        total: int,
    },
    Abort { key: Seq<char>, upload_id: Seq<char>, error: ErrorView },
    Done(core::result::Result<BlobMetaView, ErrorView>),
}

impl UploadStep {
    /// Whether the step is the given one, and what resumes it fits.
    pub open spec fn realizes(&self, v: UploadStepView) -> bool {
        match self {
            UploadStep::Create { key, then } => {
                &&& then.key@ == key@
                &&& v == UploadStepView::Create {
                    key: key@,
                    bucket: then.bucket@,
                    part_size: then.part_size,
                }
            },
            UploadStep::ReadPart { limit, then } => v == UploadStepView::ReadPart {
                limit: *limit,
                upload: then.upload@,
            },
            UploadStep::UploadPart { key, upload_id, part_number, body, then } => {
                &&& then.part_number == part_number
                &&& v == UploadStepView::UploadPart {
                    key: key@,
                    upload_id: upload_id@,
                    part_number: *part_number as int,
                    body: body@,
                    upload: then.upload@,
                }
            },
            UploadStep::Complete { key, upload_id, parts, then } => {
                &&& then.key@ == key@
                &&& v == UploadStepView::Complete {
                    key: key@,
                    upload_id: upload_id@,
                    parts: parts.deep_view(),
                    bucket: then.bucket@,
                    total: then.total as int,
                }
            },
            UploadStep::Abort { key, upload_id, then } => v == UploadStepView::Abort {
                key: key@,
                upload_id: upload_id@,
                error: then.error@,
            },
            UploadStep::Done(Ok(meta)) => v == UploadStepView::Done(Ok(meta@)),
            UploadStep::Done(Err(e)) => v == UploadStepView::Done(Err(e@)),
        }
    }
}

/// What an upload does when the service has answered to its creation.
pub open spec fn after_created(
    bucket: Seq<char>,
    key: Seq<char>,
    part_size: u64,
    reply: core::result::Result<Option<Seq<char>>, S3Failure>,
) -> UploadStepView {
    match reply {
        Err(failure) => UploadStepView::Done(
            Err(
                s3::request_failed(
                    bucket,
                    failure,
                    s3::about("S3 CreateMultipartUpload failed for key '"@, key),
                ),
            ),
        ),
        Ok(None) => UploadStepView::Done(
            Err(
                ErrorView::Storage {
                    message: s3::about(
                        "Missing upload_id in CreateMultipartUpload response for key '"@,
                        key,
                    ),
                    source: None,
                },
            ),
        ),
        Ok(Some(upload_id)) => UploadStepView::ReadPart {
            limit: part_size,
            upload: UploadView { bucket, key, upload_id, part_size, parts: seq![], total: 0 },
        },
    }
}

/// What an upload does when the data of the next part has been read; no data
/// means that all of it has been uploaded.
pub open spec fn after_part(
    upload: UploadView,
    reply: core::result::Result<Seq<u8>, IoFailure>,
) -> UploadStepView {
    match reply {
        Err(failure) => UploadStepView::Abort {
            key: upload.key,
            upload_id: upload.upload_id,
            error: ErrorView::Storage {
                message: s3::about("failed to read blob data for key '"@, upload.key),
                source: Some(failure.source_spec()),
            },
        },
        Ok(body) => if body.len() == 0 {
            UploadStepView::Complete {
                key: upload.key,
                upload_id: upload.upload_id,
                parts: upload.parts,
                bucket: upload.bucket,
                total: upload.total,
            }
        } else {
            UploadStepView::UploadPart {
                key: upload.key,
                upload_id: upload.upload_id,
                part_number: upload.parts.len() as int + 1,
                body,
                upload: UploadView { total: upload.total + body.len(), ..upload },
            }
        },
    }
}

/// The error of a part that the service refused.
pub open spec fn part_failed(
    upload: UploadView,
    part_number: int,
    failure: S3Failure,
) -> ErrorView {
    s3::request_failed(
        upload.bucket,
        failure,
        "S3 UploadPart failed for key '"@ + upload.key + "' (part "@ + text::decimal(
            part_number as nat,
        ) + ", upload_id "@ + upload.upload_id + ")"@,
    )
}

/// What an upload does when the service has answered to a part.
pub open spec fn after_uploaded(
    upload: UploadView,
    part_number: i32,
    reply: core::result::Result<Option<Seq<char>>, S3Failure>,
) -> UploadStepView {
    match reply {
        Err(failure) => UploadStepView::Abort {
            key: upload.key,
            upload_id: upload.upload_id,
            error: part_failed(upload, part_number as int, failure),
        },
        Ok(etag) => UploadStepView::ReadPart {
            limit: upload.part_size,
            upload: UploadView {
                parts: upload.parts.push(
                    UploadedPartView {
                        part_number,
                        etag: match etag {
                            Some(t) => t,
                            None => seq![],
                        },
                    },
                ),
                ..upload
            },
        },
    }
}

/// What an upload ends with when the service has answered to its completion, at
/// the given time.
pub open spec fn after_completed(
    bucket: Seq<char>,
    key: Seq<char>,
    total: u64,
    reply: core::result::Result<Option<Seq<char>>, S3Failure>,
    now: Timestamp,
) -> UploadStepView {
    match reply {
        Err(failure) => UploadStepView::Done(
            Err(
                s3::request_failed(
                    bucket,
                    failure,
                    s3::about("S3 CompleteMultipartUpload failed for key '"@, key),
                ),
            ),
        ),
        Ok(etag) => UploadStepView::Done(
            Ok(BlobMetaView { key, stored_size: total, modified_at: now, etag }),
        ),
    }
}

/// A reply that carries a text, taken by its mathematical value.
pub open spec fn text_reply_view(
    reply: core::result::Result<Option<String>, S3Failure>,
) -> core::result::Result<Option<Seq<char>>, S3Failure> {
    match reply {
        Ok(t) => Ok(types::text_view(t)),
        Err(failure) => Err(failure),
    }
}

/// A reply that carries bytes, taken by its mathematical value.
pub open spec fn bytes_reply_view(
    reply: core::result::Result<Vec<u8>, IoFailure>,
) -> core::result::Result<Seq<u8>, IoFailure> {
    match reply {
        Ok(b) => Ok(b@),
        Err(failure) => Err(failure),
    }
}

impl AwaitCreated {
    /// Go on with the id that the service gave to the upload.
    pub fn created(self, reply: core::result::Result<Option<String>, S3Failure>) -> (r: UploadStep)
        ensures
            r.realizes(
                after_created(self.bucket@, self.key@, self.part_size, text_reply_view(reply)),
            ),
    {
        match reply {
            Err(failure) => {
                let message = text::concat3(
                    "S3 CreateMultipartUpload failed for key '",
                    self.key.as_str(),
                    "'",
                );
                UploadStep::Done(Err(request_error(self.bucket.as_str(), failure, message)))
            },
            Ok(None) => UploadStep::Done(
                Err(
                    BlobStorageError::Storage {
                        message: text::concat3(
                            "Missing upload_id in CreateMultipartUpload response for key '",
                            self.key.as_str(),
                            "'",
                        ),
                        source: None,
                    },
                ),
            ),
            Ok(Some(upload_id)) => {
                let upload = Upload {
                    bucket: self.bucket,
                    key: self.key,
                    upload_id,
                    part_size: self.part_size,
                    parts: Vec::new(),
                    total: 0,
                };
                assert(upload.parts.deep_view() =~= seq![]);
                UploadStep::ReadPart { limit: self.part_size, then: AwaitPart { upload } }
            },
        }
    }
}

impl AwaitPart {
    /// Go on with the data of the next part, which is empty at the end.
    pub fn read(self, reply: core::result::Result<Vec<u8>, IoFailure>) -> (r: UploadStep)
        requires
            self.upload@.parts.len() < i32::MAX,
            reply matches Ok(body) ==> self.upload@.total + body@.len() <= u64::MAX,
        ensures
            r.realizes(after_part(self.upload@, bytes_reply_view(reply))),
    {
        let ghost before = self.upload@;
        let mut upload = self.upload;
        match reply {
            Err(failure) => {
                let message = text::concat3(
                    "failed to read blob data for key '",
                    upload.key.as_str(),
                    "'",
                );
                UploadStep::Abort {
                    key: upload.key,
                    upload_id: upload.upload_id,
                    then: AwaitAborted {
                        error: BlobStorageError::Storage {
                            message,
                            source: Some(failure.into_source()),
                        },
                    },
                }
            },
            Ok(body) => {
                if body.len() == 0 {
                    let key = upload.key.clone();
                    return UploadStep::Complete {
                        key,
                        upload_id: upload.upload_id,
                        parts: upload.parts,
                        then: AwaitCompleted {
                            bucket: upload.bucket,
                            key: upload.key,
                            total: upload.total,
                        },
                    };
                }
                let part_number: i32 = upload.parts.len() as i32 + 1;
                upload.total = upload.total + body.len() as u64;
                assert(upload@ =~= (UploadView { total: before.total + body@.len(), ..before }));
                UploadStep::UploadPart {
                    key: upload.key.clone(),
                    upload_id: upload.upload_id.clone(),
                    part_number,
                    body,
                    then: AwaitUploaded { part_number, upload },
                }
            },
        }
    }
}

impl AwaitUploaded {
    /// Go on with the tag that the service gave to the part.
    pub fn uploaded(self, reply: core::result::Result<Option<String>, S3Failure>) -> (r: UploadStep)
        requires
            self.part_number >= 0,
        ensures
            r.realizes(after_uploaded(self.upload@, self.part_number, text_reply_view(reply))),
    {
        let ghost before = self.upload@;
        let mut upload = self.upload;
        match reply {
            Err(failure) => {
                let mut message: String = "S3 UploadPart failed for key '".to_owned();
                message.append(upload.key.as_str());
                message.append("' (part ");
                message.append(text::decimal_text(self.part_number as u64).as_str());
                message.append(", upload_id ");
                message.append(upload.upload_id.as_str());
                message.append(")");
                let error = request_error(upload.bucket.as_str(), failure, message);
                UploadStep::Abort {
                    key: upload.key,
                    upload_id: upload.upload_id,
                    then: AwaitAborted { error },
                }
            },
            Ok(etag) => {
                let etag = match etag {
                    Some(t) => t,
                    None => String::new(),
                };
                let ghost part = UploadedPartView {
                    part_number: self.part_number,
                    etag: etag@,
                };
                let limit: u64 = upload.part_size;
                upload.parts.push(UploadedPart { part_number: self.part_number, etag });
                assert(upload@ =~= (UploadView { parts: before.parts.push(part), ..before }));
                UploadStep::ReadPart { limit, then: AwaitPart { upload } }
            },
        }
    }
}

impl AwaitCompleted {
    /// End the upload with the tag that the service gave to the object, at the
    /// given time.
    pub fn completed_at(
        self,
        reply: core::result::Result<Option<String>, S3Failure>,
        now: Timestamp,
    ) -> (r: UploadStep)
        ensures
            r.realizes(
                after_completed(self.bucket@, self.key@, self.total, text_reply_view(reply), now),
            ),
    {
        match reply {
            Err(failure) => {
                let message = text::concat3(
                    "S3 CompleteMultipartUpload failed for key '",
                    self.key.as_str(),
                    "'",
                );
                UploadStep::Done(Err(request_error(self.bucket.as_str(), failure, message)))
            },
            Ok(etag) => UploadStep::Done(
                Ok(
                    BlobMeta {
                        key: self.key,
                        stored_size: self.total,
                        modified_at: now,
                        etag,
                    },
                ),
            ),
        }
    }

    /// End the upload with the tag that the service gave to the object, at the
    /// current time.
    pub fn completed(self, reply: core::result::Result<Option<String>, S3Failure>) -> (r:
        UploadStep)
        ensures
            exists|now: Timestamp|
                r.realizes(
                    #[trigger] after_completed(
                        self.bucket@,
                        self.key@,
                        self.total,
                        text_reply_view(reply),
                        now,
                    ),
                ),
    {
        self.completed_at(reply, utc_now())
    }
}

impl AwaitAborted {
    /// End the upload with the failure, once it has been aborted.
    pub fn aborted(self) -> (r: UploadStep)
        ensures
            r.realizes(UploadStepView::Done(Err(self.error@))),
    {
        UploadStep::Done(Err(self.error))
    }
}

impl<C> S3BlobStore<C> {
    /// Begin the upload of a blob in parts.
    pub fn upload_multipart(&self, key: &str) -> (r: UploadStep)
        ensures
            r.realizes(
                UploadStepView::Create {
                    key: key@,
                    bucket: self.bucket(),
                    part_size: self.part_size(),
                },
            ),
    {
        UploadStep::Create {
            key: key.to_owned(),
            then: AwaitCreated {
                bucket: self.bucket_name().to_owned(),
                key: key.to_owned(),
                part_size: self.multipart_part_size(),
            },
        }
    }
}

} // verus!
