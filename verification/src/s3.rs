//! Blobs as objects in a bucket of an S3-compatible service.

pub mod delete;
pub mod laws;
pub mod listing;
pub mod put;
pub mod reply_laws;
pub mod upload;

use vstd::prelude::*;

use crate::error;
use crate::error::BlobStorageError;
use crate::error::ErrorSource;
use crate::error::ErrorView;
use crate::error::Result;
use crate::text;
use crate::timestamp;
use crate::timestamp::timestamp_or_epoch;
use crate::timestamp::Timestamp;
use crate::types;
use crate::types::BlobMeta;
use crate::types::BlobMetaView;
use crate::validate;
use crate::validate::validate_blob_key;

verus! {

/// Size of a part of a multipart upload unless another one is chosen (50 MiB).
pub const DEFAULT_MULTIPART_PART_SIZE: u64 = 52_428_800;

/// Smallest size of a part that the service accepts, save for the last part (5
/// MiB). Blobs of at least this size are uploaded in parts.
pub const MIN_MULTIPART_PART_SIZE: u64 = 5_242_880;

/// A store of objects in a bucket, by way of the client `C`.
pub struct S3BlobStore<C> {
    client: C,
    bucket: String,
    part_size: u64,
}

/// A request that the service refused, or that never got there.
pub struct S3Failure {
    /// The service's error code.
    pub code: Option<String>,
    /// The failure as a cause.
    pub source: ErrorSource,
}

/// What the service tells of an object.
pub struct S3Object {
    pub key: Option<String>,
    pub size: Option<i64>,
    pub etag: Option<String>,
    /// Seconds and nanoseconds since the epoch.
    pub last_modified: Option<(i64, u32)>,
}

/// Whether a failure has the given code.
pub open spec fn has_code(failure: S3Failure, code: Seq<char>) -> bool {
    failure.code matches Some(c) && c@ == code
}

/// Whether a failure means that the object is missing.
pub open spec fn not_found(failure: S3Failure) -> bool {
    has_code(failure, "NoSuchKey"@) || has_code(failure, "NotFound"@)
}

/// Whether a failure means that the bucket is missing.
pub open spec fn misconfigured(failure: S3Failure) -> bool {
    has_code(failure, "NoSuchBucket"@)
}

/// The error of a missing bucket.
pub open spec fn bucket_error(bucket: Seq<char>) -> ErrorView {
    ErrorView::BackendMisconfigured(
        "S3 bucket '"@ + bucket + "' does not exist or is not accessible"@,
    )
}

/// The error of a failed request that is described by `message`.
pub open spec fn request_failed(
    bucket: Seq<char>,
    failure: S3Failure,
    message: Seq<char>,
) -> ErrorView {
    if misconfigured(failure) {
        bucket_error(bucket)
    } else {
        ErrorView::Storage { message, source: Some(failure.source@) }
    }
}

/// A message about a key.
pub open spec fn about(before: Seq<char>, key: Seq<char>) -> Seq<char> {
    before + key + "'"@
}

/// The error of a failed retrieval.
pub open spec fn get_failed(bucket: Seq<char>, key: Seq<char>, failure: S3Failure) -> ErrorView {
    if misconfigured(failure) {
        bucket_error(bucket)
    } else if not_found(failure) {
        ErrorView::NotFound(key)
    } else {
        ErrorView::Storage {
            message: about("S3 get failed for key '"@, key),
            source: Some(failure.source@),
        }
    }
}

/// The outcome of asking whether an object exists.
pub open spec fn head_outcome(
    bucket: Seq<char>,
    key: Seq<char>,
    reply: core::result::Result<(), S3Failure>,
) -> core::result::Result<bool, ErrorView> {
    match reply {
        Ok(()) => Ok(true),
        Err(failure) => if misconfigured(failure) {
            Err(bucket_error(bucket))
        } else if not_found(failure) {
            Ok(false)
        } else {
            Err(
                ErrorView::Storage {
                    message: about("S3 head failed for key '"@, key),
                    source: Some(failure.source@),
                },
            )
        },
    }
}

/// The size of an object as the service tells it.
pub open spec fn object_size(size: Option<i64>) -> u64 {
    match size {
        Some(n) => #[verifier::truncate] (n as u64),
        None => 0,
    }
}

/// The instant of a time as the service tells it; the epoch where it does not,
/// or where the calendar cannot represent it.
pub open spec fn object_time(t: Option<(i64, u32)>) -> Timestamp {
    match t {
        Some((secs, nanos)) => timestamp::instant(secs, nanos),
        None => timestamp::epoch(),
    }
}

/// The metadata of an object under the given key.
pub open spec fn object_meta(key: Seq<char>, object: S3Object) -> BlobMetaView {
    BlobMetaView {
        key,
        stored_size: object_size(object.size),
        modified_at: object_time(object.last_modified),
        etag: types::text_view(object.etag),
    }
}

/// Whether a failure has the given code.
fn code_is(failure: &S3Failure, code: &str) -> (r: bool)
    ensures
        r == has_code(*failure, code@),
{
    match &failure.code {
        Some(c) => text::str_eq(c.as_str(), code),
        None => false,
    }
}

/// Whether a failure means that the object is missing, as opposed to the bucket.
pub fn is_not_found(failure: &S3Failure) -> (r: bool)
    ensures
        r == not_found(*failure),
{
    code_is(failure, "NoSuchKey") || code_is(failure, "NotFound")
}

/// Whether a failure means that the bucket does not exist.
pub fn is_misconfigured(failure: &S3Failure) -> (r: bool)
    ensures
        r == misconfigured(*failure),
{
    code_is(failure, "NoSuchBucket")
}

/// The error of a missing bucket.
fn missing_bucket(bucket: &str) -> (r: BlobStorageError)
    ensures
        r@ == bucket_error(bucket@),
{
    BlobStorageError::BackendMisconfigured(
        text::concat3("S3 bucket '", bucket, "' does not exist or is not accessible"),
    )
}

/// The error of a failed request that is described by `message`.
fn request_error(bucket: &str, failure: S3Failure, message: String) -> (r: BlobStorageError)
    ensures
        r@ == request_failed(bucket@, failure, message@),
{
    if is_misconfigured(&failure) {
        missing_bucket(bucket)
    } else {
        BlobStorageError::Storage { message, source: Some(failure.source) }
    }
}

/// The instant of a time as the service tells it.
pub fn s3_time_to_utc(t: Option<(i64, u32)>) -> (r: Timestamp)
    ensures
        r == object_time(t),
{
    match t {
        Some((secs, nanos)) => timestamp_or_epoch(secs, nanos),
        None => Timestamp::default(),
    }
}

/// The metadata of an object under the given key.
fn meta_of_object(key: String, object: S3Object) -> (r: BlobMeta)
    ensures
        r@ == object_meta(key@, object),
{
    BlobMeta {
        key,
        stored_size: match object.size {
            Some(n) => #[verifier::truncate] (n as u64),
            None => 0,
        },
        modified_at: s3_time_to_utc(object.last_modified),
        etag: object.etag,
    }
}

impl<C> S3BlobStore<C> {
    /// The name of the bucket.
    pub closed spec fn bucket(&self) -> Seq<char> {
        self.bucket@
    }

    /// The client.
    pub closed spec fn client(&self) -> C {
        self.client
    }

    /// The size of a part.
    pub closed spec fn part_size(&self) -> u64 {
        self.part_size
    }

    /// Parts are as large as the service demands.
    #[verifier::type_invariant]
    spec fn wf(&self) -> bool {
        self.part_size >= MIN_MULTIPART_PART_SIZE
    }

    /// A store of objects in the given bucket.
    pub fn new(client: C, bucket: &str) -> (r: Self)
        ensures
            r.client() == client,
            r.bucket() == bucket@,
            r.part_size() == DEFAULT_MULTIPART_PART_SIZE,
    {
        S3BlobStore { client, bucket: bucket.to_owned(), part_size: DEFAULT_MULTIPART_PART_SIZE }
    }

    /// The same store with another part size; sizes that the service would not
    /// accept are raised to the smallest one that it does.
    pub fn with_multipart_part_size(self, size: u64) -> (r: Self)
        ensures
            r.client() == self.client(),
            r.bucket() == self.bucket(),
            r.part_size() == if size >= MIN_MULTIPART_PART_SIZE {
                size
            } else {
                MIN_MULTIPART_PART_SIZE
            },
    {
        let part_size: u64 = if size >= MIN_MULTIPART_PART_SIZE {
            size
        } else {
            MIN_MULTIPART_PART_SIZE
        };
        S3BlobStore { client: self.client, bucket: self.bucket, part_size }
    }

    /// The size of a part.
    pub fn multipart_part_size(&self) -> (r: u64)
        ensures
            r == self.part_size(),
            r >= MIN_MULTIPART_PART_SIZE,
    {
        proof {
            use_type_invariant(self);
        }
        self.part_size
    }

    /// The client.
    pub fn client_ref(&self) -> (r: &C)
        ensures
            *r == self.client(),
    {
        &self.client
    }

    /// The name of the bucket.
    pub fn bucket_name(&self) -> (r: &str)
        ensures
            r@ == self.bucket(),
    {
        self.bucket.as_str()
    }

    /// The key of the object to ask the service for, in order to retrieve a blob or
    /// to check for it. An invalid key is refused before anything is sent.
    pub fn read_request(&self, key: &str) -> (r: Result<String>)
        ensures
            match validate::validation(key@) {
                Ok(()) => r matches Ok(k) && k@ == key@,
                Err(e) => r matches Err(f) && f@ == e,
            },
    {
        match validate_blob_key(key) {
            Ok(()) => Ok(key.to_owned()),
            Err(e) => Err(e),
        }
    }

    /// The error of a failed retrieval.
    pub fn get_object_error(&self, key: &str, failure: S3Failure) -> (r: BlobStorageError)
        ensures
            r@ == get_failed(self.bucket(), key@, failure),
    {
        if is_misconfigured(&failure) {
            missing_bucket(self.bucket.as_str())
        } else if is_not_found(&failure) {
            BlobStorageError::NotFound(key.to_owned())
        } else {
            BlobStorageError::Storage {
                message: text::concat3("S3 get failed for key '", key, "'"),
                source: Some(failure.source),
            }
        }
    }

    /// Whether an object exists, from the answer to a head request.
    pub fn head_response(&self, key: &str, reply: core::result::Result<(), S3Failure>) -> (r:
        Result<bool>)
        ensures
            error::result_view(r) == head_outcome(self.bucket(), key@, reply),
    {
        match reply {
            Ok(()) => Ok(true),
            Err(failure) => if is_misconfigured(&failure) {
                Err(missing_bucket(self.bucket.as_str()))
            } else if is_not_found(&failure) {
                Ok(false)
            } else {
                Err(
                    BlobStorageError::Storage {
                        message: text::concat3("S3 head failed for key '", key, "'"),
                        source: Some(failure.source),
                    },
                )
            },
        }
    }

    /// The metadata of a retrieved object.
    pub fn object_metadata(&self, key: &str, object: S3Object) -> (r: BlobMeta)
        ensures
            r@ == object_meta(key@, object),
    {
        meta_of_object(key.to_owned(), object)
    }
}

} // verus!
