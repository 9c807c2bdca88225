//! Blob storage with interchangeable backends and composable layers.
//!
//! Backends keep blobs as files below a directory or as objects in a bucket.
//! Layers around a backend prefix keys, encrypt blobs or clean up. The crate holds
//! what decides: which keys are valid, what is asked of the file system, of the
//! service or of the wrapped store next, and what the answers come to. An
//! operation that waits for answers is given as steps: each step says what to do,
//! and carries what to resume with once that is done.

pub mod batch;
pub mod blob_store;
pub mod buffer;
pub mod builder;
pub mod cleanup;
pub mod encrypt;
pub mod error;
pub mod fs;
pub mod list_filter;
pub mod listing;
pub mod model;
pub mod order;
pub mod prefix;
pub mod s3;
pub mod text;
pub mod timestamp;
pub mod types;
pub mod validate;

pub use blob_store::KeyVisit;
pub use builder::strategies::BackgroundStrategy;
pub use builder::strategies::Interval;
pub use builder::strategies::OnStart;
pub use builder::strategies::Periodic;
pub use builder::BlobStoreBuilder;
pub use builder::CustomChosen;
pub use builder::FsChosen;
pub use builder::NoBackend;
pub use builder::S3Chosen;
pub use cleanup::BlobCleanup;
pub use encrypt::EncryptedBlobStore;
pub use error::BatchError;
pub use error::BlobStorageError;
pub use error::EncryptionError;
pub use error::EncryptionResult;
pub use error::KeyError;
pub use error::PerKeyError;
pub use error::Result;
pub use fs::FsBlobStore;
pub use list_filter::ListFilter;
pub use list_filter::NotFilter;
pub use list_filter::PrefixFilter;
pub use list_filter::SuffixFilter;
pub use prefix::PrefixBlobStore;
pub use s3::S3BlobStore;
pub use timestamp::Timestamp;
pub use types::BlobInput;
pub use types::BlobMeta;
pub use types::CleanupResult;
pub use types::PutResult;
pub use types::RekeyResult;
pub use types::KEY_SEPARATOR;
pub use validate::validate_blob_key;
