//! Error types of the storage layer, with the texts they render to.

use vstd::prelude::*;

use crate::text::concat;
use crate::text::decimal_text;

verus! {

/// The rendered messages of an underlying cause and of the causes behind it,
/// outermost first.
#[derive(Debug)]
pub struct ErrorSource {
    pub messages: Vec<String>,
}

impl View for ErrorSource {
    type V = Seq<Seq<char>>;

    open spec fn view(&self) -> Seq<Seq<char>> {
        self.messages.deep_view()
    }
}

/// The view of an optional cause.
pub open spec fn source_view(source: Option<ErrorSource>) -> Option<Seq<Seq<char>>> {
    match source {
        Some(s) => Some(s@),
        None => None,
    }
}

/// What an I/O failure was about, as far as storage decides on it.
#[derive(Debug, Clone, Copy, PartialEq, Eq, Structural)]
pub enum IoErrorKind {
    /// The file or directory does not exist.
    NotFound,
    /// The operating system refused the access.
    PermissionDenied,
    /// Anything else.
    Other,
}

/// A failed I/O operation.
#[derive(Debug)]
pub struct IoFailure {
    pub kind: IoErrorKind,
    /// The rendered message of the failure.
    pub message: String,
    /// The rendered messages of the causes behind it.
    pub causes: Vec<String>,
}

impl IoFailure {
    /// The cause that an error reports for this failure.
    pub open spec fn source_spec(&self) -> Seq<Seq<char>> {
        seq![self.message@] + self.causes.deep_view()
    }

    /// The failure as the source of a storage error.
    pub fn into_source(self) -> (r: ErrorSource)
        ensures
            r@ == self.source_spec(),
    {
        chain(self.message, self.causes)
    }
}

/// A cause from its own message and those behind it.
fn chain(message: String, causes: Vec<String>) -> (r: ErrorSource)
    ensures
        r@ == seq![message@] + causes.deep_view(),
{
    let mut messages: Vec<String> = Vec::new();
    messages.push(message);
    let mut behind = causes;
    messages.append(&mut behind);
    let r = ErrorSource { messages };
    assert(r@ =~= seq![message@] + causes.deep_view());
    r
}

/// Why a single key of a batch operation failed.
#[derive(Debug, Clone)]
pub enum PerKeyError {
    /// The key does not exist.
    NotFound,
    /// The backend refused the operation.
    PermissionDenied(String),
    /// Any other per-key failure.
    Unknown { message: String },
}

/// The mathematical value of a [`PerKeyError`].
pub enum PerKeyErrorView {
    NotFound,
    PermissionDenied(Seq<char>),
    Unknown { message: Seq<char> },
}

impl View for PerKeyError {
    type V = PerKeyErrorView;

    open spec fn view(&self) -> PerKeyErrorView {
        match self {
            PerKeyError::NotFound => PerKeyErrorView::NotFound,
            PerKeyError::PermissionDenied(m) => PerKeyErrorView::PermissionDenied(m@),
            PerKeyError::Unknown { message } => PerKeyErrorView::Unknown { message: message@ },
        }
    }
}

impl PerKeyErrorView {
    /// The rendered text.
    pub open spec fn text(self) -> Seq<char> {
        match self {
            PerKeyErrorView::NotFound => "not found"@,
            PerKeyErrorView::PermissionDenied(m) => "permission denied: "@ + m,
            PerKeyErrorView::Unknown { message } => "unknown: "@ + message,
        }
    }
}

impl PerKeyError {
    /// The text of the error.
    pub fn to_string(&self) -> (r: String)
        ensures
            r@ == self@.text(),
    {
        match self {
            PerKeyError::NotFound => "not found".to_owned(),
            PerKeyError::PermissionDenied(m) => concat("permission denied: ", m.as_str()),
            PerKeyError::Unknown { message } => concat("unknown: ", message.as_str()),
        }
    }
}

/// A key of a batch operation together with its failure.
#[derive(Debug, Clone)]
pub struct KeyError {
    /// The key that failed.
    pub key: String,
    /// Why it failed.
    pub error: PerKeyError,
}

/// The mathematical value of a [`KeyError`].
pub struct KeyErrorView {
    pub key: Seq<char>,
    pub error: PerKeyErrorView,
}

impl View for KeyError {
    type V = KeyErrorView;

    open spec fn view(&self) -> KeyErrorView {
        KeyErrorView { key: self.key@, error: self.error@ }
    }
}

impl DeepView for KeyError {
    type V = KeyErrorView;

    open spec fn deep_view(&self) -> KeyErrorView {
        self@
    }
}

/// A batch operation of which at least one key failed.
#[derive(Debug, Clone)]
pub struct BatchError {
    /// Keys that were processed.
    pub succeeded: Vec<String>,
    /// Keys that failed, with the failure of each.
    pub errors: Vec<KeyError>,
}

/// The mathematical value of a [`BatchError`].
#[verifier::ext_equal]
pub struct BatchErrorView {
    pub succeeded: Seq<Seq<char>>,
    pub errors: Seq<KeyErrorView>,
}

impl View for BatchError {
    type V = BatchErrorView;

    open spec fn view(&self) -> BatchErrorView {
        BatchErrorView { succeeded: self.succeeded.deep_view(), errors: self.errors.deep_view() }
    }
}

impl BatchErrorView {
    /// The number of keys that were processed, successfully or not.
    pub open spec fn total(self) -> nat {
        self.succeeded.len() + self.errors.len()
    }

    /// The number of keys that failed.
    pub open spec fn failed(self) -> nat {
        self.errors.len()
    }

    /// The rendered text.
    pub open spec fn text(self) -> Seq<char> {
        "batch operation failed: "@ + crate::text::decimal(self.failed()) + " keys failed ("@
            + crate::text::decimal(self.succeeded.len()) + " succeeded, "@ + crate::text::decimal(
            self.total(),
        ) + " total)"@
    }
}

/// The processed keys are those that succeeded and those that failed.
pub proof fn law_batch_counts(batch: BatchErrorView)
    ensures
        batch.failed() == batch.errors.len(),
        batch.total() == batch.succeeded.len() + batch.failed(),
{
}

impl BatchError {
    /// The number of keys that were processed, successfully or not.
    pub fn total_count(&self) -> (n: usize)
        requires
            self@.total() <= usize::MAX,
        ensures
            n == self@.total(),
    {
        self.succeeded.len() + self.errors.len()
    }

    /// The number of keys that failed.
    pub fn failed_count(&self) -> (n: usize)
        ensures
            n == self@.failed(),
    {
        self.errors.len()
    }

    /// The text of the error.
    pub fn to_string(&self) -> (r: String)
        requires
            self@.total() <= usize::MAX,
        ensures
            r@ == self@.text(),
    {
        let failed: usize = self.failed_count();
        let succeeded: usize = self.succeeded.len();
        let total: usize = self.total_count();
        let mut r: String = "batch operation failed: ".to_owned();
        r.append(decimal_text(failed as u64).as_str());
        r.append(" keys failed (");
        r.append(decimal_text(succeeded as u64).as_str());
        r.append(" succeeded, ");
        r.append(decimal_text(total as u64).as_str());
        r.append(" total)");
        r
    }
}

/// Errors of blob storage.
#[derive(Debug)]
pub enum BlobStorageError {
    /// The blob does not exist.
    NotFound(String),
    /// The blob exists already.
    AlreadyExists(String),
    /// The backend does not support the operation.
    NotSupported(String),
    /// The backend itself is unusable: a missing root directory or bucket.
    BackendMisconfigured(String),
    /// The caller passed an invalid argument.
    InvalidInput(String),
    /// The backend failed.
    Storage { message: String, source: Option<ErrorSource> },
    /// Encryption or decryption failed.
    Encryption { message: String, source: Option<ErrorSource> },
    /// The backend refused the access.
    PermissionDenied(String),
    /// Some keys of a batch operation failed.
    Batch(BatchError),
}

/// The mathematical value of a [`BlobStorageError`].
#[verifier::ext_equal]
pub enum ErrorView {
    NotFound(Seq<char>),
    AlreadyExists(Seq<char>),
    NotSupported(Seq<char>),
    BackendMisconfigured(Seq<char>),
    InvalidInput(Seq<char>),
    Storage { message: Seq<char>, source: Option<Seq<Seq<char>>> },
    Encryption { message: Seq<char>, source: Option<Seq<Seq<char>>> },
    PermissionDenied(Seq<char>),
    Batch(BatchErrorView),
}

impl View for BlobStorageError {
    type V = ErrorView;

    open spec fn view(&self) -> ErrorView {
        match self {
            BlobStorageError::NotFound(m) => ErrorView::NotFound(m@),
            BlobStorageError::AlreadyExists(m) => ErrorView::AlreadyExists(m@),
            BlobStorageError::NotSupported(m) => ErrorView::NotSupported(m@),
            BlobStorageError::BackendMisconfigured(m) => ErrorView::BackendMisconfigured(m@),
            BlobStorageError::InvalidInput(m) => ErrorView::InvalidInput(m@),
            BlobStorageError::Storage { message, source } => ErrorView::Storage {
                message: message@,
                source: source_view(*source),
            },
            BlobStorageError::Encryption { message, source } => ErrorView::Encryption {
                message: message@,
                source: source_view(*source),
            },
            BlobStorageError::PermissionDenied(m) => ErrorView::PermissionDenied(m@),
            BlobStorageError::Batch(b) => ErrorView::Batch(b@),
        }
    }
}

impl ErrorView {
    /// The rendered text.
    pub open spec fn text(self) -> Seq<char> {
        match self {
            ErrorView::NotFound(m) => "blob not found: "@ + m,
            ErrorView::AlreadyExists(m) => "blob already exists: "@ + m,
            ErrorView::NotSupported(m) => "operation not supported: "@ + m,
            ErrorView::BackendMisconfigured(m) => "backend misconfigured: "@ + m,
            ErrorView::InvalidInput(m) => "invalid input: "@ + m,
            ErrorView::Storage { message, .. } => "storage error: "@ + message,
            ErrorView::Encryption { message, .. } => "encryption error: "@ + message,
            ErrorView::PermissionDenied(m) => "permission denied: "@ + m,
            ErrorView::Batch(b) => "batch error: "@ + b.text(),
        }
    }
}

impl ErrorView {
    /// The error of a wrapped store as the caller of the wrapping layer sees it:
    /// a missing blob is reported under the key that the caller gave.
    pub open spec fn missing_as(self, key: Seq<char>) -> ErrorView {
        match self {
            ErrorView::NotFound(_) => ErrorView::NotFound(key),
            other => other,
        }
    }
}

/// The result of a storage operation.
pub type Result<T> = core::result::Result<T, BlobStorageError>;

/// A result with its error taken by its mathematical value.
pub open spec fn result_view<T>(r: Result<T>) -> core::result::Result<T, ErrorView> {
    match r {
        Ok(t) => Ok(t),
        Err(e) => Err(e@),
    }
}

impl BlobStorageError {
    /// The error of a wrapped store as the caller of the wrapping layer sees it:
    /// a missing blob is reported under the key that the caller gave.
    pub fn missing_as(self, key: &str) -> (r: Self)
        ensures
            r@ == self@.missing_as(key@),
    {
        match self {
            BlobStorageError::NotFound(_) => BlobStorageError::NotFound(key.to_owned()),
            other => other,
        }
    }

    /// The text of the error.
    pub fn to_string(&self) -> (r: String)
        requires
            self matches BlobStorageError::Batch(b) ==> b@.total() <= usize::MAX,
        ensures
            r@ == self@.text(),
    {
        match self {
            BlobStorageError::NotFound(m) => concat("blob not found: ", m.as_str()),
            BlobStorageError::AlreadyExists(m) => concat("blob already exists: ", m.as_str()),
            BlobStorageError::NotSupported(m) => concat("operation not supported: ", m.as_str()),
            BlobStorageError::BackendMisconfigured(m) => concat(
                "backend misconfigured: ",
                m.as_str(),
            ),
            BlobStorageError::InvalidInput(m) => concat("invalid input: ", m.as_str()),
            BlobStorageError::Storage { message, .. } => concat(
                "storage error: ",
                message.as_str(),
            ),
            BlobStorageError::Encryption { message, .. } => concat(
                "encryption error: ",
                message.as_str(),
            ),
            BlobStorageError::PermissionDenied(m) => concat("permission denied: ", m.as_str()),
            BlobStorageError::Batch(b) => concat("batch error: ", b.to_string().as_str()),
        }
    }
}

impl From<String> for BlobStorageError {
    fn from(message: String) -> (r: Self) {
        BlobStorageError::Storage { message, source: None }
    }
}

impl vstd::std_specs::convert::FromSpecImpl<String> for BlobStorageError {
    open spec fn obeys_from_spec() -> bool {
        true
    }

    open spec fn from_spec(message: String) -> Self {
        BlobStorageError::Storage { message, source: None }
    }
}

impl From<&str> for BlobStorageError {
    fn from(message: &str) -> (r: Self)
        ensures
            r@ == (ErrorView::Storage { message: message@, source: None }),
    {
        BlobStorageError::Storage { message: message.to_owned(), source: None }
    }
}

impl vstd::std_specs::convert::FromSpecImpl<&str> for BlobStorageError {
    open spec fn obeys_from_spec() -> bool {
        false
    }

    open spec fn from_spec(message: &str) -> Self {
        arbitrary()
    }
}

impl From<BatchError> for BlobStorageError {
    fn from(batch: BatchError) -> (r: Self) {
        BlobStorageError::Batch(batch)
    }
}

impl vstd::std_specs::convert::FromSpecImpl<BatchError> for BlobStorageError {
    open spec fn obeys_from_spec() -> bool {
        true
    }

    open spec fn from_spec(batch: BatchError) -> Self {
        BlobStorageError::Batch(batch)
    }
}

/// The storage error that an unspecific I/O failure becomes.
pub open spec fn io_error(failure: IoFailure) -> ErrorView {
    ErrorView::Storage { message: "I/O error"@, source: Some(failure.source_spec()) }
}

impl From<IoFailure> for BlobStorageError {
    fn from(failure: IoFailure) -> (r: Self)
        ensures
            r@ == io_error(failure),
    {
        BlobStorageError::Storage {
            message: "I/O error".to_owned(),
            source: Some(failure.into_source()),
        }
    }
}

impl vstd::std_specs::convert::FromSpecImpl<IoFailure> for BlobStorageError {
    open spec fn obeys_from_spec() -> bool {
        false
    }

    open spec fn from_spec(failure: IoFailure) -> Self {
        arbitrary()
    }
}

/// Errors of an encryption provider.
#[derive(Debug)]
#[non_exhaustive]
pub enum EncryptionError {
    /// The cryptographic operation failed.
    Operation { message: String, source: Option<ErrorSource> },
    /// The header is malformed or damaged.
    InvalidHeader(String),
    /// Reading the input or writing the output failed.
    Io(IoFailure),
}

/// The result of an encryption operation.
pub type EncryptionResult<T> = core::result::Result<T, EncryptionError>;

impl EncryptionError {
    /// The rendered text.
    pub open spec fn text(&self) -> Seq<char> {
        match self {
            EncryptionError::Operation { message, .. } => "encryption operation failed: "@
                + message@,
            EncryptionError::InvalidHeader(m) => "invalid encryption header: "@ + m@,
            EncryptionError::Io(failure) => failure.message@,
        }
    }

    /// The rendered messages of the causes behind the error.
    pub open spec fn causes(&self) -> Seq<Seq<char>> {
        match self {
            EncryptionError::Operation { source: Some(s), .. } => s@,
            EncryptionError::Operation { source: None, .. } => seq![],
            EncryptionError::InvalidHeader(m) => seq![],
            EncryptionError::Io(failure) => failure.causes.deep_view(),
        }
    }

    /// The text of the error.
    pub fn to_string(&self) -> (r: String)
        ensures
            r@ == self.text(),
    {
        match self {
            EncryptionError::Operation { message, .. } => concat(
                "encryption operation failed: ",
                message.as_str(),
            ),
            EncryptionError::InvalidHeader(m) => concat("invalid encryption header: ", m.as_str()),
            EncryptionError::Io(failure) => failure.message.clone(),
        }
    }

    /// The error as the source of a storage error.
    pub fn into_source(self) -> (r: ErrorSource)
        ensures
            r@ == seq![self.text()] + self.causes(),
    {
        let message = self.to_string();
        match self {
            EncryptionError::Operation { source: Some(s), .. } => chain(message, s.messages),
            EncryptionError::Io(failure) => chain(message, failure.causes),
            _ => {
                let none: Vec<String> = Vec::new();
                let r = chain(message, none);
                assert(r@ =~= seq![self.text()] + self.causes());
                r
            },
        }
    }
}

impl From<IoFailure> for EncryptionError {
    fn from(failure: IoFailure) -> (r: Self) {
        EncryptionError::Io(failure)
    }
}

impl vstd::std_specs::convert::FromSpecImpl<IoFailure> for EncryptionError {
    open spec fn obeys_from_spec() -> bool {
        true
    }

    open spec fn from_spec(failure: IoFailure) -> Self {
        EncryptionError::Io(failure)
    }
}

/// A layer that wraps a store changes nothing about an error but the key of a missing
/// blob, which is the key that its caller gave.
pub proof fn law_only_missing_blobs_are_renamed(e: ErrorView, key: Seq<char>)
    ensures
        e is NotFound ==> e.missing_as(key) == ErrorView::NotFound(key),
        !(e is NotFound) ==> e.missing_as(key) == e,
{
}

/// A result keeps its value, and an error all that it says.
pub proof fn law_result_views<T>(t: T, e: BlobStorageError)
    ensures
        result_view(Ok::<T, BlobStorageError>(t)) == Ok::<T, ErrorView>(t),
        result_view(Err::<T, BlobStorageError>(e)) == Err::<T, ErrorView>(e@),
{
}

/// Two errors have the same mathematical value only if they are of the same variant
/// and say the same.
pub proof fn law_error_views_tell_errors_apart(e: BlobStorageError)
    ensures
        match e {
            BlobStorageError::NotFound(m) => e@ == ErrorView::NotFound(m@),
            BlobStorageError::AlreadyExists(m) => e@ == ErrorView::AlreadyExists(m@),
            BlobStorageError::NotSupported(m) => e@ == ErrorView::NotSupported(m@),
            BlobStorageError::BackendMisconfigured(m) => e@ == ErrorView::BackendMisconfigured(m@),
            BlobStorageError::InvalidInput(m) => e@ == ErrorView::InvalidInput(m@),
            BlobStorageError::PermissionDenied(m) => e@ == ErrorView::PermissionDenied(m@),
            BlobStorageError::Storage { message, source } => {
                &&& e@ is Storage
                &&& e@->Storage_message == message@
                &&& source is None ==> e@->Storage_source is None
                &&& source is Some ==> e@->Storage_source is Some && e@->Storage_source->0
                    == source->0.messages.deep_view()
            },
            BlobStorageError::Encryption { message, source } => {
                &&& e@ is Encryption
                &&& e@->Encryption_message == message@
                &&& source is None ==> e@->Encryption_source is None
                &&& source is Some ==> e@->Encryption_source is Some && e@->Encryption_source->0
                    == source->0.messages.deep_view()
            },
            BlobStorageError::Batch(b) => {
                &&& e@ is Batch
                &&& e@->Batch_0.succeeded == b.succeeded.deep_view()
                &&& e@->Batch_0.errors.len() == b.errors.len()
                &&& forall|i: int|
                    0 <= i < b.errors.len() ==> {
                        &&& (#[trigger] e@->Batch_0.errors[i]).key == b.errors[i].key@
                        &&& match b.errors[i].error {
                            PerKeyError::NotFound => e@->Batch_0.errors[i].error
                                == PerKeyErrorView::NotFound,
                            PerKeyError::PermissionDenied(m) => e@->Batch_0.errors[i].error
                                == PerKeyErrorView::PermissionDenied(m@),
                            PerKeyError::Unknown { message } => e@->Batch_0.errors[i].error == (
                            PerKeyErrorView::Unknown { message: message@ }),
                        }
                    }
            },
        },
{
}

/// What an I/O failure becomes: a storage error of which the failure's own message is
/// the outermost cause, followed by the causes behind it in their order. A failure of
/// an encryption provider is passed on with all of its causes too.
pub proof fn law_causes_are_kept(failure: IoFailure, message: String, source: Option<ErrorSource>)
    ensures
        failure.source_spec().len() == failure.causes.len() + 1,
        failure.source_spec()[0] == failure.message@,
        forall|i: int|
            0 <= i < failure.causes.len() ==> #[trigger] failure.source_spec()[i + 1]
                == failure.causes[i]@,
        io_error(failure) == (ErrorView::Storage {
            message: "I/O error"@,
            source: Some(failure.source_spec()),
        }),
        EncryptionError::Io(failure).text() == failure.message@,
        EncryptionError::Io(failure).causes() == failure.causes.deep_view(),
        EncryptionError::InvalidHeader(message).text() == "invalid encryption header: "@ + message@,
        EncryptionError::InvalidHeader(message).causes().len() == 0,
        (EncryptionError::Operation { message, source }).text() == "encryption operation failed: "@
            + message@,
        source is None ==> (EncryptionError::Operation { message, source }).causes().len() == 0,
        source is Some ==> (EncryptionError::Operation { message, source }).causes()
            == source->0.messages.deep_view(),
{
    let all = failure.source_spec();
    assert forall|i: int| 0 <= i < failure.causes.len() implies #[trigger] all[i + 1]
        == failure.causes[i]@ by {
        assert(all[i + 1] == failure.causes.deep_view()[i]);
    }
}

/// The text of an error starts with what went wrong in general and goes on with what
/// the error says of it.
pub proof fn law_error_texts(m: Seq<char>, source: Option<Seq<Seq<char>>>, batch: BatchErrorView)
    ensures
        ErrorView::NotFound(m).text() == "blob not found: "@ + m,
        ErrorView::AlreadyExists(m).text() == "blob already exists: "@ + m,
        ErrorView::NotSupported(m).text() == "operation not supported: "@ + m,
        ErrorView::BackendMisconfigured(m).text() == "backend misconfigured: "@ + m,
        ErrorView::InvalidInput(m).text() == "invalid input: "@ + m,
        (ErrorView::Storage { message: m, source }).text() == "storage error: "@ + m,
        (ErrorView::Encryption { message: m, source }).text() == "encryption error: "@ + m,
        ErrorView::PermissionDenied(m).text() == "permission denied: "@ + m,
        ErrorView::Batch(batch).text() == "batch error: "@ + ("batch operation failed: "@
            + crate::text::decimal(batch.errors.len()) + " keys failed ("@ + crate::text::decimal(
            batch.succeeded.len(),
        ) + " succeeded, "@ + crate::text::decimal(batch.succeeded.len() + batch.errors.len())
            + " total)"@),
        PerKeyErrorView::NotFound.text() == "not found"@,
        PerKeyErrorView::PermissionDenied(m).text() == "permission denied: "@ + m,
        (PerKeyErrorView::Unknown { message: m }).text() == "unknown: "@ + m,
{
}

/// A text becomes a storage error with that text as its message and without a cause; a
/// batch error and an I/O failure stay what they are.
pub proof fn law_conversions_keep_what_is_said(
    message: String,
    batch: BatchError,
    failure: IoFailure,
)
    ensures
        <BlobStorageError as vstd::std_specs::convert::FromSpec<String>>::from_spec(message) == (
        BlobStorageError::Storage { message, source: None }),
        <BlobStorageError as vstd::std_specs::convert::FromSpec<BatchError>>::from_spec(batch)
            == BlobStorageError::Batch(batch),
        <EncryptionError as vstd::std_specs::convert::FromSpec<IoFailure>>::from_spec(failure)
            == EncryptionError::Io(failure),
        source_view(None) is None,
        forall|s: ErrorSource| #[trigger] source_view(Some(s)) == Some(s.messages.deep_view()),
        forall|s: ErrorSource| #[trigger] s@ == s.messages.deep_view(),
{
}

} // verus!
