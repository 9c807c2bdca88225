//! Blobs as files below a root directory.
//!
//! A key with separators is stored in nested directories: the blob `a/b.txt` is
//! the file `a/b.txt` below the root.

pub mod delete;
pub mod failure_laws;
pub mod get;
pub mod laws;
pub mod put;
pub mod visit_laws;
pub mod walk;

use vstd::prelude::*;

use crate::error;
use crate::error::BlobStorageError;
use crate::error::ErrorView;
use crate::error::IoErrorKind;
use crate::error::IoFailure;
use crate::error::PerKeyError;
use crate::error::PerKeyErrorView;
use crate::error::Result;
use crate::list_filter::ListFilter;
use crate::text;
use crate::timestamp;
use crate::timestamp::timestamp_or_epoch;
use crate::timestamp::Timestamp;
use crate::types;
use crate::types::BlobMeta;
use crate::types::BlobMetaView;
use crate::types::KEY_SEPARATOR;
use crate::validate;
use crate::validate::has_dots;
use crate::validate::refusal;
use crate::validate::validate_blob_key;

verus! {

/// A store of files below a root directory.
pub struct FsBlobStore {
    root: String,
}

/// When a file was last modified, as far as the system tells.
#[derive(Clone, Copy)]
pub enum FileTime {
    /// The system does not tell.
    Unknown,
    /// Before 1970.
    BeforeEpoch,
    /// At this many seconds and nanoseconds after the start of 1970.
    SinceEpoch { secs: u64, nanos: u32 },
}

/// What the system tells of what is at a path.
#[derive(Clone, Copy)]
pub struct FileStat {
    pub len: u64,
    pub modified: FileTime,
    /// Whether it is a file, and no directory.
    pub is_file: bool,
}

/// The instant of a file time. Times that the system does not tell, that lie
/// before the epoch or that the calendar cannot represent count as the epoch.
pub open spec fn file_time(t: FileTime) -> Timestamp {
    match t {
        FileTime::Unknown => timestamp::epoch(),
        FileTime::BeforeEpoch => timestamp::instant(0, 0),
        FileTime::SinceEpoch { secs, nanos } => timestamp::instant(
            #[verifier::truncate] (secs as i64),
            nanos,
        ),
    }
}

/// The metadata of the blob in a file.
pub open spec fn stat_meta(key: Seq<char>, stat: FileStat) -> BlobMetaView {
    BlobMetaView {
        key,
        stored_size: stat.len,
        modified_at: file_time(stat.modified),
        etag: None,
    }
}

/// A root directory with a separator at its end; the empty path stays empty.
pub open spec fn normalised(root: Seq<char>) -> Seq<char> {
    if root.len() == 0 || root.last() == KEY_SEPARATOR {
        root
    } else {
        root.push(KEY_SEPARATOR)
    }
}

/// A path up to and with its last separator.
pub open spec fn dir_part(path: Seq<char>) -> Seq<char>
    decreases path.len(),
{
    if path.len() == 0 || path.last() == KEY_SEPARATOR {
        path
    } else {
        dir_part(path.drop_last())
    }
}

/// Whether any component of a hint is `.` or `..`.
pub open spec fn hint_has_dots(components: Seq<Seq<char>>) -> bool {
    exists|i: int| 0 <= i < components.len() && validate::is_dots(#[trigger] components[i])
}

/// The message with which a prefix hint is refused; `None` for a usable one.
pub open spec fn prefix_hint_error(hint: Seq<char>) -> Option<Seq<char>> {
    if hint.len() > 0 && hint.first() == KEY_SEPARATOR {
        Some(validate::quoting("prefix hint must not be absolute"@, hint))
    } else if hint.contains('\\') {
        Some(validate::quoting("prefix hint must not contain backslash"@, hint))
    } else if hint_has_dots(text::split(hint, KEY_SEPARATOR)) {
        Some(
            validate::quoting("prefix hint must not contain '..' or '.' components"@, hint),
        )
    } else {
        None
    }
}

/// The directory below which the keys lie to which a hint narrows a listing.
pub open spec fn start_dir(root: Seq<char>, hint: Option<Seq<char>>) -> Seq<char> {
    match hint {
        Some(h) => dir_part(root + h),
        None => root,
    }
}

/// The directory at which a listing or visit starts, from what the system told of
/// the root directory and from the hint of the filter. An unusable root, and an
/// unusable hint, are refused before a directory is walked.
pub open spec fn listing_start_of(
    root: Seq<char>,
    reply: core::result::Result<bool, IoFailure>,
    hint: Option<Seq<char>>,
) -> core::result::Result<Seq<char>, ErrorView> {
    match root_check(root, reply) {
        Err(e) => Err(e),
        Ok(()) => match hint {
            Some(h) => match prefix_hint_error(h) {
                Some(message) => Err(ErrorView::InvalidInput(message)),
                None => Ok(start_dir(root, hint)),
            },
            None => Ok(start_dir(root, hint)),
        },
    }
}

/// `std::path::Path`'s `Debug`: the text that it renders a path to.
pub uninterp spec fn path_debug_text(path: Seq<char>) -> Seq<char>;

/// `std::path::Path`'s `Debug`: the path in quotes, with special characters
/// escaped. The text depends on the path alone; how it is escaped is left
/// unsaid.
#[verifier::external_body]
fn path_debug(path: &str) -> (r: String)
    ensures
        r@ == path_debug_text(path@),
{
    format!("{:?}", std::path::Path::new(path))
}

/// The failure of deleting one file.
pub open spec fn per_key_failure(failure: IoFailure) -> PerKeyErrorView {
    match failure.kind {
        IoErrorKind::PermissionDenied => PerKeyErrorView::PermissionDenied(failure.message@),
        _ => PerKeyErrorView::Unknown { message: failure.message@ },
    }
}

/// The error of a failed I/O operation on the root or on a file, with a text of
/// its own.
pub open spec fn io_error_about(
    before: Seq<char>,
    subject: Seq<char>,
    after: Seq<char>,
    failure: IoFailure,
) -> ErrorView {
    ErrorView::Storage {
        message: before + subject + after,
        source: Some(failure.source_spec()),
    }
}

/// The outcome of looking at the root directory.
pub open spec fn root_check(
    root: Seq<char>,
    reply: core::result::Result<bool, IoFailure>,
) -> core::result::Result<(), ErrorView> {
    let shown = path_debug_text(root);
    match reply {
        Ok(true) => Ok(()),
        Ok(false) => Err(
            ErrorView::BackendMisconfigured("FS root '"@ + shown + "' is not a directory"@),
        ),
        Err(failure) => if failure.kind == IoErrorKind::NotFound {
            Err(
                ErrorView::BackendMisconfigured(
                    "FS root directory '"@ + shown + "' does not exist"@,
                ),
            )
        } else {
            Err(io_error_about("cannot stat FS root '"@, shown, "'"@, failure))
        },
    }
}

/// The file of a key, where the key is valid.
pub open spec fn path_of(root: Seq<char>, key: Seq<char>) -> core::result::Result<
    Seq<char>,
    ErrorView,
> {
    match validate::validation(key) {
        Err(e) => Err(e),
        Ok(()) => Ok(root + key),
    }
}

/// Whether there is a blob at a path: a file that the system can look at.
pub open spec fn holds_blob(reply: core::result::Result<FileStat, IoFailure>) -> bool {
    reply matches Ok(stat) && stat.is_file
}

/// Whether a blob can be opened, from whether its file is there.
pub open spec fn retrieval(key: Seq<char>, file_exists: bool) -> core::result::Result<
    (),
    ErrorView,
> {
    if file_exists {
        Ok(())
    } else {
        Err(ErrorView::NotFound(key))
    }
}

/// The outcome of looking at the file of a key that the caller named. A directory
/// is no blob.
pub open spec fn file_check(
    key: Seq<char>,
    reply: core::result::Result<FileStat, IoFailure>,
) -> core::result::Result<BlobMetaView, ErrorView> {
    match reply {
        Ok(stat) => if stat.is_file {
            Ok(stat_meta(key, stat))
        } else {
            Err(ErrorView::NotFound(key))
        },
        Err(failure) => if failure.kind == IoErrorKind::NotFound {
            Err(ErrorView::NotFound(key))
        } else {
            Err(io_error_about("stat failed for '"@, key, "'"@, failure))
        },
    }
}

/// The outcome of looking at the file of a key that was found in a listing.
pub open spec fn listed_file_check(
    key: Seq<char>,
    reply: core::result::Result<FileStat, IoFailure>,
) -> core::result::Result<BlobMetaView, ErrorView> {
    match reply {
        Ok(stat) => Ok(stat_meta(key, stat)),
        Err(failure) => Err(io_error_about("stat failed for '"@, key, "'"@, failure)),
    }
}

/// A storage error with a text of its own, for a failed I/O operation.
fn storage_error(before: &str, subject: &str, after: &str, failure: IoFailure) -> (r:
    BlobStorageError)
    ensures
        r@ == io_error_about(before@, subject@, after@, failure),
{
    BlobStorageError::Storage {
        message: text::concat3(before, subject, after),
        source: Some(failure.into_source()),
    }
}

/// The instant of a file time.
pub fn system_time_to_utc(t: FileTime) -> (r: Timestamp)
    ensures
        r == file_time(t),
{
    match t {
        FileTime::Unknown => Timestamp::default(),
        FileTime::BeforeEpoch => timestamp_or_epoch(0, 0),
        FileTime::SinceEpoch { secs, nanos } => timestamp_or_epoch(
            #[verifier::truncate] (secs as i64),
            nanos,
        ),
    }
}

/// The metadata of the blob in a file.
fn meta_of_stat(key: &str, stat: FileStat) -> (r: BlobMeta)
    ensures
        r@ == stat_meta(key@, stat),
{
    BlobMeta {
        key: key.to_owned(),
        stored_size: stat.len,
        modified_at: system_time_to_utc(stat.modified),
        etag: None,
    }
}

/// The failure of deleting one file.
pub fn map_io_error_to_per_key(failure: IoFailure) -> (r: PerKeyError)
    ensures
        r@ == per_key_failure(failure),
{
    match failure.kind {
        IoErrorKind::PermissionDenied => PerKeyError::PermissionDenied(failure.message),
        _ => PerKeyError::Unknown { message: failure.message },
    }
}

/// Refuse a prefix hint that would lead out of the root directory.
pub fn validate_prefix_hint(hint: &str) -> (r: Result<()>)
    ensures
        error::result_view(r) == match prefix_hint_error(hint@) {
            None => Ok(()),
            Some(message) => Err(ErrorView::InvalidInput(message)),
        },
{
    let cs = text::chars_of(hint);
    if cs.len() > 0 && cs[0] == KEY_SEPARATOR {
        return Err(refusal("prefix hint must not be absolute", hint));
    }
    if text::contains_char(hint, '\\') {
        return Err(refusal("prefix hint must not contain backslash", hint));
    }
    let components = text::split_on(hint, KEY_SEPARATOR);
    let ghost all = components.deep_view();
    let mut i: usize = 0;
    while i < components.len()
        invariant
            i <= components.len(),
            all == components.deep_view(),
            all == text::split(hint@, KEY_SEPARATOR),
            forall|j: int| 0 <= j < i ==> !validate::is_dots(#[trigger] all[j]),
            !(hint@.len() > 0 && hint@.first() == KEY_SEPARATOR),
            !hint@.contains('\\'),
        decreases components.len() - i,
    {
        assert(all[i as int] == components[i as int]@);
        if has_dots(components[i].as_str()) {
            return Err(refusal("prefix hint must not contain '..' or '.' components", hint));
        }
        i = i + 1;
    }
    Ok(())
}

/// A path up to and with its last separator.
fn directory_of(path: &str) -> (r: String)
    ensures
        r@ == dir_part(path@),
{
    let cs = text::chars_of(path);
    let mut n: usize = cs.len();
    assert(path@.take(n as int) =~= path@);
    while n > 0 && cs[n - 1] != KEY_SEPARATOR
        invariant
            cs@ == path@,
            n <= cs.len(),
            dir_part(path@.take(n as int)) == dir_part(path@),
        decreases n,
    {
        assert(path@.take(n as int).drop_last() =~= path@.take(n - 1));
        n = n - 1;
    }
    let r = path.substring_char(0, n).to_owned();
    assert(r@ =~= path@.take(n as int));
    r
}

/// Whether a directory that was looked at is there. A missing one is no failure.
pub fn dir_exists(reply: core::result::Result<bool, IoFailure>) -> (r: Result<bool>)
    ensures
        error::result_view(r) == match reply {
            Ok(is_dir) => Ok::<bool, ErrorView>(is_dir),
            Err(failure) => if failure.kind == IoErrorKind::NotFound {
                Ok(false)
            } else {
                Err(error::io_error(failure))
            },
        },
{
    match reply {
        Ok(is_dir) => Ok(is_dir),
        Err(failure) => if failure.kind == IoErrorKind::NotFound {
            Ok(false)
        } else {
            Err(BlobStorageError::from(failure))
        },
    }
}

/// Whether a root directory is usable, from what the system told of it.
fn check_root(root: &str, reply: core::result::Result<bool, IoFailure>) -> (r: Result<()>)
    ensures
        error::result_view(r) == root_check(root@, reply),
{
    match reply {
        Ok(true) => Ok(()),
        Ok(false) => Err(
            BlobStorageError::BackendMisconfigured(
                text::concat3("FS root '", path_debug(root).as_str(), "' is not a directory"),
            ),
        ),
        Err(failure) => if failure.kind == IoErrorKind::NotFound {
            Err(
                BlobStorageError::BackendMisconfigured(
                    text::concat3(
                        "FS root directory '",
                        path_debug(root).as_str(),
                        "' does not exist",
                    ),
                ),
            )
        } else {
            Err(storage_error("cannot stat FS root '", path_debug(root).as_str(), "'", failure))
        },
    }
}

impl FsBlobStore {
    /// The root directory: empty, or with a separator at its end.
    pub closed spec fn root(&self) -> Seq<char> {
        self.root@
    }

    /// The root is normalised.
    #[verifier::type_invariant]
    spec fn wf(&self) -> bool {
        normalised(self.root@) == self.root@
    }

    /// A store below the given directory.
    pub fn new(root: &str) -> (r: Self)
        ensures
            r.root() == normalised(root@),
    {
        let cs = text::chars_of(root);
        let mut path: String = root.to_owned();
        if cs.len() > 0 && cs[cs.len() - 1] != KEY_SEPARATOR {
            path.append("/");
            proof {
                reveal_strlit("/");
                assert(path@ =~= root@.push(KEY_SEPARATOR));
            }
        }
        FsBlobStore { root: path }
    }

    /// The root directory.
    pub fn root_path(&self) -> (r: &str)
        ensures
            r@ == self.root(),
            normalised(r@) == r@,
    {
        proof {
            use_type_invariant(self);
        }
        self.root.as_str()
    }

    /// The error of a root directory that could not be created.
    pub fn create_error(&self, failure: IoFailure) -> (r: BlobStorageError)
        ensures
            r@ == io_error_about(
                "cannot create root '"@,
                path_debug_text(self.root()),
                "'"@,
                failure,
            ),
    {
        storage_error(
            "cannot create root '",
            path_debug(self.root.as_str()).as_str(),
            "'",
            failure,
        )
    }

    /// The file of a key: the path of the root, extended by the key.
    pub fn key_to_path(&self, key: &str) -> (r: Result<String>)
        ensures
            path_of(self.root(), key@) == match r {
                Ok(path) => Ok::<Seq<char>, ErrorView>(path@),
                Err(e) => Err(e@),
            },
    {
        match validate_blob_key(key) {
            Err(e) => Err(e),
            Ok(()) => Ok(text::concat(self.root.as_str(), key)),
        }
    }

    /// Whether the root directory is usable, from what the system told of it.
    pub fn ensure_root(&self, reply: core::result::Result<bool, IoFailure>) -> (r: Result<()>)
        ensures
            error::result_view(r) == root_check(self.root(), reply),
    {
        check_root(self.root.as_str(), reply)
    }

    /// The metadata of a blob that was found in a listing, from what the system
    /// told of its file.
    pub fn listed_file_meta(
        &self,
        key: &str,
        reply: core::result::Result<FileStat, IoFailure>,
    ) -> (r: Result<BlobMeta>)
        ensures
            types::meta_result_view(r) == listed_file_check(key@, reply),
    {
        match reply {
            Ok(stat) => Ok(meta_of_stat(key, stat)),
            Err(failure) => Err(storage_error("stat failed for '", key, "'", failure)),
        }
    }

    /// Begin a listing or visit: the directory at which its walk starts.
    pub fn listing_start<F: ListFilter + ?Sized>(
        &self,
        filter: &F,
        reply: core::result::Result<bool, IoFailure>,
    ) -> (r: Result<String>)
        ensures
            listing_start_of(self.root(), reply, filter.hint()) == match r {
                Ok(dir) => Ok::<Seq<char>, ErrorView>(dir@),
                Err(e) => Err(e@),
            },
    {
        match self.ensure_root(reply) {
            Err(e) => Err(e),
            Ok(()) => self.prefix_subdir(filter.prefix_hint()),
        }
    }

    /// The directory at which a listing starts. A hint that ends with a separator
    /// names that directory; another hint names files in its parent directory.
    pub fn prefix_subdir(&self, hint: Option<&str>) -> (r: Result<String>)
        ensures
            match r {
                Ok(dir) => {
                    &&& hint matches Some(h) ==> prefix_hint_error(h@) is None
                    &&& dir@ == start_dir(
                        self.root(),
                        crate::list_filter::hint_view(hint),
                    )
                },
                Err(e) => hint matches Some(h) && prefix_hint_error(h@) is Some && e@
                    == ErrorView::InvalidInput(prefix_hint_error(h@)->0),
            },
    {
        match hint {
            None => Ok(self.root.clone()),
            Some(h) => match validate_prefix_hint(h) {
                Err(e) => Err(e),
                Ok(()) => Ok(directory_of(text::concat(self.root.as_str(), h).as_str())),
            },
        }
    }
}

/// A file that was last modified at a time that the calendar represents counts as
/// modified at exactly that time: the same seconds and the same nanoseconds. A time
/// that the system does not tell, and one before or after the calendar, is the epoch.
pub proof fn law_file_times_are_kept(secs: u64, nanos: u32)
    ensures
        secs <= 8_210_266_876_799 && (nanos < 1_000_000_000 || (secs % 60 == 59 && nanos
            < 2_000_000_000)) ==> file_time(FileTime::SinceEpoch { secs, nanos }).secs == secs
            && file_time(FileTime::SinceEpoch { secs, nanos }).nanos == nanos,
        8_210_266_876_799 < secs <= i64::MAX || nanos >= 2_000_000_000 ==> file_time(
            FileTime::SinceEpoch { secs, nanos },
        ) == (Timestamp { secs: 0, nanos: 0 }),
        file_time(FileTime::SinceEpoch { secs, nanos }) == (Timestamp { secs: 0, nanos: 0 }) || (
        #[verifier::truncate] (file_time(FileTime::SinceEpoch { secs, nanos }).secs as u64) == secs
            && file_time(FileTime::SinceEpoch { secs, nanos }).nanos == nanos),
        file_time(FileTime::Unknown) == (Timestamp { secs: 0, nanos: 0 }),
        file_time(FileTime::BeforeEpoch) == (Timestamp { secs: 0, nanos: 0 }),
{
    assert(#[verifier::truncate] ((#[verifier::truncate] (secs as i64)) as u64) == secs)
        by (bit_vector);
}

/// The metadata that a retrieval gives for a file has the key that was asked for, the
/// length of the file as its size and the file's own modification time, and it is what
/// a listing with metadata gives for the same file. There is metadata for files only.
pub proof fn law_metadata_of_a_file(key: Seq<char>, stat: FileStat)
    ensures
        stat.is_file ==> {
            &&& file_check(key, Ok(stat)) matches Ok(meta)
            &&& meta.key == key
            &&& meta.stored_size == stat.len
            &&& meta.etag is None
            &&& stat.modified matches FileTime::SinceEpoch { secs, nanos } ==> {
                &&& secs <= 8_210_266_876_799 && nanos < 1_000_000_000 ==> meta.modified_at.secs
                    == secs && meta.modified_at.nanos == nanos
                &&& secs <= 8_210_266_876_799 && secs % 60 == 59 && nanos < 2_000_000_000
                    ==> meta.modified_at.secs == secs && meta.modified_at.nanos == nanos
                &&& 8_210_266_876_799 < secs <= i64::MAX || nanos >= 2_000_000_000
                    ==> meta.modified_at.secs == 0 && meta.modified_at.nanos == 0
            }
            &&& !(stat.modified is SinceEpoch) ==> meta.modified_at.secs == 0
                && meta.modified_at.nanos == 0
            &&& meta.modified_at == file_time(stat.modified)
            &&& listed_file_check(key, Ok(stat)) == Ok::<BlobMetaView, ErrorView>(meta)
        },
        !stat.is_file ==> file_check(key, Ok(stat)) == Err::<BlobMetaView, ErrorView>(
            ErrorView::NotFound(key),
        ),
        listed_file_check(key, Ok(stat)) matches Ok(meta) && {
            &&& meta.key == key
            &&& meta.stored_size == stat.len
            &&& meta.modified_at == file_time(stat.modified)
            &&& meta.etag is None
        },
{
}

/// What the three ways of asking for one blob say of the same file agree: it can be
/// opened exactly when there is a blob, and it has metadata exactly then. A missing
/// file is a missing blob; what cannot be looked at is no blob either, but asking for
/// its metadata tells why.
pub proof fn law_retrievals_agree(
    key: Seq<char>,
    reply: core::result::Result<FileStat, IoFailure>,
)
    ensures
        holds_blob(reply) <==> reply is Ok && reply->Ok_0.is_file,
        retrieval(key, holds_blob(reply)) is Ok <==> holds_blob(reply),
        file_check(key, reply) is Ok <==> holds_blob(reply),
        retrieval(key, holds_blob(reply)) matches Err(e) ==> e == ErrorView::NotFound(key),
        reply matches Err(failure) ==> {
            &&& failure.kind == IoErrorKind::NotFound ==> file_check(key, reply) == Err::<
                BlobMetaView,
                ErrorView,
            >(ErrorView::NotFound(key))
            &&& failure.kind != IoErrorKind::NotFound ==> file_check(key, reply) == Err::<
                BlobMetaView,
                ErrorView,
            >(
                ErrorView::Storage {
                    message: "stat failed for '"@ + key + "'"@,
                    source: Some(failure.source_spec()),
                },
            )
            &&& listed_file_check(key, reply) == Err::<BlobMetaView, ErrorView>(
                ErrorView::Storage {
                    message: "stat failed for '"@ + key + "'"@,
                    source: Some(failure.source_spec()),
                },
            )
        },
{
}

/// The root directory is usable exactly when it is there and a directory. One that is
/// missing or something else is a misconfigured backend; one that cannot be looked at
/// is a failure of the backend with the cause of it.
pub proof fn law_root_is_a_directory(
    root: Seq<char>,
    reply: core::result::Result<bool, IoFailure>,
)
    ensures
        root_check(root, reply) is Ok <==> reply == Ok::<bool, IoFailure>(true),
        reply == Ok::<bool, IoFailure>(false) ==> root_check(root, reply) == Err::<(), ErrorView>(
            ErrorView::BackendMisconfigured(
                "FS root '"@ + path_debug_text(root) + "' is not a directory"@,
            ),
        ),
        reply matches Err(failure) && failure.kind == IoErrorKind::NotFound ==> root_check(
            root,
            reply,
        ) == Err::<(), ErrorView>(
            ErrorView::BackendMisconfigured(
                "FS root directory '"@ + path_debug_text(root) + "' does not exist"@,
            ),
        ),
        reply matches Err(failure) && failure.kind != IoErrorKind::NotFound ==> root_check(
            root,
            reply,
        ) == Err::<(), ErrorView>(
            ErrorView::Storage {
                message: "cannot stat FS root '"@ + path_debug_text(root) + "'"@,
                source: Some(reply->Err_0.source_spec()),
            },
        ),
{
}

/// The root directory is kept with one separator at its end, which is added where it
/// is missing. Only the empty path has none. So the file of a valid key is the key in
/// the root directory.
pub proof fn law_files_lie_in_the_root(root: Seq<char>, key: Seq<char>)
    ensures
        root.len() == 0 ==> normalised(root).len() == 0,
        root.len() > 0 ==> normalised(root).last() == '/',
        root.len() > 0 && root.last() == '/' ==> normalised(root) == root,
        root.len() > 0 && root.last() != '/' ==> normalised(root) == root + seq!['/'],
        normalised(normalised(root)) == normalised(root),
        path_of(root, key) is Ok <==> validate::validation(key) is Ok,
        path_of(root, key) matches Ok(path) ==> path == root + key,
        path_of(root, key) matches Err(e) ==> validate::validation(key) == Err::<(), ErrorView>(e),
{
    assert(root.push('/') =~= root + seq!['/']);
}

/// The directory of a path is the longest beginning of it that ends with a separator,
/// or nothing where there is none.
pub proof fn law_directory_of_a_path(path: Seq<char>)
    ensures
        dir_part(path).is_prefix_of(path),
        dir_part(path).len() > 0 ==> dir_part(path).last() == '/',
        forall|i: int| dir_part(path).len() <= i < path.len() ==> #[trigger] path[i] != '/',
    decreases path.len(),
{
    if path.len() > 0 && path.last() != '/' {
        let first = path.drop_last();
        law_directory_of_a_path(first);
        assert forall|i: int| dir_part(path).len() <= i < path.len() implies #[trigger] path[i]
            != '/' by {
            if i < path.len() - 1 {
                assert(first[i] == path[i]);
            }
        }
    } else {
        assert(path.take(path.len() as int) =~= path);
    }
}

/// A hint is usable exactly when it is not absolute, has no backslash and no component
/// that is one or two dots. Refusals name the first of these faults and quote the hint.
pub proof fn law_usable_hints(hint: Seq<char>)
    ensures
        prefix_hint_error(hint) is None <==> {
            &&& hint.len() == 0 || hint[0] != '/'
            &&& !hint.contains('\\')
            &&& forall|i: int, j: int| #[trigger]
                text::is_piece(hint, '/', i, j) ==> {
                    &&& !(j == i + 1 && hint[i] == '.')
                    &&& !(j == i + 2 && hint[i] == '.' && hint[i + 1] == '.')
                }
        },
        prefix_hint_error(hint) matches Some(message) ==> message == if hint.len() > 0 && hint[0]
            == '/' {
            "prefix hint must not be absolute"@ + ": '"@ + hint + "'"@
        } else if hint.contains('\\') {
            "prefix hint must not contain backslash"@ + ": '"@ + hint + "'"@
        } else {
            "prefix hint must not contain '..' or '.' components"@ + ": '"@ + hint + "'"@
        },
{
    let components = text::split(hint, '/');
    if hint_has_dots(components) {
        let n = choose|n: int|
            0 <= n < components.len() && validate::is_dots(#[trigger] components[n]);
        let (i, j) = text::law_split_adds_nothing(hint, '/', n);
        validate::law_dots(components[n]);
        assert(text::is_piece(hint, '/', i, j));
    } else {
        assert forall|i: int, j: int| #[trigger] text::is_piece(hint, '/', i, j) implies {
            &&& !(j == i + 1 && hint[i] == '.')
            &&& !(j == i + 2 && hint[i] == '.' && hint[i + 1] == '.')
        } by {
            text::law_split_loses_nothing(hint, '/', i, j);
            let n = choose|n: int|
                0 <= n < components.len() && components[n] == hint.subrange(i, j);
            assert(!validate::is_dots(components[n]));
            validate::law_dots(hint.subrange(i, j));
        }
    }
}

/// A listing starts at the root, or where the filter has a hint at the directory that
/// the hint leads to. It does not start where the root is unusable; nor where the hint
/// is. The root is looked at first.
pub proof fn law_listing_start(
    root: Seq<char>,
    reply: core::result::Result<bool, IoFailure>,
    hint: Option<Seq<char>>,
)
    ensures
        root_check(root, reply) matches Err(e) ==> listing_start_of(root, reply, hint) == Err::<
            Seq<char>,
            ErrorView,
        >(e),
        root_check(root, reply) is Ok && hint is None ==> listing_start_of(root, reply, hint)
            == Ok::<Seq<char>, ErrorView>(root),
        root_check(root, reply) is Ok && hint is Some ==> match prefix_hint_error(hint->0) {
            Some(message) => listing_start_of(root, reply, hint) == Err::<Seq<char>, ErrorView>(
                ErrorView::InvalidInput(message),
            ),
            None => listing_start_of(root, reply, hint) matches Ok(dir) && {
                &&& dir.is_prefix_of(root + hint->0)
                &&& dir.len() > 0 ==> dir.last() == '/'
                &&& forall|i: int|
                    dir.len() <= i < (root + hint->0).len() ==> #[trigger] (root + hint->0)[i]
                        != '/'
            },
        },
{
    if hint is Some {
        law_directory_of_a_path(root + hint->0);
    }
}

/// A file that may not be deleted fails as such; every other failure is told by its
/// message.
pub proof fn law_failed_deletes_keep_their_reason(failure: IoFailure)
    ensures
        failure.kind == IoErrorKind::PermissionDenied ==> per_key_failure(failure)
            == PerKeyErrorView::PermissionDenied(failure.message@),
        failure.kind != IoErrorKind::PermissionDenied ==> per_key_failure(failure) == (
        PerKeyErrorView::Unknown { message: failure.message@ }),
{
}

} // verus!
