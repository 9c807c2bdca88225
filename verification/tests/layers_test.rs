//! The file store and the layers around it, driven over files in memory.

use std::cell::Cell;
use std::cell::RefCell;
use std::collections::BTreeMap;
use std::collections::VecDeque;
use std::rc::Rc;

use xtax_blob_storage::blob_store::after_visit;
use xtax_blob_storage::blob_store::VisitStep;
use xtax_blob_storage::builder::maintenance::queue_error;
use xtax_blob_storage::builder::maintenance::worker_step;
use xtax_blob_storage::builder::maintenance::QueueFailure;
use xtax_blob_storage::builder::maintenance::WorkerEvent;
use xtax_blob_storage::builder::maintenance::WorkerStep;
use xtax_blob_storage::builder::maintenance::QUEUE_CAPACITY;
use xtax_blob_storage::builder::strategies::manual_signalled;
use xtax_blob_storage::builder::strategies::manual_triggered;
use xtax_blob_storage::builder::strategies::next_signal;
use xtax_blob_storage::builder::strategies::AwaitTick;
use xtax_blob_storage::builder::strategies::ManualStep;
use xtax_blob_storage::builder::strategies::PeriodicStep;
use xtax_blob_storage::builder::strategies::Signal;
use xtax_blob_storage::builder::Backend;
use xtax_blob_storage::builder::BuildPlan;
use xtax_blob_storage::builder::Handles;
use xtax_blob_storage::builder::Wrap;
use xtax_blob_storage::cleanup::CleanupStep;
use xtax_blob_storage::encrypt::get::DecryptStep;
use xtax_blob_storage::encrypt::get::DecryptedStream;
use xtax_blob_storage::encrypt::get::ExistsStep;
use xtax_blob_storage::encrypt::get::GetStep;
use xtax_blob_storage::encrypt::get::HeaderReply;
use xtax_blob_storage::encrypt::get::HeaderStep;
use xtax_blob_storage::encrypt::listing::ListStep;
use xtax_blob_storage::encrypt::listing::MetaStep;
use xtax_blob_storage::encrypt::put::PutStep as EncryptedPutStep;
use xtax_blob_storage::encrypt::rekey::RekeyStep;
use xtax_blob_storage::error::IoErrorKind;
use xtax_blob_storage::error::IoFailure;
use xtax_blob_storage::fs::delete::DeleteStep;
use xtax_blob_storage::fs::put::PutStep as FsPutStep;
use xtax_blob_storage::fs::walk::Entry;
use xtax_blob_storage::fs::walk::EntryKind;
use xtax_blob_storage::fs::walk::Relative;
use xtax_blob_storage::fs::walk::WalkStep;
use xtax_blob_storage::fs::get::AwaitLook;
use xtax_blob_storage::fs::get::ReadStep;
use xtax_blob_storage::fs::FileStat;
use xtax_blob_storage::fs::FileTime;
use xtax_blob_storage::listing::KeyListing;
use xtax_blob_storage::listing::MetaListing;
use xtax_blob_storage::BackgroundStrategy;
use xtax_blob_storage::BatchError;
use xtax_blob_storage::BlobCleanup;
use xtax_blob_storage::BlobInput;
use xtax_blob_storage::BlobMeta;
use xtax_blob_storage::BlobStorageError;
use xtax_blob_storage::BlobStoreBuilder;
use xtax_blob_storage::EncryptedBlobStore;
use xtax_blob_storage::EncryptionError;
use xtax_blob_storage::EncryptionResult;
use xtax_blob_storage::FsBlobStore;
use xtax_blob_storage::Interval;
use xtax_blob_storage::KeyError;
use xtax_blob_storage::ListFilter;
use xtax_blob_storage::NoBackend;
use xtax_blob_storage::NotFilter;
use xtax_blob_storage::OnStart;
use xtax_blob_storage::PerKeyError;
use xtax_blob_storage::Periodic;
use xtax_blob_storage::PrefixBlobStore;
use xtax_blob_storage::PrefixFilter;
use xtax_blob_storage::PutResult;
use xtax_blob_storage::Result;
use xtax_blob_storage::SuffixFilter;

type Visitor<'a> = &'a mut dyn FnMut(&str, Option<&BlobMeta>) -> Result<bool>;

/// A store whose operations run to their end at once.
trait Store {
    fn put(&self, blobs: Vec<BlobInput<Vec<u8>>>) -> Result<PutResult>;
    fn get(&self, key: &str) -> Result<Vec<u8>>;
    fn delete(&self, keys: &[&str]) -> Result<()>;
    fn list(&self, filter: &dyn ListFilter) -> Result<Vec<String>>;
    fn has(&self, key: &str) -> Result<bool>;
    fn get_with_metadata(&self, key: &str) -> Result<(BlobMeta, Vec<u8>)>;
    fn list_with_metadata(&self, filter: &dyn ListFilter) -> Result<Vec<BlobMeta>>;
    fn visit(&self, filter: &dyn ListFilter, visitor: Visitor) -> Result<()>;
}

fn owned(keys: &[&str]) -> Vec<String> {
    keys.iter().map(|k| k.to_string()).collect()
}

fn io_failure(kind: IoErrorKind, message: &str) -> IoFailure {
    IoFailure { kind, message: message.to_string(), causes: vec![] }
}

/// The file store over files in memory.
struct Files {
    store: FsBlobStore,
    files: RefCell<BTreeMap<String, Vec<u8>>>,
    root_missing: Cell<bool>,
    root_is_file: Cell<bool>,
    undeletable: RefCell<Vec<(String, IoErrorKind)>>,
    unwritable: RefCell<Vec<(String, IoErrorKind)>>,
    walked: RefCell<Vec<String>>,
}

impl Files {
    fn new() -> Rc<Files> {
        Rc::new(Files {
            store: FsBlobStore::new("/data"),
            files: RefCell::new(BTreeMap::new()),
            root_missing: Cell::new(false),
            root_is_file: Cell::new(false),
            undeletable: RefCell::new(vec![]),
            unwritable: RefCell::new(vec![]),
            walked: RefCell::new(vec![]),
        })
    }

    fn stat_root(&self) -> std::result::Result<bool, IoFailure> {
        if self.root_missing.get() {
            Err(io_failure(IoErrorKind::NotFound, "No such file or directory"))
        } else {
            Ok(!self.root_is_file.get())
        }
    }

    fn stat(&self, path: &str) -> std::result::Result<FileStat, IoFailure> {
        match self.files.borrow().get(path) {
            Some(data) => Ok(FileStat {
                len: data.len() as u64,
                modified: FileTime::SinceEpoch { secs: 1_700_000_000, nanos: 5 },
                is_file: true,
            }),
            None if self.is_dir(&format!("{}/", path)) => {
                Ok(FileStat { len: 4096, modified: FileTime::Unknown, is_file: false })
            }
            None => Err(io_failure(IoErrorKind::NotFound, "No such file or directory")),
        }
    }

    /// What is at the path of a key, and how the operation goes on.
    fn look(&self, key: &str) -> Result<(String, AwaitLook)> {
        let mut step = self.store.get(key);
        loop {
            step = match step {
                ReadStep::CheckRoot { then } => then.checked(self.stat_root()),
                ReadStep::Look { path, then } => return Ok((path, then)),
                ReadStep::Done(e) => return Err(e),
            };
        }
    }

    fn is_dir(&self, dir: &str) -> bool {
        dir == self.store.root_path() || self.files.borrow().keys().any(|p| p.starts_with(dir))
    }

    fn entries(&self, dir: &str) -> Vec<Entry<String>> {
        let mut entries: Vec<Entry<String>> = vec![];
        let mut seen: Vec<String> = vec![];
        for path in self.files.borrow().keys() {
            if let Some(rest) = path.strip_prefix(dir) {
                match rest.find('/') {
                    Some(n) => {
                        let sub = format!("{}{}", dir, &rest[..n + 1]);
                        if !seen.contains(&sub) {
                            seen.push(sub.clone());
                            entries.push(Entry { path: sub, kind: EntryKind::Directory });
                        }
                    }
                    None => {
                        let relative = match path.strip_prefix(self.store.root_path()) {
                            Some(r) => Relative::Text(r.to_string()),
                            None => Relative::Outside,
                        };
                        entries.push(Entry {
                            path: path.clone(),
                            kind: EntryKind::File(relative),
                        });
                    }
                }
            }
        }
        entries.reverse();
        entries
    }

    fn walk(
        &self,
        filter: &dyn ListFilter,
        found: &mut dyn FnMut(String, String) -> Result<VisitStep>,
    ) -> Result<()> {
        let start = self.store.listing_start(filter, self.stat_root())?;
        let mut open: Vec<Entry<String>> = vec![];
        let mut step = self.store.walk(start, '/');
        loop {
            step = match step {
                WalkStep::CheckDir(then) => {
                    let reply = Ok(self.is_dir(&then.dir));
                    then.checked(reply)
                }
                WalkStep::OpenDir(then) => {
                    self.walked.borrow_mut().push(then.dir.clone());
                    open = self.entries(&then.dir);
                    then.opened(Ok(()))
                }
                WalkStep::NextEntry(then) => then.entry(filter, Ok(open.pop())),
                WalkStep::Found { key, path, then } => match found(key, path)? {
                    VisitStep::GoOn => then.entry(filter, Ok(open.pop())),
                    VisitStep::Stop(r) => return r,
                },
                WalkStep::Done => return Ok(()),
                WalkStep::Failed(e) => return Err(e),
            };
        }
    }
}

impl Store for Files {
    fn put(&self, blobs: Vec<BlobInput<Vec<u8>>>) -> Result<PutResult> {
        let mut step = self.store.put(blobs);
        loop {
            step = match step {
                FsPutStep::CheckRoot { then } => then.checked(self.stat_root()),
                FsPutStep::Write { dir, path, data, then } => {
                    assert!(path.starts_with(&dir));
                    let refused =
                        self.unwritable.borrow().iter().find(|u| u.0 == path).map(|u| u.1);
                    match refused {
                        Some(kind) => then.written(Err(io_failure(kind, "disk"))),
                        None => {
                            self.files.borrow_mut().insert(path.clone(), data);
                            let reply = self.stat(&path);
                            then.written(reply)
                        }
                    }
                }
                FsPutStep::Done(r) => return r,
            };
        }
    }

    fn get(&self, key: &str) -> Result<Vec<u8>> {
        let (path, then) = self.look(key)?;
        then.found(self.stat(&path))?;
        Ok(self.files.borrow()[&path].clone())
    }

    fn delete(&self, keys: &[&str]) -> Result<()> {
        let mut step = self.store.delete(owned(keys));
        loop {
            step = match step {
                DeleteStep::CheckRoot { then } => then.checked(self.stat_root()),
                DeleteStep::Remove { path, then } => {
                    let refused =
                        self.undeletable.borrow().iter().find(|u| u.0 == path).map(|u| u.1);
                    let reply = match refused {
                        Some(kind) => Err(io_failure(kind, "refused")),
                        None => match self.files.borrow_mut().remove(&path) {
                            Some(_) => Ok(()),
                            None => Err(io_failure(IoErrorKind::NotFound, "gone")),
                        },
                    };
                    then.removed(reply)
                }
                DeleteStep::Done(r) => return r,
            };
        }
    }

    fn list(&self, filter: &dyn ListFilter) -> Result<Vec<String>> {
        let mut keys = KeyListing::new();
        self.walk(filter, &mut |key, _| {
            keys.push(key);
            Ok(VisitStep::GoOn)
        })?;
        Ok(keys.finish())
    }

    fn has(&self, key: &str) -> Result<bool> {
        let (path, then) = self.look(key)?;
        Ok(then.blob_exists(self.stat(&path)))
    }

    fn get_with_metadata(&self, key: &str) -> Result<(BlobMeta, Vec<u8>)> {
        let (path, then) = self.look(key)?;
        let meta = then.file_meta(self.stat(&path))?;
        Ok((meta, self.get(key)?))
    }

    fn list_with_metadata(&self, filter: &dyn ListFilter) -> Result<Vec<BlobMeta>> {
        let mut metas = MetaListing::new();
        self.walk(filter, &mut |key, path| {
            metas.push(self.store.listed_file_meta(&key, self.stat(&path))?);
            Ok(VisitStep::GoOn)
        })?;
        Ok(metas.finish())
    }

    fn visit(&self, filter: &dyn ListFilter, visitor: Visitor) -> Result<()> {
        self.walk(filter, &mut |key, path| {
            let meta = self.store.listed_file_meta(&key, self.stat(&path))?;
            Ok(after_visit(visitor(&key, Some(&meta))))
        })
    }
}

impl Store for PrefixBlobStore<Rc<dyn Store>> {
    fn put(&self, blobs: Vec<BlobInput<Vec<u8>>>) -> Result<PutResult> {
        self.put_response(self.inner.put(self.put_request(blobs)?))
    }

    fn get(&self, key: &str) -> Result<Vec<u8>> {
        self.get_response(key, self.inner.get(&self.read_request(key)?))
    }

    fn delete(&self, keys: &[&str]) -> Result<()> {
        let request = self.delete_request(&owned(keys))?;
        let refs: Vec<&str> = request.iter().map(|k| k.as_str()).collect();
        self.delete_response(self.inner.delete(&refs))
    }

    fn list(&self, filter: &dyn ListFilter) -> Result<Vec<String>> {
        self.list_response(filter, self.inner.list(&self.inner_filter(filter)))
    }

    fn has(&self, key: &str) -> Result<bool> {
        self.get_response(key, self.inner.has(&self.read_request(key)?))
    }

    fn get_with_metadata(&self, key: &str) -> Result<(BlobMeta, Vec<u8>)> {
        let request = self.read_request(key)?;
        self.get_with_metadata_response(key, self.inner.get_with_metadata(&request))
    }

    fn list_with_metadata(&self, filter: &dyn ListFilter) -> Result<Vec<BlobMeta>> {
        let reply = self.inner.list_with_metadata(&self.inner_filter(filter));
        self.list_with_metadata_response(filter, reply)
    }

    fn visit(&self, filter: &dyn ListFilter, visitor: Visitor) -> Result<()> {
        self.inner.visit(&self.inner_filter(filter), &mut |key, meta| {
            match self.visit_item(filter, key, meta) {
                Some((k, m)) => visitor(&k, m.as_ref()),
                None => Ok(true),
            }
        })
    }
}

/// Shifts bytes; the header holds the shift, wrapped with the id of a master key.
#[derive(Clone, Copy)]
struct Shift {
    shift: u8,
    master_key_id: u8,
    fails: bool,
    decrypt_fails: bool,
    reports: bool,
}

impl Shift {
    fn new(shift: u8) -> Shift {
        Shift::rekeyable(shift, 0)
    }

    fn rekeyable(shift: u8, master_key_id: u8) -> Shift {
        Shift { shift, master_key_id, fails: false, decrypt_fails: false, reports: true }
    }

    fn encrypt(&self, data: &[u8]) -> (Vec<u8>, Option<EncryptionResult<Vec<u8>>>) {
        let out = data.iter().map(|b| b.wrapping_add(self.shift)).collect();
        if !self.reports {
            return (out, None);
        }
        if self.fails {
            let e = EncryptionError::Operation { message: "broken".to_string(), source: None };
            return (out, Some(Err(e)));
        }
        (out, Some(Ok(vec![self.shift ^ self.master_key_id, self.master_key_id])))
    }

    fn decrypt(&self, data: &[u8], header: &[u8]) -> EncryptionResult<Vec<u8>> {
        if self.decrypt_fails {
            return Err(EncryptionError::Operation {
                message: "decryption intentionally failed".to_string(),
                source: None,
            });
        }
        let dek = header[0] ^ header[1];
        Ok(data.iter().map(|b| b.wrapping_sub(dek)).collect())
    }

    fn rekey_header(&self, header: &[u8]) -> EncryptionResult<Option<Vec<u8>>> {
        if header[1] == self.master_key_id {
            return Ok(None);
        }
        let dek = header[0] ^ header[1];
        Ok(Some(vec![dek ^ self.master_key_id, self.master_key_id]))
    }
}

struct Encrypted(EncryptedBlobStore<Rc<dyn Store>, Shift>);

impl Encrypted {
    fn new(inner: Rc<dyn Store>, encryption: Shift) -> Encrypted {
        Encrypted(EncryptedBlobStore::new(inner, encryption))
    }
}

fn header_reply(r: Result<Vec<u8>>) -> HeaderReply {
    match r {
        Ok(bytes) => HeaderReply::Bytes(bytes),
        Err(e) => HeaderReply::Refused(e),
    }
}

fn decrypted(store: &Encrypted, key: &str, data: Vec<u8>, header: Vec<u8>) -> Result<Vec<u8>> {
    let mut stream = DecryptedStream::new();
    let plain = match store.0.encryption.decrypt(&data, &header) {
        Ok(plain) => plain,
        Err(cause) => {
            stream.fail(key, cause);
            vec![]
        }
    };
    assert!(stream.read(1).is_none());
    match stream.read(0) {
        Some(text) => Err(BlobStorageError::from(text)),
        None => Ok(plain),
    }
}

fn rekey(store: &Encrypted) -> Result<u64> {
    let (filter, mut run) = store.0.rekey();
    store.0.inner.visit(&filter, &mut |key, _| {
        match run.fetched(key, header_reply(store.0.inner.get(key))) {
            RekeyStep::Rewrap { header, then } => {
                if let Some(input) = then.rewrapped(store.0.encryption.rekey_header(&header)) {
                    run.stored(&store.0.inner.put(vec![input]));
                }
                Ok(true)
            }
            RekeyStep::Skip => Ok(true),
            RekeyStep::Failed(e) => Err(e),
        }
    })?;
    Ok(run.result().rekeyed_count)
}

impl Store for Encrypted {
    fn put(&self, blobs: Vec<BlobInput<Vec<u8>>>) -> Result<PutResult> {
        let mut step = self.0.put(blobs);
        loop {
            step = match step {
                EncryptedPutStep::StoreData { input, then } => {
                    let (data, header) = self.0.encryption.encrypt(&input.data);
                    let size = input.size_hint.unwrap();
                    let reply =
                        self.0.inner.put(vec![BlobInput::with_size(&input.key, data, size)]);
                    then.stored(reply, header)
                }
                EncryptedPutStep::StoreHeader { input, then } => {
                    then.stored(self.0.inner.put(vec![input]))
                }
                EncryptedPutStep::RollBack { key, then } => {
                    let _ = self.0.inner.delete(&[&key]);
                    then.rolled_back()
                }
                EncryptedPutStep::Done(r) => return r,
            };
        }
    }

    fn get(&self, key: &str) -> Result<Vec<u8>> {
        let then = match self.0.get(key) {
            GetStep::FetchData { key: k, then } => {
                assert_eq!(k, key);
                then
            }
            GetStep::Done(e) => return Err(e),
        };
        match then.fetched(self.0.inner.get(key)) {
            HeaderStep::FetchHeader { header_key, then } => {
                match then.fetched(header_reply(self.0.inner.get(&header_key))) {
                    DecryptStep::Decrypt { data, header } => decrypted(self, key, data, header),
                    DecryptStep::Done(e) => Err(e),
                }
            }
            HeaderStep::Done(e) => Err(e),
        }
    }

    fn delete(&self, keys: &[&str]) -> Result<()> {
        let named = owned(keys);
        let request = self.0.delete_request(&named)?;
        let refs: Vec<&str> = request.iter().map(|k| k.as_str()).collect();
        self.0.delete_response(&named, self.0.inner.delete(&refs))
    }

    fn list(&self, filter: &dyn ListFilter) -> Result<Vec<String>> {
        let all = self.0.inner.list(&self.0.inner_filter());
        let mut step = self.0.list(filter, all);
        loop {
            step = match step {
                ListStep::CheckHeader { header_key, then } => {
                    then.answered(self.0.inner.has(&header_key))
                }
                ListStep::Done(r) => return r,
            };
        }
    }

    fn has(&self, key: &str) -> Result<bool> {
        let step = match self.0.blob_exists(key) {
            ExistsStep::CheckData { key: k, then } => then.answered(self.0.inner.has(&k)),
            other => other,
        };
        match step {
            ExistsStep::CheckHeader { header_key } => self.0.inner.has(&header_key),
            ExistsStep::Done(r) => r,
            ExistsStep::CheckData { .. } => unreachable!(),
        }
    }

    fn get_with_metadata(&self, key: &str) -> Result<(BlobMeta, Vec<u8>)> {
        let then = match self.0.get(key) {
            GetStep::FetchData { then, .. } => then,
            GetStep::Done(e) => return Err(e),
        };
        match then.fetched(self.0.inner.get_with_metadata(key)) {
            HeaderStep::FetchHeader { header_key, then } => {
                match then.fetched(header_reply(self.0.inner.get(&header_key))) {
                    DecryptStep::Decrypt { data, header } => {
                        let meta = self.0.logical_meta(key, data.0);
                        Ok((meta, decrypted(self, key, data.1, header)?))
                    }
                    DecryptStep::Done(e) => Err(e),
                }
            }
            HeaderStep::Done(e) => Err(e),
        }
    }

    fn list_with_metadata(&self, filter: &dyn ListFilter) -> Result<Vec<BlobMeta>> {
        let all = self.0.inner.list(&self.0.inner_filter());
        let mut step = self.0.list_with_metadata(filter, all);
        loop {
            step = match step {
                MetaStep::CheckHeader { header_key, then } => {
                    then.answered(self.0.inner.has(&header_key))
                }
                MetaStep::FetchMeta { key, then } => {
                    then.fetched(self.0.inner.get_with_metadata(&key).map(|m| m.0))
                }
                MetaStep::Done(r) => return r,
            };
        }
    }

    fn visit(&self, filter: &dyn ListFilter, visitor: Visitor) -> Result<()> {
        self.0.inner.visit(&self.0.inner_filter(), &mut |key, meta| {
            let header_key = match self.0.visit_header_key(key) {
                Some(h) => h,
                None => return Ok(true),
            };
            let has_header = self.0.inner.has(&header_key)?;
            if self.0.shows(filter, key, meta, has_header) {
                visitor(key, meta)
            } else {
                Ok(true)
            }
        })
    }
}

fn cleanup<Q: Fn(&str, &BlobMeta) -> bool>(layer: &BlobCleanup<Rc<dyn Store>, Q>) -> Result<u64> {
    let (filter, run) = layer.cleanup();
    let mut current = Some(run);
    layer.inner.visit(&filter, &mut |key, meta| {
        let run = current.take().unwrap();
        current = Some(finish(layer, run.visited(key, layer.selects(key, meta)))?);
        Ok(true)
    })?;
    let run = finish(layer, current.take().unwrap().flush())?;
    Ok(run.result().deleted_count)
}

fn finish<Q>(
    layer: &BlobCleanup<Rc<dyn Store>, Q>,
    step: CleanupStep,
) -> Result<xtax_blob_storage::cleanup::CleanupRun> {
    match step {
        CleanupStep::Next(run) => Ok(run),
        CleanupStep::Delete { keys, then } => {
            let refs: Vec<&str> = keys.iter().map(|k| k.as_str()).collect();
            then.deleted(layer.inner.delete(&refs))
        }
    }
}

fn encrypted(inner: Rc<dyn Store>, shift: u8) -> Encrypted {
    Encrypted::new(inner, Shift::new(shift))
}

fn prefixed(inner: Rc<dyn Store>, prefix: &str) -> PrefixBlobStore<Rc<dyn Store>> {
    PrefixBlobStore::new(inner, prefix)
}

fn blob(key: &str, data: &[u8]) -> BlobInput<Vec<u8>> {
    BlobInput::new(key, data.to_vec())
}

fn visited_keys(store: &dyn Store, filter: &dyn ListFilter) -> Vec<String> {
    let mut keys = vec![];
    store
        .visit(filter, &mut |key, _| {
            keys.push(key.to_string());
            Ok(true)
        })
        .unwrap();
    keys
}

/// A store that answers with prepared errors.
struct ErrorMockStore {
    get_error: RefCell<Option<BlobStorageError>>,
    exists_error: RefCell<Option<BlobStorageError>>,
    delete_error: RefCell<Option<BlobStorageError>>,
}

impl ErrorMockStore {
    fn new() -> ErrorMockStore {
        ErrorMockStore {
            get_error: RefCell::new(None),
            exists_error: RefCell::new(None),
            delete_error: RefCell::new(None),
        }
    }
}

impl Store for ErrorMockStore {
    fn put(&self, _blobs: Vec<BlobInput<Vec<u8>>>) -> Result<PutResult> {
        Ok(PutResult::multiple(vec![]))
    }
    fn get(&self, _key: &str) -> Result<Vec<u8>> {
        Err(self
            .get_error
            .borrow_mut()
            .take()
            .unwrap_or(BlobStorageError::NotFound("mock".to_string())))
    }
    fn delete(&self, _keys: &[&str]) -> Result<()> {
        match self.delete_error.borrow_mut().take() {
            Some(e) => Err(e),
            None => Ok(()),
        }
    }
    fn list(&self, _filter: &dyn ListFilter) -> Result<Vec<String>> {
        Ok(vec![])
    }
    fn has(&self, _key: &str) -> Result<bool> {
        match self.exists_error.borrow_mut().take() {
            Some(e) => Err(e),
            None => Ok(true),
        }
    }
    fn get_with_metadata(&self, key: &str) -> Result<(BlobMeta, Vec<u8>)> {
        self.get(key).map(|d| (BlobMeta::for_key(key), d))
    }
    fn list_with_metadata(&self, _filter: &dyn ListFilter) -> Result<Vec<BlobMeta>> {
        Ok(vec![])
    }
    fn visit(&self, _filter: &dyn ListFilter, _visitor: Visitor) -> Result<()> {
        Ok(())
    }
}

/// Lets the first puts pass and fails the others.
struct NthPutFailingStore {
    inner: Rc<dyn Store>,
    pass: u32,
    calls: Cell<u32>,
}

impl Store for NthPutFailingStore {
    fn put(&self, blobs: Vec<BlobInput<Vec<u8>>>) -> Result<PutResult> {
        let call = self.calls.get();
        self.calls.set(call + 1);
        if call < self.pass {
            self.inner.put(blobs)
        } else {
            Err(BlobStorageError::from(format!("simulated header write failure (call #{call})")))
        }
    }
    fn get(&self, key: &str) -> Result<Vec<u8>> {
        self.inner.get(key)
    }
    fn delete(&self, keys: &[&str]) -> Result<()> {
        self.inner.delete(keys)
    }
    fn list(&self, filter: &dyn ListFilter) -> Result<Vec<String>> {
        self.inner.list(filter)
    }
    fn has(&self, key: &str) -> Result<bool> {
        self.inner.has(key)
    }
    fn get_with_metadata(&self, key: &str) -> Result<(BlobMeta, Vec<u8>)> {
        self.inner.get_with_metadata(key)
    }
    fn list_with_metadata(&self, filter: &dyn ListFilter) -> Result<Vec<BlobMeta>> {
        self.inner.list_with_metadata(filter)
    }
    fn visit(&self, filter: &dyn ListFilter, visitor: Visitor) -> Result<()> {
        self.inner.visit(filter, visitor)
    }
}

// The file store.

#[test]
fn edge_cases_test_test_empty_blob() {
    let store = Files::new();
    store.put(vec![blob("empty.txt", b"")]).unwrap();
    assert!(store.get("empty.txt").unwrap().is_empty());
    let (meta, _) = store.get_with_metadata("empty.txt").unwrap();
    assert_eq!(meta.key, "empty.txt");
    assert_eq!(meta.stored_size, 0);
}

#[test]
fn test_keys_with_special_characters() {
    let store = Files::new();
    let special_keys = vec![
        "spaces in key.txt",
        "dash-ed-key.txt",
        "under_score.txt",
        "dots.and.dots.txt",
        "plus+plus.txt",
        "hash#tag.txt",
        "question?mark.txt",
        "ampers&and.txt",
        "percent%25.txt",
    ];
    for (i, key) in special_keys.iter().enumerate() {
        store.put(vec![blob(key, format!("data{}", i).as_bytes())]).unwrap();
    }
    let keys = store.list(&SuffixFilter::new("")).unwrap();
    assert_eq!(keys.len(), special_keys.len());
    for key in &special_keys {
        assert!(!store.get(key).unwrap().is_empty());
    }
}

#[test]
fn test_key_with_unicode() {
    let store = Files::new();
    let key = "příliš/žluťoučký/kůň.txt";
    store.put(vec![blob(key, b"unicode test")]).unwrap();
    assert_eq!(store.get(key).unwrap(), b"unicode test");
    let keys = store.list(&PrefixFilter::new("příliš/")).unwrap();
    assert_eq!(keys.len(), 1);
    assert_eq!(keys[0], key);
}

#[test]
fn test_long_key() {
    let store = Files::new();
    let long_key = "a/".repeat(30) + "long-key-file.txt";
    store.put(vec![blob(&long_key, b"long key test")]).unwrap();
    assert_eq!(store.get(&long_key).unwrap(), b"long key test");
    let keys = store.list(&PrefixFilter::new("a/")).unwrap();
    assert!(!keys.is_empty());
    assert!(keys.contains(&long_key));
}

#[test]
fn test_error_kind_not_found() {
    let store = Files::new();
    assert!(matches!(store.get("nonexistent.txt"), Err(BlobStorageError::NotFound(_))));
    match store.get_with_metadata("nonexistent.txt") {
        Err(err) => {
            let kind_matches = matches!(err, BlobStorageError::NotFound(_))
                || matches!(err, BlobStorageError::Storage { .. });
            assert!(kind_matches);
        }
        Ok(_) => panic!("expected Err for non-existent key"),
    }
    assert!(!store.has("nonexistent.txt").unwrap());
}

#[test]
fn test_delete_multiple_times() {
    let store = Files::new();
    store.put(vec![blob("delete-me.txt", b"data")]).unwrap();
    store.delete(&["delete-me.txt"]).unwrap();
    store.delete(&["delete-me.txt"]).unwrap();
    assert!(store.get("delete-me.txt").is_err());
}

#[test]
fn test_list_empty_store() {
    let store = Files::new();
    assert!(store.list(&SuffixFilter::new("")).unwrap().is_empty());
    assert!(store.list_with_metadata(&SuffixFilter::new("")).unwrap().is_empty());
}

#[test]
fn test_put_multiple_blobs_at_once() {
    let store = Files::new();
    let blobs = vec![
        blob("alpha.txt", b"alpha"),
        blob("beta.txt", b"beta"),
        blob("gamma.txt", b"gamma"),
    ];
    let result = store.put(blobs).unwrap();
    assert_eq!(result.blobs.len(), 3);
    assert_eq!(store.list(&SuffixFilter::new("")).unwrap().len(), 3);
}

#[test]
fn test_list_filter_suffix() {
    let store = Files::new();
    store.put(vec![blob("a.txt", b"a"), blob("b.md", b"b"), blob("c.txt", b"c")]).unwrap();
    assert_eq!(store.list(&SuffixFilter::new(".txt")).unwrap().len(), 2);
    assert_eq!(store.list(&PrefixFilter::new("a")).unwrap(), vec!["a.txt"]);
    let not_txt = NotFilter::new(Box::new(SuffixFilter::new(".txt")));
    assert_eq!(store.list(&not_txt).unwrap(), vec!["b.md"]);
    let excluded = <dyn ListFilter>::exclude_suffix(".txt");
    assert_eq!(store.list(&excluded).unwrap(), vec!["b.md"]);
    let boxed: Box<dyn ListFilter> = Box::new(PrefixFilter::new("a"));
    let not_a = NotFilter::new(boxed);
    assert!(not_a.prefix_hint().is_none());
    assert_eq!(store.list(&not_a).unwrap(), vec!["b.md", "c.txt"]);
}

#[test]
fn test_fs_list_rejects_traversal_dotdot() {
    let err = Files::new().list(&PrefixFilter::new("../")).unwrap_err();
    assert!(matches!(err, BlobStorageError::InvalidInput(_)));
}

#[test]
fn test_fs_list_rejects_traversal_absolute() {
    let err = Files::new().list(&PrefixFilter::new("/tmp")).unwrap_err();
    assert!(matches!(err, BlobStorageError::InvalidInput(_)));
    assert_eq!(err.to_string(), "invalid input: prefix hint must not be absolute: '/tmp'");
}

#[test]
fn test_fs_list_rejects_traversal_arbitrary_dotdot() {
    let err = Files::new().list(&PrefixFilter::new("a/../../x")).unwrap_err();
    assert!(matches!(err, BlobStorageError::InvalidInput(_)));
    assert_eq!(
        err.to_string(),
        "invalid input: prefix hint must not contain '..' or '.' components: 'a/../../x'"
    );
}

#[test]
fn test_fs_visit_rejects_traversal() {
    let err = Files::new().visit(&PrefixFilter::new("../"), &mut |_, _| Ok(true)).unwrap_err();
    assert!(matches!(err, BlobStorageError::InvalidInput(_)));
}

#[test]
fn test_fs_list_with_metadata_rejects_traversal() {
    let err = Files::new().list_with_metadata(&PrefixFilter::new("../")).unwrap_err();
    assert!(matches!(err, BlobStorageError::InvalidInput(_)));
}

#[test]
fn fs_list_rejects_backslash_hint() {
    let err = Files::new().list(&PrefixFilter::new("a\\b")).unwrap_err();
    assert_eq!(err.to_string(), "invalid input: prefix hint must not contain backslash: 'a\\b'");
}

#[test]
fn test_fs_list_missing_prefix_returns_empty() {
    let store = Files::new();
    assert!(store.list(&PrefixFilter::new("missing/")).unwrap().is_empty());
    assert!(store.list(&PrefixFilter::new("a/b/")).unwrap().is_empty());
    assert!(store.list(&PrefixFilter::new("a/b")).unwrap().is_empty());
}

#[test]
fn test_fs_list_with_metadata_missing_prefix_returns_empty() {
    let store = Files::new();
    assert!(store.list_with_metadata(&PrefixFilter::new("nonexistent/")).unwrap().is_empty());
    assert!(store.list_with_metadata(&PrefixFilter::new("x/y/")).unwrap().is_empty());
}

#[test]
fn test_fs_visit_missing_prefix_skips_and_returns_ok() {
    let store = Files::new();
    assert_eq!(visited_keys(&*store, &PrefixFilter::new("missing/")).len(), 0);
    assert_eq!(visited_keys(&*store, &PrefixFilter::new("a/b/")).len(), 0);
}

#[test]
fn test_fs_missing_root_backend_misconfigured() {
    let store = Files::new();
    store.put(vec![blob("key.txt", b"data")]).unwrap();
    store.root_missing.set(true);
    let err = store.has("key.txt").unwrap_err();
    assert!(matches!(err, BlobStorageError::BackendMisconfigured(_)));
    assert!(matches!(store.get("key.txt"), Err(BlobStorageError::BackendMisconfigured(_))));
    let err = store.put(vec![blob("new.txt", b"data")]).unwrap_err();
    assert!(matches!(err, BlobStorageError::BackendMisconfigured(_)));
    let err = store.delete(&["key.txt"]).unwrap_err();
    assert!(matches!(err, BlobStorageError::BackendMisconfigured(_)));
    let err = store.list(&SuffixFilter::new("")).unwrap_err();
    assert!(matches!(err, BlobStorageError::BackendMisconfigured(_)));
    assert_eq!(
        err.to_string(),
        "backend misconfigured: FS root directory '\"/data/\"' does not exist"
    );
}

#[test]
fn fs_root_that_is_a_file() {
    let store = Files::new();
    store.root_is_file.set(true);
    let err = store.list(&SuffixFilter::new("")).unwrap_err();
    assert_eq!(
        err.to_string(),
        "backend misconfigured: FS root '\"/data/\"' is not a directory"
    );
}

#[test]
fn fs_listing_is_sorted_and_complete() {
    let store = Files::new();
    let keys = ["b/x.txt", "a/b/c.txt", "z", "a/b.txt", "a/b/d/e/f.txt", "B", "a/bc"];
    for key in keys {
        store.put(vec![blob(key, key.as_bytes())]).unwrap();
    }
    assert_eq!(
        store.list(&SuffixFilter::new("")).unwrap(),
        vec!["B", "a/b.txt", "a/b/c.txt", "a/b/d/e/f.txt", "a/bc", "b/x.txt", "z"]
    );
    assert_eq!(
        store.list(&PrefixFilter::new("a/b")).unwrap(),
        vec!["a/b.txt", "a/b/c.txt", "a/b/d/e/f.txt", "a/bc"]
    );
    assert_eq!(
        store.list(&PrefixFilter::new("a/b/")).unwrap(),
        vec!["a/b/c.txt", "a/b/d/e/f.txt"]
    );
    let metas = store.list_with_metadata(&PrefixFilter::new("a/b/")).unwrap();
    assert_eq!(metas[0].key, "a/b/c.txt");
    assert_eq!(metas[0].stored_size, 9);
    assert_eq!(metas[0].modified_at.secs, 1_700_000_000);
    assert_eq!(metas[0].modified_at.nanos, 5);
    assert!(metas[0].etag.is_none());
}

#[test]
fn fs_walk_starts_at_the_hinted_directory_and_goes_breadth_first() {
    let store = Files::new();
    for key in ["a/1", "a/b/2", "a/b/c/3", "a/d/4", "x/5"] {
        store.put(vec![blob(key, b"")]).unwrap();
    }
    store.list(&PrefixFilter::new("a/b/")).unwrap();
    assert_eq!(*store.walked.borrow(), vec!["/data/a/b/", "/data/a/b/c/"]);
    store.walked.borrow_mut().clear();
    store.list(&PrefixFilter::new("a/b")).unwrap();
    assert_eq!(
        *store.walked.borrow(),
        vec!["/data/a/", "/data/a/b/", "/data/a/d/", "/data/a/b/c/"]
    );
    store.walked.borrow_mut().clear();
    store.list(&SuffixFilter::new("")).unwrap();
    assert_eq!(store.walked.borrow().len(), 6);
    assert_eq!(store.walked.borrow()[0], "/data/");
}

#[test]
fn fs_visit_stops_early_and_reports_visitor_errors() {
    let store = Files::new();
    for key in ["a", "b", "c", "d", "e"] {
        store.put(vec![blob(key, b"x")]).unwrap();
    }
    let mut seen = 0;
    store
        .visit(&SuffixFilter::new(""), &mut |_, meta| {
            assert_eq!(meta.unwrap().stored_size, 1);
            seen += 1;
            Ok(seen < 2)
        })
        .unwrap();
    assert_eq!(seen, 2);
    let err = store
        .visit(&SuffixFilter::new(""), &mut |_, _| Err(BlobStorageError::from("enough")))
        .unwrap_err();
    assert_eq!(err.to_string(), "storage error: enough");
}

#[test]
fn visit_equals_list() {
    let store = Files::new();
    store.put(vec![blob("x.txt", b"x"), blob("y.log", b"y"), blob("z.txt", b"z")]).unwrap();
    let mut visited = visited_keys(&*store, &SuffixFilter::new(""));
    visited.sort();
    assert_eq!(visited, store.list(&SuffixFilter::new("")).unwrap());
}

#[test]
fn fs_visit_shows_each_listed_blob_once() {
    let store = Files::new();
    for key in ["a", "sub/b", "sub/deep/c", "sub/d", "e"] {
        store.put(vec![blob(key, key.as_bytes())]).unwrap();
    }
    let listed = store.list(&SuffixFilter::new("")).unwrap();
    assert_eq!(listed, vec!["a", "e", "sub/b", "sub/d", "sub/deep/c"]);
    let metas = store.list_with_metadata(&SuffixFilter::new("")).unwrap();
    assert_eq!(metas.into_iter().map(|m| m.key).collect::<Vec<_>>(), listed);
    for stop in 1..6 {
        let mut shown: Vec<String> = vec![];
        let reply = store.visit(&SuffixFilter::new(""), &mut |key, meta| {
            let meta = meta.unwrap();
            assert_eq!(meta.key, key);
            assert_eq!(meta.stored_size, key.len() as u64);
            assert_eq!(meta.etag, None);
            shown.push(key.to_string());
            Ok(shown.len() < stop)
        });
        assert!(reply.is_ok());
        assert_eq!(shown.len(), stop);
        shown.sort();
        shown.dedup();
        assert_eq!(shown.len(), stop);
        assert!(shown.iter().all(|k| listed.contains(k)));
    }
}

#[test]
fn fs_directory_is_no_blob() {
    let store = Files::new();
    store.put(vec![blob("dir/file.txt", b"x"), blob("empty", b"")]).unwrap();
    assert!(!store.has("dir").unwrap());
    assert!(matches!(store.get("dir"), Err(BlobStorageError::NotFound(k)) if k == "dir"));
    let reply = store.get_with_metadata("dir");
    assert!(matches!(reply, Err(BlobStorageError::NotFound(k)) if k == "dir"));
    assert!(store.has("dir/file.txt").unwrap());
    assert_eq!(store.get("empty").unwrap(), b"");
    let denied = Err(io_failure(IoErrorKind::PermissionDenied, "no"));
    assert!(!store.look("k").unwrap().1.blob_exists(denied));
}

#[test]
fn fs_invalid_key_touches_nothing() {
    let store = Files::new();
    let err = store.put(vec![blob("good.txt", b"1"), blob("../bad", b"2")]).unwrap_err();
    assert!(matches!(err, BlobStorageError::InvalidInput(_)));
    assert!(store.files.borrow().is_empty());
    store.put(vec![blob("good.txt", b"1")]).unwrap();
    let err = store.delete(&["good.txt", "/bad"]).unwrap_err();
    assert_eq!(err.to_string(), "invalid input: blob key must not start with '/': '/bad'");
    assert!(store.has("good.txt").unwrap());
    store.root_missing.set(true);
    assert!(matches!(store.get("a//b"), Err(BlobStorageError::InvalidInput(_))));
}

#[test]
fn fs_put_ends_at_a_blob_that_fails() {
    let store = Files::new();
    store.unwritable.borrow_mut().push(("/data/b".to_string(), IoErrorKind::Other));
    store.unwritable.borrow_mut().push(("/data/d".to_string(), IoErrorKind::PermissionDenied));
    match store.put(vec![blob("a", b"1"), blob("b", b"2"), blob("c", b"3")]) {
        Err(BlobStorageError::Batch(batch)) => {
            assert_eq!(batch.succeeded, vec!["a"]);
            assert_eq!(batch.errors.len(), 1);
            assert_eq!(batch.errors[0].key, "b");
            assert_eq!(batch.errors[0].error.to_string(), "unknown: disk");
        }
        other => panic!("unexpected {other:?}"),
    }
    assert_eq!(store.list(&SuffixFilter::new("")).unwrap(), vec!["a"]);
    match store.put(vec![blob("d", b"1")]) {
        Err(BlobStorageError::Batch(batch)) => {
            assert!(batch.succeeded.is_empty());
            assert_eq!(batch.errors[0].error.to_string(), "permission denied: disk");
        }
        other => panic!("unexpected {other:?}"),
    }
}

#[test]
fn fs_delete_accounts_for_every_key() {
    let store = Files::new();
    store.put(vec![blob("a", b""), blob("b", b""), blob("c", b"")]).unwrap();
    store.undeletable.borrow_mut().push(("/data/b".to_string(), IoErrorKind::PermissionDenied));
    store.undeletable.borrow_mut().push(("/data/c".to_string(), IoErrorKind::Other));
    match store.delete(&["a", "b", "missing", "c"]) {
        Err(BlobStorageError::Batch(batch)) => {
            assert_eq!(batch.succeeded, vec!["a", "missing"]);
            assert_eq!(batch.errors.len(), 2);
            assert_eq!(batch.errors[0].key, "b");
            assert_eq!(batch.errors[0].error.to_string(), "permission denied: refused");
            assert_eq!(batch.errors[1].key, "c");
            assert_eq!(batch.errors[1].error.to_string(), "unknown: refused");
        }
        _ => panic!("expected a batch error"),
    }
    assert!(!store.has("a").unwrap());
    assert!(store.has("c").unwrap());
}

#[test]
fn fs_paths() {
    let store = FsBlobStore::new("/tmp/my-blobs");
    assert_eq!(store.root_path(), "/tmp/my-blobs/");
    assert_eq!(FsBlobStore::new("/tmp/my-blobs/").root_path(), "/tmp/my-blobs/");
    assert_eq!(FsBlobStore::new("").root_path(), "");
    assert_eq!(store.key_to_path("hello.txt").unwrap(), "/tmp/my-blobs/hello.txt");
    assert_eq!(
        store.key_to_path("invoices/2024/report.pdf").unwrap(),
        "/tmp/my-blobs/invoices/2024/report.pdf"
    );
    assert!(store.key_to_path("../x").is_err());
    assert_eq!(store.prefix_subdir(None).unwrap(), "/tmp/my-blobs/");
    assert_eq!(store.prefix_subdir(Some("")).unwrap(), "/tmp/my-blobs/");
    assert_eq!(store.prefix_subdir(Some("a/b/")).unwrap(), "/tmp/my-blobs/a/b/");
    assert_eq!(store.prefix_subdir(Some("a/b")).unwrap(), "/tmp/my-blobs/a/");
    let e = store.create_error(io_failure(IoErrorKind::PermissionDenied, "denied"));
    assert_eq!(e.to_string(), "storage error: cannot create root '\"/tmp/my-blobs/\"'");
    let e = FsBlobStore::new("/x\ty").create_error(io_failure(IoErrorKind::Other, "no"));
    assert_eq!(e.to_string(), "storage error: cannot create root '\"/x\\ty/\"'");
}

#[test]
fn fs_walk_failures() {
    let store = FsBlobStore::new("/data");
    let filter = SuffixFilter::new("");
    let then = match store.walk(1u8, '/') {
        WalkStep::CheckDir(then) => then,
        _ => panic!("expected a check"),
    };
    match then.checked(Err(io_failure(IoErrorKind::Other, "broken disk"))) {
        WalkStep::Failed(BlobStorageError::Storage { message, source }) => {
            assert_eq!(message, "I/O error");
            assert_eq!(source.unwrap().messages, vec!["broken disk"]);
        }
        _ => panic!("expected a failure"),
    }
    let then = match store.walk(1u8, '\\') {
        WalkStep::CheckDir(then) => match then.checked(Ok(true)) {
            WalkStep::OpenDir(then) => match then.opened(Ok(())) {
                WalkStep::NextEntry(then) => then,
                _ => panic!("expected an entry"),
            },
            _ => panic!("expected to open"),
        },
        _ => panic!("expected a check"),
    };
    let file = |r| Entry { path: 2u8, kind: EntryKind::File(r) };
    let then = match then.entry(&filter, Ok(Some(file(Relative::Text("a\\b\\c".to_string()))))) {
        WalkStep::Found { key, path, then } => {
            assert_eq!(key, "a/b/c");
            assert_eq!(path, 2);
            then
        }
        _ => panic!("expected a file"),
    };
    let then = match then.entry(&filter, Ok(Some(file(Relative::Outside)))) {
        WalkStep::NextEntry(then) => then,
        _ => panic!("expected to go on"),
    };
    match then.entry(&filter, Ok(Some(file(Relative::NotUtf8("\"x\\xFF\"".to_string()))))) {
        WalkStep::Failed(e) => {
            assert_eq!(e.to_string(), "invalid input: non-UTF-8 path: \"x\\xFF\"")
        }
        _ => panic!("expected a failure"),
    }
}

#[test]
fn fs_metadata_failures() {
    let files = Files::new();
    let store = FsBlobStore::new("/data");
    let (path, then) = files.look("k").unwrap();
    assert_eq!(path, "/data/k");
    let missing = then.file_meta(Err(io_failure(IoErrorKind::NotFound, "gone")));
    assert!(matches!(missing, Err(BlobStorageError::NotFound(k)) if k == "k"));
    let then = files.look("k").unwrap().1;
    let denied = then.file_meta(Err(io_failure(IoErrorKind::PermissionDenied, "no")));
    assert_eq!(denied.unwrap_err().to_string(), "storage error: stat failed for 'k'");
    let gone = store.listed_file_meta("k", Err(io_failure(IoErrorKind::NotFound, "gone")));
    assert_eq!(gone.unwrap_err().to_string(), "storage error: stat failed for 'k'");
    let broken = store.ensure_root(Err(io_failure(IoErrorKind::Other, "io")));
    assert_eq!(
        broken.unwrap_err().to_string(),
        "storage error: cannot stat FS root '\"/data/\"'"
    );
}

// The prefix layer.

#[test]
fn test_prefix_put_returns_logical_key() {
    let store = prefixed(Files::new(), "my-app/");
    let result = store.put(vec![blob("a.txt", b"data")]).unwrap();
    assert_eq!(result.blobs.len(), 1);
    assert_eq!(result.blobs[0].key, "a.txt");
}

#[test]
fn test_prefix_list_with_metadata_logical_keys() {
    let store = prefixed(Files::new(), "my-app/");
    store.put(vec![blob("a.txt", b"a")]).unwrap();
    let metas = store.list_with_metadata(&PrefixFilter::new("")).unwrap();
    assert_eq!(metas.len(), 1);
    assert_eq!(metas[0].key, "a.txt");
}

#[test]
fn test_prefix_visit_logical_keys() {
    let store = prefixed(Files::new(), "my-app/");
    store.put(vec![blob("a.txt", b"data")]).unwrap();
    let mut seen: Option<(String, Option<String>)> = None;
    store
        .visit(&PrefixFilter::new(""), &mut |key, meta| {
            seen = Some((key.to_string(), meta.map(|m| m.key.clone())));
            Ok(false)
        })
        .unwrap();
    assert_eq!(seen, Some(("a.txt".to_string(), Some("a.txt".to_string()))));
}

#[test]
fn test_prefix_get_does_not_leak_prefixed_key() {
    let store = prefixed(Files::new(), "my-app/");
    match store.get("nonexistent.txt") {
        Err(BlobStorageError::NotFound(key)) => assert_eq!(key, "nonexistent.txt"),
        _ => panic!("expected NotFound for non-existent key"),
    }
}

#[test]
fn test_prefix_get_with_metadata_does_not_leak_prefixed_key() {
    let store = prefixed(Files::new(), "my-app/");
    match store.get_with_metadata("nonexistent.txt") {
        Err(err) => assert!(!err.to_string().contains("my-app/")),
        Ok(_) => panic!("expected error for non-existent key"),
    }
}

#[test]
fn test_visit_with_prefix() {
    let files = Files::new();
    let store = prefixed(files.clone(), "app/");
    store.put(vec![blob("a.txt", b"aaa"), blob("b.txt", b"bbb")]).unwrap();
    let mut keys = visited_keys(&store, &SuffixFilter::new(""));
    keys.sort();
    assert_eq!(keys, vec!["a.txt", "b.txt"]);
    let raw = visited_keys(&*files, &SuffixFilter::new(""));
    assert!(raw.contains(&"app/a.txt".to_string()));
    assert!(raw.contains(&"app/b.txt".to_string()));
}

#[test]
fn test_visit_with_prefix_filter() {
    let store = prefixed(Files::new(), "app/");
    store.put(vec![blob("a.txt", b"aaa"), blob("b.log", b"bbb")]).unwrap();
    assert_eq!(visited_keys(&store, &SuffixFilter::new(".txt")), vec!["a.txt"]);
}

#[test]
fn test_visit_with_prefix_early_stop() {
    let store = prefixed(Files::new(), "app/");
    store
        .put(vec![blob("a.txt", b"aaa"), blob("b.txt", b"bbb"), blob("c.txt", b"ccc")])
        .unwrap();
    let mut count = 0;
    store
        .visit(&SuffixFilter::new(""), &mut |_, _| {
            count += 1;
            Ok(false)
        })
        .unwrap();
    assert_eq!(count, 1);
}

#[test]
fn prefix_layers_do_not_see_each_other() {
    let files = Files::new();
    let a = prefixed(files.clone(), "tenant-a/");
    let b = prefixed(files.clone(), "tenant-b/");
    a.put(vec![blob("x", b"a"), blob("sub/y", b"a")]).unwrap();
    b.put(vec![blob("x", b"b")]).unwrap();
    assert_eq!(a.get("x").unwrap(), b"a");
    assert_eq!(b.get("x").unwrap(), b"b");
    assert_eq!(a.list(&SuffixFilter::new("")).unwrap(), vec!["sub/y", "x"]);
    assert_eq!(a.list(&PrefixFilter::new("su")).unwrap(), vec!["sub/y"]);
    a.delete(&["x"]).unwrap();
    assert!(!a.has("x").unwrap());
    assert!(b.has("x").unwrap());
    files.walked.borrow_mut().clear();
    a.list(&PrefixFilter::new("sub/")).unwrap();
    assert_eq!(*files.walked.borrow(), vec!["/data/tenant-a/sub/"]);
}

#[test]
fn prefix_batch_errors_name_logical_keys() {
    let files = Files::new();
    files.undeletable.borrow_mut().push(("/data/p/b".to_string(), IoErrorKind::Other));
    let store = prefixed(files, "p/");
    match store.delete(&["a", "b", "c"]) {
        Err(BlobStorageError::Batch(batch)) => {
            assert_eq!(batch.succeeded, vec!["a", "c"]);
            assert_eq!(batch.errors[0].key, "b");
        }
        _ => panic!("expected a batch error"),
    }
    let foreign = BlobStorageError::Batch(BatchError {
        succeeded: vec!["q/x".to_string(), "p/y".to_string()],
        errors: vec![KeyError { key: "q/z".to_string(), error: PerKeyError::NotFound }],
    });
    match store.map_batch_error(foreign) {
        BlobStorageError::Batch(batch) => {
            assert_eq!(batch.succeeded, vec!["y"]);
            assert_eq!(batch.errors[0].key, "q/z");
        }
        _ => panic!("expected a batch error"),
    }
}

#[test]
fn prefix_put_errors_name_logical_keys() {
    let files = Files::new();
    files.unwritable.borrow_mut().push(("/data/p/b".to_string(), IoErrorKind::Other));
    match prefixed(files, "p/").put(vec![blob("a", b"1"), blob("b", b"2")]) {
        Err(BlobStorageError::Batch(batch)) => {
            assert_eq!(batch.succeeded, vec!["a"]);
            assert_eq!(batch.errors[0].key, "b");
        }
        other => panic!("unexpected {other:?}"),
    }
}

#[test]
fn prefix_layer_validates_logical_keys() {
    let files = Files::new();
    let store = prefixed(files.clone(), "p");
    files.put(vec![blob("p", b"1"), blob("p/x", b"2")]).unwrap();
    for key in ["", "/x"] {
        let refused = |e: BlobStorageError| matches!(e, BlobStorageError::InvalidInput(_));
        assert!(refused(store.put(vec![blob("ok", b""), blob(key, b"")]).unwrap_err()));
        assert!(refused(store.get(key).unwrap_err()));
        assert!(refused(store.has(key).unwrap_err()));
        assert!(refused(store.get_with_metadata(key).unwrap_err()));
        assert!(refused(store.delete(&["ok", key]).unwrap_err()));
    }
    assert_eq!(files.list(&SuffixFilter::new("")).unwrap(), vec!["p", "p/x"]);
}

#[test]
fn layers_refuse_invalid_keys_themselves() {
    let layer = BlobCleanup::new((), ());
    assert_eq!(
        layer.read_request("a//b").unwrap_err().to_string(),
        "invalid input: blob key must not contain empty components: 'a//b'"
    );
    assert_eq!(layer.read_request("a/b").unwrap(), "a/b");
    assert!(layer.put_request(vec![blob("a", b""), blob("..", b"")]).is_err());
    assert_eq!(layer.put_request(vec![blob("a", b"1")]).unwrap()[0].data, b"1");
    assert!(layer.delete_request(owned(&["a", "b/"])).is_err());
    assert_eq!(layer.delete_request(owned(&["a", "b"])).unwrap(), vec!["a", "b"]);
    let encrypting = EncryptedBlobStore::new((), ());
    assert!(matches!(encrypting.get("../x"), GetStep::Done(BlobStorageError::InvalidInput(_))));
    assert!(matches!(
        encrypting.blob_exists(""),
        ExistsStep::Done(Err(BlobStorageError::InvalidInput(_)))
    ));
    assert!(encrypting.delete_request(&owned(&["a", "./b"])).is_err());
    assert_eq!(encrypting.inner_filter().suffix, "");
}

#[test]
fn prefix_filter_sees_logical_metadata() {
    struct ByMetaKey;
    impl ListFilter for ByMetaKey {
        fn matches(&self, key: &str, meta: Option<&BlobMeta>) -> bool {
            meta.map(|m| m.key == key).unwrap_or(true)
        }
        fn prefix_hint(&self) -> Option<&str> {
            None
        }
    }
    let store = prefixed(Files::new(), "p/");
    store.put(vec![blob("a", b"1")]).unwrap();
    assert_eq!(store.list(&ByMetaKey).unwrap(), vec!["a"]);
    assert_eq!(store.list_with_metadata(&ByMetaKey).unwrap().len(), 1);
    assert_eq!(visited_keys(&store, &ByMetaKey), vec!["a"]);
}

// The encryption layer.

#[test]
fn test_empty_blob_encrypted() {
    let store = encrypted(Files::new(), 7);
    store.put(vec![blob("empty-enc.txt", b"")]).unwrap();
    assert!(store.get("empty-enc.txt").unwrap().is_empty());
}

#[test]
fn encrypted_round_trips() {
    for shift in [0u8, 3, 7, 13, 42, 255] {
        let files = Files::new();
        let store = encrypted(files.clone(), shift);
        let data: Vec<u8> = (0..=255).collect();
        store.put(vec![blob("binary.bin", &data), blob("a.txt", b"aaaa")]).unwrap();
        assert_eq!(store.get("binary.bin").unwrap(), data);
        assert_eq!(store.get("a.txt").unwrap(), b"aaaa");
        let shifted: Vec<u8> = data.iter().map(|b| b.wrapping_add(shift)).collect();
        assert_eq!(files.get("binary.bin").unwrap(), shifted);
        assert_eq!(files.get("binary.bin.enc-header").unwrap(), vec![shift, 0]);
    }
}

#[test]
fn encrypted_put_result_has_no_header() {
    let store = encrypted(Files::new(), 7);
    let result = store.put(vec![blob("secret.txt", b"data")]).unwrap();
    assert_eq!(result.blobs.len(), 1);
    assert_eq!(result.blobs[0].key, "secret.txt");
}

#[test]
fn encrypted_put_reports_the_data_in_order() {
    let store = encrypted(Files::new(), 7);
    let result =
        store.put(vec![blob("z", b"four"), blob("a", b""), blob("m", b"seventh")]).unwrap();
    let shown: Vec<(String, u64)> =
        result.blobs.into_iter().map(|m| (m.key, m.stored_size)).collect();
    assert_eq!(
        shown,
        vec![("z".to_string(), 4), ("a".to_string(), 0), ("m".to_string(), 7)]
    );
}

#[test]
fn encrypted_put_with_an_invalid_key_stores_nothing() {
    let files = Files::new();
    let store = encrypted(files.clone(), 7);
    let err = store.put(vec![blob("ok.txt", b"1"), blob("../bad.txt", b"2")]).unwrap_err();
    assert_eq!(
        err.to_string(),
        "invalid input: blob key must not contain '..' or '.' components: '../bad.txt'"
    );
    assert!(files.files.borrow().is_empty());
}

#[test]
fn encrypted_put_errors_name_data_keys() {
    for failing in ["/data/b", "/data/b.enc-header"] {
        let files = Files::new();
        files.unwritable.borrow_mut().push((failing.to_string(), IoErrorKind::Other));
        let store = encrypted(files.clone(), 7);
        match store.put(vec![blob("a", b"1"), blob("b", b"2"), blob("c", b"3")]) {
            Err(BlobStorageError::Batch(batch)) => {
                assert_eq!(batch.succeeded, vec!["a"]);
                assert_eq!(batch.errors.len(), 1);
                assert_eq!(batch.errors[0].key, "b");
                assert_eq!(batch.errors[0].error.to_string(), "unknown: disk");
            }
            other => panic!("unexpected {other:?}"),
        }
        let left = files.list(&SuffixFilter::new("")).unwrap();
        assert_eq!(left, vec!["a", "a.enc-header"]);
    }
}

#[test]
fn encrypted_put_ends_at_a_reserved_key() {
    let store = encrypted(Files::new(), 7);
    let blobs = vec![blob("a", b"1"), blob("b.enc-header", b"2"), blob("c", b"3")];
    assert!(matches!(store.put(blobs), Err(BlobStorageError::InvalidInput(_))));
    assert_eq!(store.list(&SuffixFilter::new("")).unwrap(), vec!["a"]);
}

#[test]
fn encrypted_get_with_metadata() {
    let store = encrypted(Files::new(), 21);
    store.put(vec![blob("meta.txt", b"metadata test")]).unwrap();
    let (meta, data) = store.get_with_metadata("meta.txt").unwrap();
    assert_eq!(meta.key, "meta.txt");
    assert!(meta.modified_at > xtax_blob_storage::Timestamp::default());
    assert_eq!(data, b"metadata test");
}

#[test]
fn encrypted_list_with_metadata_shows_data_only() {
    let store = encrypted(Files::new(), 31);
    store.put(vec![blob("y.txt", b"yyy"), blob("x.txt", b"xxx")]).unwrap();
    let metas = store.list_with_metadata(&SuffixFilter::new("")).unwrap();
    assert_eq!(metas.len(), 2);
    assert_eq!(metas[0].key, "x.txt");
    assert_eq!(metas[1].key, "y.txt");
    for meta in &metas {
        assert_eq!(meta.stored_size, 3);
    }
}

#[test]
fn test_encrypted_delete_batch() {
    let store = encrypted(Files::new(), 7);
    store.put(vec![blob("alpha.txt", b"alpha-data"), blob("beta.txt", b"beta-data")]).unwrap();
    store.delete(&["alpha.txt", "beta.txt"]).unwrap();
    assert!(store.get("alpha.txt").is_err());
    assert!(store.get("beta.txt").is_err());
}

#[test]
fn test_encrypted_delete_idempotent() {
    assert!(encrypted(Files::new(), 7).delete(&["never-created.txt"]).is_ok());
}

#[test]
fn test_encrypted_delete_mixed_not_found_is_idempotent() {
    let store = encrypted(Files::new(), 7);
    store.put(vec![blob("exists.txt", b"data")]).unwrap();
    assert!(store.delete(&["exists.txt", "nonexistent.txt"]).is_ok());
    assert!(store.get("exists.txt").is_err());
}

#[test]
fn encrypted_delete_removes_data_and_header() {
    let files = Files::new();
    let store = encrypted(files.clone(), 17);
    store.put(vec![blob("del.txt", b"delete me")]).unwrap();
    assert!(store.has("del.txt").unwrap());
    store.delete(&["del.txt"]).unwrap();
    assert!(!store.has("del.txt").unwrap());
    assert!(files.files.borrow().is_empty());
}

#[test]
fn test_encrypted_delete_batch_error_no_header_leak() {
    let mock = ErrorMockStore::new();
    *mock.delete_error.borrow_mut() = Some(BlobStorageError::Batch(BatchError {
        succeeded: vec!["a.txt".to_string(), "a.txt.enc-header".to_string()],
        errors: vec![
            KeyError {
                key: "b.txt".to_string(),
                error: PerKeyError::PermissionDenied("denied".to_string()),
            },
            KeyError {
                key: "b.txt.enc-header".to_string(),
                error: PerKeyError::PermissionDenied("denied".to_string()),
            },
        ],
    }));
    let store = encrypted(Rc::new(mock), 7);
    match store.delete(&["a.txt", "b.txt"]).unwrap_err() {
        BlobStorageError::Batch(batch) => {
            assert_eq!(batch.succeeded, vec!["a.txt"]);
            assert_eq!(batch.errors.len(), 1);
            assert_eq!(batch.errors[0].key, "b.txt");
        }
        other => panic!("expected Batch error, got: {other:?}"),
    }
}

#[test]
fn encrypted_delete_succeeds_when_only_headers_failed() {
    let files = Files::new();
    files
        .undeletable
        .borrow_mut()
        .push(("/data/a.enc-header".to_string(), IoErrorKind::PermissionDenied));
    let store = encrypted(files, 7);
    store.put(vec![blob("a", b"1")]).unwrap();
    store.delete(&["a"]).unwrap();
}

#[test]
fn reserved_keys_are_refused() {
    let store = encrypted(Files::new(), 7);
    let text = "invalid input: blob key must not end with reserved header suffix \
                '.enc-header': 'x.enc-header'";
    assert_eq!(store.put(vec![blob("x.enc-header", b"")]).unwrap_err().to_string(), text);
    assert_eq!(store.get("x.enc-header").unwrap_err().to_string(), text);
    assert_eq!(store.has("x.enc-header").unwrap_err().to_string(), text);
    assert_eq!(store.delete(&["a", "x.enc-header"]).unwrap_err().to_string(), text);
    assert_eq!(store.get_with_metadata("x.enc-header").unwrap_err().to_string(), text);
}

#[test]
fn test_encrypted_store_with_custom_suffix() {
    let files = Files::new();
    let inner: Rc<dyn Store> = files.clone();
    let store =
        Encrypted(EncryptedBlobStore::with_suffix(inner, Shift::new(7), ".custom-header"));
    store.put(vec![blob("secret.txt", b"custom suffix")]).unwrap();
    assert_eq!(store.get("secret.txt").unwrap(), b"custom suffix");
    assert_eq!(
        files.list(&SuffixFilter::new("")).unwrap(),
        vec!["secret.txt", "secret.txt.custom-header"]
    );
    assert_eq!(store.list(&SuffixFilter::new("")).unwrap(), vec!["secret.txt"]);
}

#[test]
fn test_rekey_all_headers() {
    let inner: Rc<dyn Store> = Files::new();
    let store = Encrypted::new(inner, Shift::rekeyable(7, 1));
    store.put(vec![blob("a.txt", b"aaa"), blob("b.txt", b"bbb"), blob("c.txt", b"ccc")]).unwrap();
    assert_eq!(rekey(&store).unwrap(), 0);
}

#[test]
fn test_rekey_empty_store() {
    let inner: Rc<dyn Store> = Files::new();
    let store = Encrypted::new(inner, Shift::rekeyable(5, 1));
    assert_eq!(rekey(&store).unwrap(), 0);
}

#[test]
fn test_rekey_then_get_returns_correct_data() {
    let inner: Rc<dyn Store> = Files::new();
    let store1 = Encrypted::new(inner.clone(), Shift::rekeyable(7, 1));
    store1.put(vec![blob("data.txt", b"hello rekey world")]).unwrap();
    let before = inner.get("data.txt").unwrap();
    let store2 = Encrypted::new(inner.clone(), Shift::rekeyable(7, 2));
    assert_eq!(rekey(&store2).unwrap(), 1);
    assert_eq!(store2.get("data.txt").unwrap(), b"hello rekey world");
    assert_eq!(inner.get("data.txt").unwrap(), before);
    assert_eq!(inner.get("data.txt.enc-header").unwrap(), vec![7 ^ 2, 2]);
}

#[test]
fn test_rekey_multiple_headers() {
    let inner: Rc<dyn Store> = Files::new();
    let store1 = Encrypted::new(inner.clone(), Shift::rekeyable(3, 1));
    store1
        .put(vec![blob("x.txt", b"xxx"), blob("y.txt", b"yyy"), blob("z.txt", b"zzz")])
        .unwrap();
    let store2 = Encrypted::new(inner, Shift::rekeyable(3, 3));
    assert_eq!(rekey(&store2).unwrap(), 3);
    for key in ["x.txt", "y.txt", "z.txt"] {
        assert_eq!(store2.get(key).unwrap().len(), 3);
    }
}

#[test]
fn test_rekey_twice_second_noop() {
    let inner: Rc<dyn Store> = Files::new();
    let store1 = Encrypted::new(inner.clone(), Shift::rekeyable(5, 1));
    store1.put(vec![blob("data.txt", b"test")]).unwrap();
    let store2 = Encrypted::new(inner.clone(), Shift::rekeyable(5, 2));
    assert_eq!(rekey(&store2).unwrap(), 1);
    let store3 = Encrypted::new(inner, Shift::rekeyable(5, 2));
    assert_eq!(rekey(&store3).unwrap(), 0);
}

#[test]
fn rekey_of_a_header_that_cannot_be_read() {
    let inner: Rc<dyn Store> = Files::new();
    let store = encrypted(inner, 7);
    let (_, run) = store.0.rekey();
    let failure = io_failure(IoErrorKind::Other, "torn");
    match run.fetched("k.enc-header", HeaderReply::Unreadable(failure)) {
        RekeyStep::Failed(BlobStorageError::Storage { message, source }) => {
            assert_eq!(message, "failed to read header 'k.enc-header'");
            assert_eq!(source.unwrap().messages, vec!["torn"]);
        }
        _ => panic!("expected a failure"),
    }
    let refused = HeaderReply::Refused(BlobStorageError::from("x"));
    assert!(matches!(run.fetched("k.enc-header", refused), RekeyStep::Skip));
    match run.fetched("k.enc-header", HeaderReply::Bytes(vec![1, 2, 3])) {
        RekeyStep::Rewrap { header, then } => {
            assert_eq!(header, vec![1, 2, 3]);
            let input = then.rewrapped(Ok(Some(vec![9]))).unwrap();
            assert_eq!(input.key, "k.enc-header");
            assert_eq!(input.data, vec![9]);
            assert_eq!(input.size_hint, Some(3));
        }
        _ => panic!("expected to rewrap"),
    }
}

#[test]
fn test_decrypt_corrupted_data_returns_error() {
    let inner: Rc<dyn Store> = Files::new();
    let provider = Shift { decrypt_fails: true, ..Shift::new(7) };
    let store = Encrypted::new(inner, provider);
    store.put(vec![blob("secret.txt", b"valid data")]).unwrap();
    let msg = store.get("secret.txt").unwrap_err().to_string();
    assert!(msg.contains("decryption failed for key 'secret.txt'"));
}

#[test]
fn decryption_failure_is_reported_once_at_the_end() {
    let mut stream = DecryptedStream::new();
    assert_eq!(stream.read(0), None);
    stream.fail("k", EncryptionError::InvalidHeader("bad".to_string()));
    assert_eq!(stream.read(10), None);
    assert_eq!(
        stream.read(0),
        Some("encryption error: decryption failed for key 'k'".to_string())
    );
    assert_eq!(stream.read(0), None);
}

#[test]
fn test_encrypted_exists_requires_both_data_and_header() {
    let inner = Files::new();
    let store = encrypted(inner.clone(), 7);
    store.put(vec![blob("a.txt", b"hello")]).unwrap();
    assert!(store.has("a.txt").unwrap());
    inner.delete(&["a.txt.enc-header"]).unwrap();
    assert!(!store.has("a.txt").unwrap());
}

#[test]
fn test_encrypted_exists_data_never_existed() {
    assert!(!encrypted(Files::new(), 7).has("nonexistent.txt").unwrap());
}

#[test]
fn test_encrypted_put_header_failure_rollback() {
    let inner = Files::new();
    let store = encrypted(inner.clone(), 7);
    store.put(vec![blob("data.txt", b"payload")]).unwrap();
    assert!(store.has("data.txt").unwrap());
    inner.delete(&["data.txt.enc-header"]).unwrap();
    assert!(!store.has("data.txt").unwrap());
    store.put(vec![blob("data.txt", b"new payload")]).unwrap();
    assert!(store.has("data.txt").unwrap());
    assert_eq!(store.get("data.txt").unwrap(), b"new payload");
}

#[test]
fn test_encrypted_get_propagates_storage_error() {
    let mock = ErrorMockStore::new();
    *mock.get_error.borrow_mut() = Some(BlobStorageError::from("disk full"));
    match encrypted(Rc::new(mock), 7).get("key.txt") {
        Err(BlobStorageError::Storage { message, .. }) => assert!(message.contains("disk full")),
        _ => panic!("expected Storage error"),
    }
}

#[test]
fn test_encrypted_get_propagates_permission_denied() {
    let mock = ErrorMockStore::new();
    *mock.get_error.borrow_mut() =
        Some(BlobStorageError::PermissionDenied("access denied".to_string()));
    match encrypted(Rc::new(mock), 7).get("key.txt") {
        Err(BlobStorageError::PermissionDenied(msg)) => assert!(msg.contains("access denied")),
        _ => panic!("expected PermissionDenied"),
    }
}

#[test]
fn test_encrypted_get_not_found_stays_not_found() {
    let mock = ErrorMockStore::new();
    *mock.get_error.borrow_mut() = Some(BlobStorageError::NotFound("key.txt".to_string()));
    match encrypted(Rc::new(mock), 7).get("key.txt") {
        Err(BlobStorageError::NotFound(key)) => assert_eq!(key, "key.txt"),
        _ => panic!("expected NotFound"),
    }
}

#[test]
fn test_encrypted_exists_propagates_error() {
    let mock = ErrorMockStore::new();
    *mock.exists_error.borrow_mut() = Some(BlobStorageError::from("network timeout"));
    match encrypted(Rc::new(mock), 7).has("key.txt").unwrap_err() {
        BlobStorageError::Storage { message, .. } => assert!(message.contains("network timeout")),
        other => panic!("expected Storage error, got: {other:?}"),
    }
}

#[test]
fn test_orphan_data_blob_is_invisible() {
    let inner = Files::new();
    let store = encrypted(inner.clone(), 7);
    store.put(vec![blob("orphan.txt", b"data")]).unwrap();
    assert!(store.has("orphan.txt").unwrap());
    inner.delete(&["orphan.txt.enc-header"]).unwrap();
    assert!(!store.has("orphan.txt").unwrap());
    match store.get("orphan.txt") {
        Err(BlobStorageError::NotFound(key)) => assert_eq!(key, "orphan.txt"),
        _ => panic!("expected NotFound for orphan data"),
    }
    let keys = store.list(&SuffixFilter::new("")).unwrap();
    assert!(!keys.contains(&"orphan.txt".to_string()));
    assert!(store.list_with_metadata(&SuffixFilter::new("")).unwrap().is_empty());
    assert!(visited_keys(&store, &SuffixFilter::new("")).is_empty());
}

#[test]
fn test_orphan_data_repair_by_overwrite() {
    let inner = Files::new();
    let store = encrypted(inner.clone(), 7);
    store.put(vec![blob("repair.txt", b"old data")]).unwrap();
    inner.delete(&["repair.txt.enc-header"]).unwrap();
    assert!(!store.has("repair.txt").unwrap());
    store.put(vec![blob("repair.txt", b"new repaired data")]).unwrap();
    assert!(store.has("repair.txt").unwrap());
    assert_eq!(store.get("repair.txt").unwrap(), b"new repaired data");
}

#[test]
fn test_orphan_header_blob_is_invisible() {
    let inner = Files::new();
    let store = encrypted(inner.clone(), 7);
    store.put(vec![blob("header_orphan.txt", b"payload")]).unwrap();
    assert!(store.has("header_orphan.txt").unwrap());
    inner.delete(&["header_orphan.txt"]).unwrap();
    assert!(!store.has("header_orphan.txt").unwrap());
    match store.get("header_orphan.txt") {
        Err(BlobStorageError::NotFound(key)) => assert_eq!(key, "header_orphan.txt"),
        _ => panic!("expected NotFound for orphan header"),
    }
    let keys = store.list(&SuffixFilter::new("")).unwrap();
    assert!(!keys.contains(&"header_orphan.txt".to_string()));
    assert!(inner.has("header_orphan.txt.enc-header").unwrap());
}

#[test]
fn test_orphan_header_repair_by_overwrite() {
    let inner = Files::new();
    let store = encrypted(inner.clone(), 7);
    store.put(vec![blob("repair_header.txt", b"old payload")]).unwrap();
    inner.delete(&["repair_header.txt"]).unwrap();
    assert!(!store.has("repair_header.txt").unwrap());
    store.put(vec![blob("repair_header.txt", b"repaired payload")]).unwrap();
    assert!(store.has("repair_header.txt").unwrap());
    assert_eq!(store.get("repair_header.txt").unwrap(), b"repaired payload");
}

#[test]
fn test_overwrite_header_write_failure_creates_orphan() {
    let files = Files::new();
    let mock = NthPutFailingStore { inner: files.clone(), pass: 1, calls: Cell::new(0) };
    let store = encrypted(Rc::new(mock), 7);
    match store.put(vec![blob("overwrite_test.txt", b"data")]) {
        Err(BlobStorageError::Storage { message, .. }) => {
            assert!(message.contains("simulated header write failure"))
        }
        other => panic!("expected Storage error, got: {other:?}"),
    }
    assert!(!files.has("overwrite_test.txt").unwrap());
    assert!(!files.has("overwrite_test.txt.enc-header").unwrap());
}

#[test]
fn test_overwrite_header_write_failure_leaves_old_header() {
    let files = Files::new();
    let store1 = encrypted(files.clone(), 7);
    store1.put(vec![blob("overwrite_orphan.txt", b"v1 data")]).unwrap();
    let old_header = files.get("overwrite_orphan.txt.enc-header").unwrap();
    let mock = NthPutFailingStore { inner: files.clone(), pass: 1, calls: Cell::new(0) };
    let store2 = encrypted(Rc::new(mock), 7);
    match store2.put(vec![blob("overwrite_orphan.txt", b"v2 data")]) {
        Err(BlobStorageError::Storage { message, .. }) => {
            assert!(message.contains("simulated header write failure"))
        }
        other => panic!("expected Storage error, got: {other:?}"),
    }
    assert!(files.has("overwrite_orphan.txt.enc-header").unwrap());
    assert_eq!(files.get("overwrite_orphan.txt.enc-header").unwrap(), old_header);
    assert!(!files.has("overwrite_orphan.txt").unwrap());
}

#[test]
fn failed_encryption_is_rolled_back() {
    let files = Files::new();
    let inner: Rc<dyn Store> = files.clone();
    let store = Encrypted::new(inner, Shift { fails: true, ..Shift::new(1) });
    match store.put(vec![blob("k", b"data"), blob("later", b"data")]) {
        Err(BlobStorageError::Encryption { message, source }) => {
            assert_eq!(message, "encryption failed for key 'k'");
            assert_eq!(source.unwrap().messages, vec!["encryption operation failed: broken"]);
        }
        _ => panic!("expected an encryption error"),
    }
    assert!(files.files.borrow().is_empty());
}

#[test]
fn unfinished_encryption_is_not_rolled_back() {
    let files = Files::new();
    let inner: Rc<dyn Store> = files.clone();
    let store = Encrypted::new(inner, Shift { reports: false, ..Shift::new(1) });
    match store.put(vec![blob("k", b"data")]) {
        Err(BlobStorageError::Encryption { message, source }) => {
            assert_eq!(message, "encryption task did not complete for key 'k'");
            assert!(source.is_none());
        }
        _ => panic!("expected an encryption error"),
    }
    assert!(files.has("k").unwrap());
}

#[test]
fn test_visit_with_encryption_excludes_headers() {
    let store = encrypted(Files::new(), 7);
    store.put(vec![blob("secret.txt", b"secret data"), blob("notes.txt", b"notes")]).unwrap();
    let keys = visited_keys(&store, &SuffixFilter::new(""));
    assert_eq!(keys.len(), 2);
    assert!(keys.contains(&"secret.txt".to_string()));
    assert!(keys.contains(&"notes.txt".to_string()));
    for key in &keys {
        assert!(!key.ends_with(".enc-header"));
    }
}

#[test]
fn test_visit_with_encryption_and_filter() {
    let store = encrypted(Files::new(), 7);
    store.put(vec![blob("alpha.txt", b"alpha"), blob("beta.log", b"beta")]).unwrap();
    assert_eq!(visited_keys(&store, &SuffixFilter::new(".txt")), vec!["alpha.txt"]);
    assert_eq!(store.list(&SuffixFilter::new(".txt")).unwrap(), vec!["alpha.txt"]);
}

#[test]
fn test_visit_with_encryption_metadata() {
    let store = encrypted(Files::new(), 7);
    store.put(vec![blob("data.txt", b"some data")]).unwrap();
    let mut sizes = vec![];
    store
        .visit(&SuffixFilter::new(""), &mut |_, meta| {
            sizes.push(meta.unwrap().stored_size);
            Ok(true)
        })
        .unwrap();
    assert_eq!(sizes, vec![9]);
}

#[test]
fn test_combined_encryption_and_prefix() {
    let files = Files::new();
    let store = encrypted(Rc::new(prefixed(files.clone(), "app/")), 13);
    store.put(vec![blob("secret.txt", b"combined layers test")]).unwrap();
    assert_eq!(store.get("secret.txt").unwrap(), b"combined layers test");
    assert_eq!(store.list(&SuffixFilter::new("")).unwrap(), vec!["secret.txt"]);
    let raw = files.list(&SuffixFilter::new("")).unwrap();
    assert!(raw.contains(&"app/secret.txt".to_string()));
    assert!(raw.contains(&"app/secret.txt.enc-header".to_string()));
}

// The cleanup layer.

#[test]
fn cleanup_deletes_matching() {
    let files = Files::new();
    let inner: Rc<dyn Store> = files.clone();
    let layer = BlobCleanup::new(inner, |key: &str, _meta: &BlobMeta| key.starts_with("tmp-"));
    files
        .put(vec![
            blob("tmp-file.txt", b"temp"),
            blob("keep.txt", b"permanent"),
            blob("tmp-data.bin", b"temp data"),
            blob("important.doc", b"important"),
        ])
        .unwrap();
    assert_eq!(cleanup(&layer).unwrap(), 2);
    assert_eq!(
        files.list(&SuffixFilter::new("")).unwrap(),
        vec!["important.doc", "keep.txt"]
    );
    assert_eq!(cleanup(&layer).unwrap(), 0);
}

#[test]
fn cleanup_by_metadata() {
    let files = Files::new();
    let inner: Rc<dyn Store> = files.clone();
    let layer = BlobCleanup::new(inner, |_key: &str, meta: &BlobMeta| meta.stored_size > 50);
    files.put(vec![blob("small.txt", b"small"), blob("large.txt", &[b'x'; 100])]).unwrap();
    assert_eq!(cleanup(&layer).unwrap(), 1);
    assert_eq!(files.list(&SuffixFilter::new("")).unwrap(), vec!["small.txt"]);
}

#[test]
fn test_cleanup_empty_predicate() {
    let inner: Rc<dyn Store> = Files::new();
    let layer = BlobCleanup::new(inner, |_key: &str, _meta: &BlobMeta| true);
    assert_eq!(cleanup(&layer).unwrap(), 0);
}

#[test]
fn cleanup_that_selects_nothing() {
    let files = Files::new();
    let inner: Rc<dyn Store> = files.clone();
    let layer = BlobCleanup::new(inner, |_key: &str, _meta: &BlobMeta| false);
    files.put(vec![blob("a.txt", b"aaa"), blob("b.txt", b"bbb")]).unwrap();
    assert_eq!(cleanup(&layer).unwrap(), 0);
    assert_eq!(files.list(&SuffixFilter::new("")).unwrap().len(), 2);
}

#[test]
fn test_cleanup_batch_size_one() {
    let files = Files::new();
    let inner: Rc<dyn Store> = files.clone();
    let layer =
        BlobCleanup::new(inner, |_key: &str, _meta: &BlobMeta| true).with_batch_size(1);
    files.put(vec![blob("a.txt", b"a"), blob("b.txt", b"b"), blob("c.txt", b"c")]).unwrap();
    assert_eq!(cleanup(&layer).unwrap(), 3);
    assert!(files.files.borrow().is_empty());
}

#[test]
fn test_cleanup_with_prefix() {
    let files = Files::new();
    let store: Rc<dyn Store> = Rc::new(prefixed(files.clone(), "app/"));
    files.put(vec![blob("tmp-outside.txt", b"1")]).unwrap();
    store.put(vec![blob("tmp-file.txt", b"temp"), blob("keep.txt", b"permanent")]).unwrap();
    let layer =
        BlobCleanup::new(store.clone(), |key: &str, _meta: &BlobMeta| key.starts_with("tmp-"));
    assert_eq!(cleanup(&layer).unwrap(), 1);
    assert_eq!(store.list(&SuffixFilter::new("")).unwrap(), vec!["keep.txt"]);
    assert!(files.has("tmp-outside.txt").unwrap());
}

#[test]
fn cleanup_batches_are_full_but_for_the_last() {
    let layer = BlobCleanup::new((), ()).with_batch_size(2);
    let (filter, mut run) = layer.cleanup();
    assert_eq!(filter.prefix, "");
    let mut batches: Vec<Vec<String>> = vec![];
    let visits = [("a", true), ("b", false), ("c", true), ("d", true), ("e", true), ("f", true)];
    for (key, selected) in visits {
        run = match run.visited(key, selected) {
            CleanupStep::Next(run) => run,
            CleanupStep::Delete { keys, then } => {
                batches.push(keys);
                then.deleted(Ok(())).unwrap()
            }
        };
    }
    match run.flush() {
        CleanupStep::Delete { keys, then } => {
            batches.push(keys);
            assert_eq!(then.deleted(Ok(())).unwrap().result().deleted_count, 5);
        }
        CleanupStep::Next(_) => panic!("expected a last batch"),
    }
    assert_eq!(batches, vec![vec!["a", "c"], vec!["d", "e"], vec!["f"]]);
    assert_eq!(BlobCleanup::new((), ()).batch_size, 1000);
}

#[test]
fn cleanup_stops_when_a_delete_fails() {
    let files = Files::new();
    files.undeletable.borrow_mut().push(("/data/a".to_string(), IoErrorKind::Other));
    let inner: Rc<dyn Store> = files.clone();
    let layer =
        BlobCleanup::new(inner, |_key: &str, _meta: &BlobMeta| true).with_batch_size(1);
    files.put(vec![blob("a", b"")]).unwrap();
    assert!(matches!(cleanup(&layer), Err(BlobStorageError::Batch(_))));
}

#[test]
fn test_encrypted_cleanup_deletes_both_objects() {
    let files = Files::new();
    let enc: Rc<dyn Store> = Rc::new(encrypted(files.clone(), 7));
    enc.put(vec![
        blob("keep.txt", b"keep"),
        blob("delete_me.txt", b"delete"),
        blob("also_delete.txt", b"also"),
    ])
    .unwrap();
    let layer = BlobCleanup::new(enc.clone(), |key: &str, _meta: &BlobMeta| {
        key.starts_with("delete") || key.starts_with("also_delete")
    });
    assert_eq!(cleanup(&layer).unwrap(), 2);
    assert!(!enc.has("delete_me.txt").unwrap());
    assert!(!enc.has("also_delete.txt").unwrap());
    assert!(!files.has("delete_me.txt").unwrap());
    assert!(!files.has("delete_me.txt.enc-header").unwrap());
    assert!(!files.has("also_delete.txt.enc-header").unwrap());
    assert!(enc.has("keep.txt").unwrap());
    assert_eq!(enc.list(&SuffixFilter::new("")).unwrap(), vec!["keep.txt"]);
}

#[test]
fn test_orphan_data_survives_cleanup() {
    let files = Files::new();
    let enc: Rc<dyn Store> = Rc::new(encrypted(files.clone(), 7));
    enc.put(vec![blob("valid.txt", b"valid"), blob("to_clean.txt", b"clean me")]).unwrap();
    files.put(vec![blob("orphan.txt", b"orphan data")]).unwrap();
    assert!(!enc.has("orphan.txt").unwrap());
    files.delete(&["to_clean.txt"]).unwrap();
    assert!(files.has("to_clean.txt.enc-header").unwrap());
    let layer = BlobCleanup::new(enc, |_key: &str, _meta: &BlobMeta| true);
    assert_eq!(cleanup(&layer).unwrap(), 1);
    assert!(files.has("orphan.txt").unwrap());
    assert!(files.has("to_clean.txt.enc-header").unwrap());
    assert!(!files.has("valid.txt").unwrap());
}

#[test]
fn cleanup_without_metadata_sees_a_placeholder() {
    let layer = BlobCleanup::new((), |key: &str, meta: &BlobMeta| {
        meta.key == key && meta.stored_size == 0 && meta.etag.is_none() && meta.modified_at.secs > 0
    });
    assert!(layer.selects("some-key", None));
    let real = BlobMeta::for_key("other");
    assert!(!layer.selects("some-key", Some(&real)));
}

// Scenarios that every backend has to meet.

#[test]
fn put_and_get() {
    let store = Files::new();
    let result = store.put(vec![blob("test.txt", b"hello world")]).unwrap();
    assert_eq!(result.blobs.len(), 1);
    assert_eq!(result.blobs[0].key, "test.txt");
    assert_eq!(result.blobs[0].stored_size, 11);
    assert_eq!(store.get("test.txt").unwrap(), b"hello world");
    store.put(vec![blob("test.txt", b"again")]).unwrap();
    assert_eq!(store.get("test.txt").unwrap(), b"again");
    store.delete(&["test.txt", "never.txt"]).unwrap();
    assert!(!store.has("test.txt").unwrap());
}

#[test]
fn delete_refuses_traversal() {
    let store = Files::new();
    let result = store.delete(&["../path-traversal.txt"]);
    assert!(matches!(result, Err(BlobStorageError::InvalidInput(_))));
}

#[test]
fn nested_keys_and_hints() {
    let store = Files::new();
    store
        .put(vec![
            blob("a/b/c.txt", b"nested"),
            blob("a/b/d.txt", b"nested2"),
            blob("x/y.txt", b"other"),
        ])
        .unwrap();
    let under = vec!["a/b/c.txt", "a/b/d.txt"];
    assert_eq!(store.list(&PrefixFilter::new("a/b/")).unwrap(), under);
    assert_eq!(store.list(&PrefixFilter::new("a/b")).unwrap(), under);
    assert_eq!(store.list(&PrefixFilter::new("")).unwrap().len(), 3);
    let outside = NotFilter::new(Box::new(PrefixFilter::new("a/b/")));
    assert_eq!(store.list(&outside).unwrap(), vec!["x/y.txt"]);
    assert_eq!(store.list_with_metadata(&SuffixFilter::new(".txt")).unwrap().len(), 3);
}

#[test]
fn prefixed_listing_by_directory_and_by_name() {
    let store = prefixed(Files::new(), "my-app/");
    store
        .put(vec![
            blob("users/alice.txt", b"alice"),
            blob("users/bob.txt", b"bob"),
            blob("config.json", b"config"),
        ])
        .unwrap();
    let users = vec!["users/alice.txt", "users/bob.txt"];
    assert_eq!(store.list(&PrefixFilter::new("users/")).unwrap(), users);
    assert_eq!(store.list(&PrefixFilter::new("users")).unwrap(), users);
}

// Stores that a builder plans.

type Predicate = Box<dyn Fn(&str, &BlobMeta) -> bool>;

/// A signal that any number of tasks look at, each with what it saw last.
#[derive(Clone)]
struct Manual {
    signal: Rc<Cell<u64>>,
}

impl Manual {
    fn new() -> Manual {
        Manual { signal: Rc::new(Cell::new(0)) }
    }

    fn trigger(&self) {
        self.signal.set(next_signal(self.signal.get()));
    }
}

enum Strategy {
    OnStart,
    Periodic(Periodic),
    Manual(Manual),
    TriggerOnce,
    Broken,
}

impl BackgroundStrategy for Strategy {
    fn validate(&self) -> Result<()> {
        match self {
            Strategy::OnStart => OnStart.validate(),
            Strategy::Periodic(p) => p.validate(),
            Strategy::Broken => {
                Err(BlobStorageError::InvalidInput("broken strategy".to_string()))
            }
            _ => Ok(()),
        }
    }
}

struct Parts;

impl Handles for Parts {
    type Root = Rc<Files>;
    type Client = ();
    type Store = Rc<dyn Store>;
    type Provider = Shift;
    type Predicate = Predicate;
    type Strategy = Strategy;
    type Layer = Box<dyn Fn(Rc<dyn Store>) -> Rc<dyn Store>>;
}

struct Clean(BlobCleanup<Rc<dyn Store>, Predicate>);

impl Store for Clean {
    fn put(&self, blobs: Vec<BlobInput<Vec<u8>>>) -> Result<PutResult> {
        self.0.inner.put(blobs)
    }
    fn get(&self, key: &str) -> Result<Vec<u8>> {
        self.0.inner.get(key)
    }
    fn delete(&self, keys: &[&str]) -> Result<()> {
        self.0.inner.delete(keys)
    }
    fn list(&self, filter: &dyn ListFilter) -> Result<Vec<String>> {
        self.0.inner.list(filter)
    }
    fn has(&self, key: &str) -> Result<bool> {
        self.0.inner.has(key)
    }
    fn get_with_metadata(&self, key: &str) -> Result<(BlobMeta, Vec<u8>)> {
        self.0.inner.get_with_metadata(key)
    }
    fn list_with_metadata(&self, filter: &dyn ListFilter) -> Result<Vec<BlobMeta>> {
        self.0.inner.list_with_metadata(filter)
    }
    fn visit(&self, filter: &dyn ListFilter, visitor: Visitor) -> Result<()> {
        self.0.inner.visit(filter, visitor)
    }
}

type Job = Rc<dyn Fn()>;

/// A task with what it waits for.
enum Waiting {
    Nothing,
    Tick(AwaitTick),
    Change(Manual, u64),
}

/// A store with its maintenance, which runs where a test says so.
struct Running {
    store: Rc<dyn Store>,
    tasks: Vec<(Waiting, Job)>,
    queue: VecDeque<Job>,
    cancelled: bool,
}

impl Running {
    fn open(plan: BuildPlan<Parts>) -> Running {
        let mut store: Rc<dyn Store> = match plan.backend {
            Backend::Fs(files) => files,
            Backend::Custom(store) => store,
            Backend::S3(_) => panic!("no bucket here"),
        };
        let mut jobs: Vec<Option<Job>> = vec![];
        for wrap in plan.wraps {
            match wrap {
                Wrap::Prefix(prefix) => {
                    store = Rc::new(prefixed(store, &prefix));
                    jobs.push(None);
                }
                Wrap::Encryption(shift) => {
                    let layer = Rc::new(Encrypted::new(store, shift));
                    let job = layer.clone();
                    jobs.push(Some(Rc::new(move || {
                        let _ = rekey(&job);
                    })));
                    store = layer;
                }
                Wrap::Cleanup { predicate, batch_size } => {
                    let layer = BlobCleanup::new(store, predicate).with_batch_size(batch_size);
                    let layer = Rc::new(Clean(layer));
                    let job = layer.clone();
                    jobs.push(Some(Rc::new(move || {
                        let _ = cleanup(&job.0);
                    })));
                    store = layer;
                }
                Wrap::Custom(layer) => {
                    store = layer(store);
                    jobs.push(None);
                }
            }
        }
        let mut running =
            Running { store, tasks: vec![], queue: VecDeque::new(), cancelled: false };
        for task in plan.tasks {
            let job = jobs[task.layer].clone().unwrap();
            let waiting = match task.strategy {
                Strategy::OnStart => {
                    if OnStart.triggers(running.cancelled) {
                        running.queue.push_back(job.clone());
                    }
                    Waiting::Nothing
                }
                Strategy::TriggerOnce => {
                    running.queue.push_back(job.clone());
                    Waiting::Nothing
                }
                Strategy::Manual(manual) => {
                    let seen = manual.signal.get();
                    Waiting::Change(manual, seen)
                }
                Strategy::Periodic(p) => running.periodic(p.schedule(), &job),
                Strategy::Broken => panic!("a broken strategy was accepted"),
            };
            running.tasks.push((waiting, job));
        }
        running
    }

    fn periodic(&mut self, step: PeriodicStep, job: &Job) -> Waiting {
        match step {
            PeriodicStep::Trigger { then } => {
                self.queue.push_back(job.clone());
                self.periodic(then.triggered(true), job)
            }
            PeriodicStep::Sleep { then, .. } => Waiting::Tick(then),
            PeriodicStep::Stop => Waiting::Nothing,
        }
    }

    /// Let every interval pass once, let every task look at its signal, and empty
    /// the queue.
    fn turn(&mut self) {
        for (waiting, job) in std::mem::take(&mut self.tasks) {
            let next = match waiting {
                Waiting::Nothing => Waiting::Nothing,
                Waiting::Tick(then) => self.periodic(then.woken(false, self.cancelled), &job),
                Waiting::Change(manual, seen) => {
                    let signal = if self.cancelled {
                        Signal::Cancelled
                    } else {
                        Signal::Changed
                    };
                    if !self.cancelled && manual.signal.get() == seen {
                        Waiting::Change(manual, seen)
                    } else {
                        match manual_signalled(signal) {
                            ManualStep::Trigger => {
                                self.queue.push_back(job.clone());
                                assert!(matches!(manual_triggered(true), ManualStep::Wait));
                                let seen = manual.signal.get();
                                Waiting::Change(manual, seen)
                            }
                            _ => Waiting::Nothing,
                        }
                    }
                }
            };
            self.tasks.push((next, job));
        }
        self.work();
    }

    fn work(&mut self) {
        while let Some(job) = self.queue.pop_front() {
            let event = if self.cancelled {
                WorkerEvent::Cancelled
            } else {
                WorkerEvent::Task(job)
            };
            match worker_step(event) {
                WorkerStep::Run(job) => job(),
                WorkerStep::Stop => self.queue.clear(),
            }
        }
    }
}

fn builder() -> BlobStoreBuilder<NoBackend, Parts> {
    BlobStoreBuilder::new()
}

fn by_prefix(prefix: &'static str) -> Predicate {
    Box::new(move |key: &str, _meta: &BlobMeta| key.starts_with(prefix))
}

fn counting(counter: &Rc<Cell<usize>>) -> Predicate {
    let counter = counter.clone();
    Box::new(move |_key: &str, _meta: &BlobMeta| {
        counter.set(counter.get() + 1);
        false
    })
}

fn millis(n: u32) -> Strategy {
    Strategy::Periodic(Periodic(Interval { secs: 0, nanos: n * 1_000_000 }))
}

struct TrackingStore {
    inner: Rc<dyn Store>,
    puts: Cell<u64>,
    gets: Cell<u64>,
}

impl TrackingStore {
    fn new(inner: Rc<dyn Store>) -> TrackingStore {
        TrackingStore { inner, puts: Cell::new(0), gets: Cell::new(0) }
    }
}

impl Store for TrackingStore {
    fn put(&self, blobs: Vec<BlobInput<Vec<u8>>>) -> Result<PutResult> {
        self.puts.set(self.puts.get() + 1);
        self.inner.put(blobs)
    }
    fn get(&self, key: &str) -> Result<Vec<u8>> {
        self.gets.set(self.gets.get() + 1);
        self.inner.get(key)
    }
    fn delete(&self, keys: &[&str]) -> Result<()> {
        self.inner.delete(keys)
    }
    fn list(&self, filter: &dyn ListFilter) -> Result<Vec<String>> {
        self.inner.list(filter)
    }
    fn has(&self, key: &str) -> Result<bool> {
        self.inner.has(key)
    }
    fn get_with_metadata(&self, key: &str) -> Result<(BlobMeta, Vec<u8>)> {
        self.inner.get_with_metadata(key)
    }
    fn list_with_metadata(&self, filter: &dyn ListFilter) -> Result<Vec<BlobMeta>> {
        self.inner.list_with_metadata(filter)
    }
    fn visit(&self, filter: &dyn ListFilter, visitor: Visitor) -> Result<()> {
        self.inner.visit(filter, visitor)
    }
}

#[test]
fn test_builder_with_backend() {
    let tracking = Rc::new(TrackingStore::new(Files::new()));
    let plan = builder().with_backend(tracking.clone()).build().unwrap();
    let running = Running::open(plan);
    running.store.put(vec![blob("test.txt", b"data")]).unwrap();
    assert_eq!(running.store.get("test.txt").unwrap(), b"data");
    assert_eq!(tracking.puts.get(), 1);
    assert_eq!(tracking.gets.get(), 1);
}

#[test]
fn test_builder_with_layer() {
    let plan = builder()
        .with_fs(Files::new())
        .with_layer(Box::new(|inner| Rc::new(TrackingStore::new(inner))))
        .build()
        .unwrap();
    assert!(plan.tasks.is_empty());
    let running = Running::open(plan);
    running.store.put(vec![blob("test.txt", b"data")]).unwrap();
    assert_eq!(running.store.get("test.txt").unwrap(), b"data");
}

#[test]
fn test_builder_with_encryption_and_builder_rekey() {
    let plan = builder()
        .with_fs(Files::new())
        .with_encryption(Shift::rekeyable(7, 1))
        .with_rekey(Strategy::OnStart)
        .build()
        .unwrap();
    let mut running = Running::open(plan);
    assert_eq!(running.queue.len(), 1);
    running.work();
    running.store.put(vec![blob("data.txt", b"hello rekey")]).unwrap();
    assert_eq!(running.store.get("data.txt").unwrap(), b"hello rekey");
}

#[test]
fn test_builder_with_clean() {
    let plan = builder()
        .with_fs(Files::new())
        .with_clean(by_prefix("tmp-"), Strategy::Manual(Manual::new()))
        .build()
        .unwrap();
    let mut running = Running::open(plan);
    running.store.put(vec![blob("tmp-a.txt", b"temp"), blob("keep.txt", b"permanent")]).unwrap();
    running.turn();
    assert_eq!(running.store.list(&SuffixFilter::new("")).unwrap().len(), 2);
}

#[test]
fn test_builder_with_clean_batch_size() {
    let plan = builder()
        .with_fs(Files::new())
        .with_clean(by_prefix(""), Strategy::Manual(Manual::new()))
        .with_clean_batch_size(1)
        .build()
        .unwrap();
    assert!(matches!(plan.wraps[0], Wrap::Cleanup { batch_size: 1, .. }));
    let running = Running::open(plan);
    running
        .store
        .put(vec![blob("a.txt", b"a"), blob("b.txt", b"b"), blob("c.txt", b"c")])
        .unwrap();
    assert_eq!(running.store.list(&SuffixFilter::new("")).unwrap().len(), 3);
}

#[test]
fn test_builder_multiple_layers() {
    let plan = builder()
        .with_fs(Files::new())
        .with_prefix("multi/")
        .with_encryption(Shift::new(13))
        .build()
        .unwrap();
    let running = Running::open(plan);
    running.store.put(vec![blob("test.txt", b"multi-layer test")]).unwrap();
    assert_eq!(running.store.get("test.txt").unwrap(), b"multi-layer test");
}

#[test]
fn test_blob_input_with_size() {
    let running = Running::open(builder().with_fs(Files::new()).build().unwrap());
    let data = b"size hint test";
    let input = BlobInput::with_size("sized.txt", data.to_vec(), data.len() as u64);
    running.store.put(vec![input]).unwrap();
    assert_eq!(running.store.get("sized.txt").unwrap(), data);
}

#[test]
fn settings_reach_the_layers_they_are_for() {
    let plan = builder()
        .with_fs(Files::new())
        .with_clean(by_prefix("x"), Strategy::OnStart)
        .with_prefix("p/")
        .with_clean_batch_size(7)
        .with_rekey(Strategy::OnStart)
        .build()
        .unwrap();
    assert!(matches!(plan.wraps[0], Wrap::Cleanup { batch_size: 7, .. }));
    assert!(matches!(&plan.wraps[1], Wrap::Prefix(p) if p == "p/"));
    assert_eq!(plan.wraps.len(), 2);
    assert_eq!(plan.tasks.len(), 1);
    assert_eq!(plan.tasks[0].layer, 0);
}

#[test]
fn batch_size_is_that_of_the_latest_cleanup_layer() {
    let plan = builder()
        .with_backend(Files::new())
        .with_clean_batch_size(5)
        .with_clean(by_prefix("a"), Strategy::OnStart)
        .with_clean(by_prefix("b"), Strategy::TriggerOnce)
        .with_prefix("x/")
        .with_encryption(Shift::new(1))
        .with_clean_batch_size(2)
        .build()
        .unwrap();
    assert!(matches!(plan.wraps[0], Wrap::Cleanup { batch_size: 1000, .. }));
    assert!(matches!(plan.wraps[1], Wrap::Cleanup { batch_size: 2, .. }));
    assert!(matches!(&plan.wraps[2], Wrap::Prefix(p) if p == "x/"));
    assert!(matches!(plan.wraps[3], Wrap::Encryption(_)));
    assert_eq!(plan.wraps.len(), 4);
    assert_eq!(plan.tasks.len(), 2);
    assert!(matches!(plan.tasks[1].strategy, Strategy::TriggerOnce));
    let none = builder().with_backend(Files::new()).with_prefix("x/").with_clean_batch_size(2);
    assert_eq!(none.build().unwrap().wraps.len(), 1);
}

#[test]
fn rekey_strategy_is_taken_right_after_encryption_only() {
    let bare = builder().with_backend(Files::new());
    assert!(!bare.takes_rekey());
    let encrypted = bare.with_encryption(Shift::new(1));
    assert!(encrypted.takes_rekey());
    let covered = encrypted.with_prefix("x/");
    assert!(!covered.takes_rekey());
    assert_eq!(covered.with_rekey(Strategy::OnStart).build().unwrap().tasks.len(), 0);
}

#[test]
fn tasks_follow_layers() {
    let plan = BlobStoreBuilder::<NoBackend, Parts>::default()
        .with_fs(Files::new())
        .with_clean(by_prefix("x"), millis(10))
        .with_prefix("p/")
        .with_encryption(Shift::new(1))
        .with_encryption(Shift::new(2))
        .with_rekey(Strategy::OnStart)
        .build()
        .unwrap();
    let layers: Vec<usize> = plan.tasks.iter().map(|t| t.layer).collect();
    assert_eq!(layers, vec![0, 3]);
    assert!(matches!(plan.tasks[0].strategy, Strategy::Periodic(_)));
    assert!(matches!(plan.tasks[1].strategy, Strategy::OnStart));
}

#[test]
fn test_manual_strategy_trigger_cleanup() {
    let manual = Manual::new();
    let plan = builder()
        .with_fs(Files::new())
        .with_clean(by_prefix("tmp-"), Strategy::Manual(manual.clone()))
        .build()
        .unwrap();
    let mut running = Running::open(plan);
    running
        .store
        .put(vec![blob("tmp-file.txt", b"temp"), blob("keep.txt", b"permanent")])
        .unwrap();
    manual.trigger();
    running.turn();
    let remaining = running.store.list(&SuffixFilter::new("")).unwrap();
    assert_eq!(remaining.len(), 1);
    assert!(remaining.contains(&"keep.txt".to_string()));
    manual.trigger();
    running.turn();
    assert_eq!(running.store.list(&SuffixFilter::new("")).unwrap().len(), 1);
}

#[test]
fn test_onstart_rekey_store_readable() {
    let plan = builder()
        .with_fs(Files::new())
        .with_encryption(Shift::rekeyable(7, 1))
        .with_rekey(Strategy::OnStart)
        .build()
        .unwrap();
    let mut running = Running::open(plan);
    running.store.put(vec![blob("data.txt", b"test data")]).unwrap();
    running.work();
    assert_eq!(running.store.get("data.txt").unwrap(), b"test data");
}

#[test]
fn test_periodic_duration_zero_rejected() {
    let files = Files::new();
    let zero = Strategy::Periodic(Periodic(Interval { secs: 0, nanos: 0 }));
    let result = builder().with_fs(files).with_clean(by_prefix(""), zero).build();
    let msg = result.err().unwrap().to_string();
    assert!(msg.contains("non-zero"));
    assert_eq!(msg, "invalid input: Periodic duration must be non-zero");
    assert!(matches!(
        Periodic(Interval { secs: 0, nanos: 0 }).schedule(),
        PeriodicStep::Stop
    ));
    assert!(Periodic(Interval { secs: 0, nanos: 1 }).validate().is_ok());
}

#[test]
fn test_builder_cleanup_with_manual_passthrough() {
    let plan = builder()
        .with_fs(Files::new())
        .with_clean(by_prefix("tmp-"), Strategy::Manual(Manual::new()))
        .build()
        .unwrap();
    let running = Running::open(plan);
    running.store.put(vec![blob("test.txt", b"hello"), blob("tmp-data.txt", b"temp")]).unwrap();
    assert_eq!(running.store.list(&SuffixFilter::new("")).unwrap().len(), 2);
}

#[test]
fn test_external_strategy() {
    let files = Files::new();
    files.put(vec![blob("some-blob", b"data")]).unwrap();
    let counter = Rc::new(Cell::new(0));
    let plan = builder()
        .with_fs(files)
        .with_clean(counting(&counter), Strategy::TriggerOnce)
        .with_clean_batch_size(1)
        .build()
        .unwrap();
    let mut running = Running::open(plan);
    running.turn();
    running.turn();
    assert_eq!(counter.get(), 1);
}

#[test]
fn manual_trigger_immediately_after_build() {
    let files = Files::new();
    files.put(vec![blob("tmp-blob", b"data")]).unwrap();
    let manual = Manual::new();
    let plan = builder()
        .with_fs(files)
        .with_clean(by_prefix("tmp-"), Strategy::Manual(manual.clone()))
        .with_clean_batch_size(1)
        .build()
        .unwrap();
    let mut running = Running::open(plan);
    manual.trigger();
    running.turn();
    assert!(running.store.list(&SuffixFilter::new("")).unwrap().is_empty());
}

#[test]
fn manual_multiple_quick_triggers_coalesce() {
    let files = Files::new();
    files.put(vec![blob("blob-a", b"data")]).unwrap();
    let manual = Manual::new();
    let counter = Rc::new(Cell::new(0));
    let plan = builder()
        .with_fs(files)
        .with_clean(counting(&counter), Strategy::Manual(manual.clone()))
        .with_clean_batch_size(1)
        .build()
        .unwrap();
    let mut running = Running::open(plan);
    for _ in 0..20 {
        manual.trigger();
    }
    running.turn();
    running.turn();
    assert!(counter.get() >= 1);
    assert!(counter.get() < 20);
}

#[test]
fn manual_stops_on_cancellation() {
    let files = Files::new();
    files.put(vec![blob("blob-a", b"data")]).unwrap();
    let manual = Manual::new();
    let counter = Rc::new(Cell::new(0));
    let plan = builder()
        .with_fs(files)
        .with_clean(counting(&counter), Strategy::Manual(manual.clone()))
        .build()
        .unwrap();
    let mut running = Running::open(plan);
    running.cancelled = true;
    manual.trigger();
    running.turn();
    assert_eq!(counter.get(), 0);
    assert!(matches!(running.tasks[0].0, Waiting::Nothing));
    assert!(matches!(manual_signalled(Signal::Closed), ManualStep::Stop));
    assert!(matches!(manual_triggered(false), ManualStep::Stop));
    assert!(!OnStart.triggers(true));
}

#[test]
fn refused_strategy_fails_the_build() {
    let result = builder()
        .with_fs(Files::new())
        .with_clean(by_prefix(""), millis(5))
        .with_clean(by_prefix(""), Strategy::Broken)
        .build();
    assert_eq!(result.err().unwrap().to_string(), "invalid input: broken strategy");
}

#[test]
fn builtin_strategies_build_successfully() {
    let minute = Strategy::Periodic(Periodic(Interval { secs: 60, nanos: 0 }));
    for strategy in [Strategy::OnStart, minute, Strategy::Manual(Manual::new())] {
        let result = builder().with_fs(Files::new()).with_clean(by_prefix(""), strategy).build();
        assert!(result.is_ok());
    }
}

#[test]
fn test_one_manual_triggers_multiple_waiters() {
    let files = Files::new();
    files.put(vec![blob("some-blob", b"data")]).unwrap();
    let manual = Manual::new();
    let counter1 = Rc::new(Cell::new(0));
    let counter2 = Rc::new(Cell::new(0));
    let plan = builder()
        .with_fs(files)
        .with_clean(counting(&counter1), Strategy::Manual(manual.clone()))
        .with_clean_batch_size(1)
        .with_clean(counting(&counter2), Strategy::Manual(manual.clone()))
        .with_clean_batch_size(1)
        .build()
        .unwrap();
    let mut running = Running::open(plan);
    manual.trigger();
    running.turn();
    running.turn();
    assert_eq!(counter1.get(), 1);
    assert_eq!(counter2.get(), 1);
}

#[test]
fn test_periodic_shutdown_stops() {
    let files = Files::new();
    files.put(vec![blob("some-blob", b"data")]).unwrap();
    let counter = Rc::new(Cell::new(0));
    let plan = builder()
        .with_fs(files)
        .with_clean(counting(&counter), millis(10))
        .with_clean_batch_size(1)
        .build()
        .unwrap();
    let mut running = Running::open(plan);
    running.turn();
    running.turn();
    let before = counter.get();
    assert!(before >= 1);
    running.cancelled = true;
    for _ in 0..10 {
        running.turn();
    }
    assert!(counter.get() <= before + 1);
    assert!(matches!(running.tasks[0].0, Waiting::Nothing));
}

#[test]
fn test_sequential_execution() {
    let files = Files::new();
    files.put(vec![blob("blob-1", b"data1")]).unwrap();
    let order: Rc<RefCell<Vec<&str>>> = Rc::new(RefCell::new(vec![]));
    let order1 = order.clone();
    let order2 = order.clone();
    let first: Predicate = Box::new(move |_key: &str, _meta: &BlobMeta| {
        order1.borrow_mut().push("OnStart");
        false
    });
    let second: Predicate = Box::new(move |_key: &str, _meta: &BlobMeta| {
        order2.borrow_mut().push("Manual");
        false
    });
    let manual = Manual::new();
    let plan = builder()
        .with_fs(files)
        .with_clean(first, Strategy::OnStart)
        .with_clean_batch_size(1)
        .with_clean(second, Strategy::Manual(manual.clone()))
        .with_clean_batch_size(1)
        .build()
        .unwrap();
    let mut running = Running::open(plan);
    manual.trigger();
    running.turn();
    assert_eq!(*order.borrow(), vec!["OnStart", "Manual"]);
}

#[test]
fn many_onstart_no_silent_loss() {
    let files = Files::new();
    files.put(vec![blob("some-blob", b"data")]).unwrap();
    let counter = Rc::new(Cell::new(0));
    let num_layers = 32usize;
    assert!(num_layers > QUEUE_CAPACITY);
    let mut b = builder().with_fs(files);
    for _ in 0..num_layers {
        b = b.with_clean(counting(&counter), Strategy::OnStart).with_clean_batch_size(1);
    }
    let mut running = Running::open(b.build().unwrap());
    running.work();
    assert_eq!(counter.get(), num_layers);
}

#[test]
fn periodic_initial_tick_not_dropped() {
    let files = Files::new();
    files.put(vec![blob("some-blob", b"data")]).unwrap();
    let onstart = Rc::new(Cell::new(0));
    let periodic = Rc::new(Cell::new(0));
    let onstart_num = 30usize;
    let mut b = builder().with_fs(files);
    for _ in 0..onstart_num {
        b = b.with_clean(counting(&onstart), Strategy::OnStart).with_clean_batch_size(1);
    }
    let plan = b.with_clean(counting(&periodic), millis(50)).with_clean_batch_size(1).build();
    let mut running = Running::open(plan.unwrap());
    running.work();
    assert_eq!(onstart.get(), onstart_num);
    assert_eq!(periodic.get(), 1);
    running.turn();
    assert!(periodic.get() > 1);
}

#[test]
fn manual_signal_wraps_around() {
    assert_eq!(next_signal(0), 1);
    assert_eq!(next_signal(u64::MAX), 0);
}

#[test]
fn queue_failures() {
    assert_eq!(
        queue_error(QueueFailure::Full).to_string(),
        "invalid input: maintenance queue full"
    );
    assert_eq!(
        queue_error(QueueFailure::ShutDown).to_string(),
        "invalid input: maintenance queue shut down"
    );
    assert!(matches!(worker_step::<u8>(WorkerEvent::Closed), WorkerStep::Stop));
}
