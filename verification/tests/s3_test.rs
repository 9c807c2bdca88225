//! The object store, driven over a bucket in memory.

use std::cell::Cell;
use std::cell::RefCell;
use std::collections::BTreeMap;

use xtax_blob_storage::blob_store::after_visit;
use xtax_blob_storage::blob_store::VisitStep;
use xtax_blob_storage::error::ErrorSource;
use xtax_blob_storage::error::IoErrorKind;
use xtax_blob_storage::error::IoFailure;
use xtax_blob_storage::listing::MetaListing;
use xtax_blob_storage::builder::Backend;
use xtax_blob_storage::builder::Handles;
use xtax_blob_storage::s3::delete::DeleteReply;
use xtax_blob_storage::s3::delete::DeleteStep;
use xtax_blob_storage::s3::delete::ObjectError;
use xtax_blob_storage::s3::is_misconfigured;
use xtax_blob_storage::s3::is_not_found;
use xtax_blob_storage::s3::listing::Page;
use xtax_blob_storage::s3::listing::PageRequest;
use xtax_blob_storage::s3::listing::PageStep;
use xtax_blob_storage::s3::put::PutStep;
use xtax_blob_storage::s3::s3_time_to_utc;
use xtax_blob_storage::s3::upload::UploadStep;
use xtax_blob_storage::s3::S3Failure;
use xtax_blob_storage::s3::S3Object;
use xtax_blob_storage::BlobInput;
use xtax_blob_storage::BlobMeta;
use xtax_blob_storage::BlobStorageError;
use xtax_blob_storage::BlobStoreBuilder;
use xtax_blob_storage::ListFilter;
use xtax_blob_storage::NoBackend;
use xtax_blob_storage::OnStart;
use xtax_blob_storage::PrefixFilter;
use xtax_blob_storage::PutResult;
use xtax_blob_storage::Result;
use xtax_blob_storage::S3BlobStore;
use xtax_blob_storage::SuffixFilter;
use xtax_blob_storage::Timestamp;

const MIB: usize = 1024 * 1024;

type Reply<T> = std::result::Result<T, S3Failure>;

/// A client of a service with a single bucket.
struct Client {
    objects: RefCell<BTreeMap<String, Vec<u8>>>,
    parts: RefCell<Vec<Vec<u8>>>,
    requests: RefCell<Vec<String>>,
    fail: RefCell<Option<(String, String)>>,
    undeletable: RefCell<Vec<(String, String)>>,
    page_size: Cell<usize>,
}

fn failure(code: &str) -> S3Failure {
    S3Failure {
        code: Some(code.to_string()),
        source: ErrorSource { messages: vec!["service error".to_string()] },
    }
}

impl Client {
    fn new() -> Client {
        Client {
            objects: RefCell::new(BTreeMap::new()),
            parts: RefCell::new(vec![]),
            requests: RefCell::new(vec![]),
            fail: RefCell::new(None),
            undeletable: RefCell::new(vec![]),
            page_size: Cell::new(1000),
        }
    }

    fn request(&self, name: &str) -> Reply<()> {
        self.requests.borrow_mut().push(name.to_string());
        match &*self.fail.borrow() {
            Some((n, code)) if name.starts_with(n.as_str()) => Err(failure(code)),
            _ => Ok(()),
        }
    }

    fn page(&self, request: &PageRequest) -> Reply<Page> {
        self.request("ListObjectsV2")?;
        let prefix = request.prefix.clone().unwrap_or_default();
        let after = request.token.clone().unwrap_or_default();
        let objects = self.objects.borrow();
        let mut left = objects.iter().filter(|o| o.0.starts_with(&prefix) && *o.0 > after);
        let mut page = Page { objects: vec![], next_token: None };
        while page.objects.len() < self.page_size.get() {
            match left.next() {
                Some((key, data)) => page.objects.push(S3Object {
                    key: Some(key.clone()),
                    size: Some(data.len() as i64),
                    etag: Some(format!("\"{}\"", data.len())),
                    last_modified: Some((1_700_000_000, 1)),
                }),
                None => break,
            }
        }
        if left.next().is_some() {
            page.next_token = page.objects.last().and_then(|o| o.key.clone());
        }
        Ok(page)
    }
}

/// Data that is read some bytes at a time.
struct Source {
    data: Vec<u8>,
    pos: usize,
    chunk: usize,
    fails_at: Option<usize>,
}

impl Source {
    fn read(&mut self, limit: usize) -> std::result::Result<Vec<u8>, IoFailure> {
        if self.fails_at.map(|n| self.pos >= n).unwrap_or(false) {
            return Err(IoFailure {
                kind: IoErrorKind::Other,
                message: "torn".to_string(),
                causes: vec!["cable".to_string()],
            });
        }
        let n = limit.min(self.chunk).min(self.data.len() - self.pos);
        let bytes = self.data[self.pos..self.pos + n].to_vec();
        self.pos += n;
        Ok(bytes)
    }
}

fn whole(data: Vec<u8>) -> Source {
    Source { data, pos: 0, chunk: usize::MAX, fails_at: None }
}

fn bytewise(data: Vec<u8>) -> Source {
    Source { data, pos: 0, chunk: 1, fails_at: None }
}

type Store = S3BlobStore<Client>;

fn upload(store: &Store, key: &str, lookahead: &[u8], data: &mut Source) -> Result<BlobMeta> {
    let client = store.client_ref();
    let mut ahead = 0;
    let mut step = store.upload_multipart(key);
    loop {
        step = match step {
            UploadStep::Create { key: _, then } => {
                client.parts.borrow_mut().clear();
                then.created(
                    client.request("CreateMultipartUpload").map(|_| Some("up-1".to_string())),
                )
            }
            UploadStep::ReadPart { limit, then } => {
                let mut part: Vec<u8> = vec![];
                let mut torn: Option<IoFailure> = None;
                while part.len() < limit as usize {
                    let room = limit as usize - part.len();
                    if ahead < lookahead.len() {
                        let n = room.min(lookahead.len() - ahead);
                        part.extend_from_slice(&lookahead[ahead..ahead + n]);
                        ahead += n;
                    } else {
                        match data.read(room) {
                            Ok(bytes) if bytes.is_empty() => break,
                            Ok(bytes) => part.extend_from_slice(&bytes),
                            Err(e) => {
                                torn = Some(e);
                                break;
                            }
                        }
                    }
                }
                then.read(match torn {
                    Some(e) => Err(e),
                    None => Ok(part),
                })
            }
            UploadStep::UploadPart { key: _, upload_id, part_number, body, then } => {
                assert_eq!(upload_id, "up-1");
                let reply = client.request(&format!("UploadPart {}", part_number));
                client.parts.borrow_mut().push(body);
                then.uploaded(reply.map(|_| Some(format!("etag-{}", part_number))))
            }
            UploadStep::Complete { key, upload_id, parts, then } => {
                assert_eq!(upload_id, "up-1");
                for (i, part) in parts.iter().enumerate() {
                    assert_eq!(part.part_number, i as i32 + 1);
                    assert_eq!(part.etag, format!("etag-{}", i + 1));
                }
                let reply = client.request("CompleteMultipartUpload").map(|_| {
                    let object = client.parts.borrow().concat();
                    client.objects.borrow_mut().insert(key, object);
                    Some("\"multi\"".to_string())
                });
                then.completed(reply)
            }
            UploadStep::Abort { key: _, upload_id, then } => {
                assert_eq!(upload_id, "up-1");
                let _ = client.request("AbortMultipartUpload");
                then.aborted()
            }
            UploadStep::Done(r) => return r,
        };
    }
}

fn put(store: &Store, blobs: Vec<BlobInput<Source>>) -> Result<PutResult> {
    let client = store.client_ref();
    let mut step = store.put(blobs);
    loop {
        step = match step {
            PutStep::Read { mut data, limit, then } => {
                assert!(limit > 0);
                let bytes = data.read(limit);
                match &bytes {
                    Ok(chunk) => then.read(data, Ok(chunk)),
                    Err(_) => then.read(data, Err(bytes.err().unwrap())),
                }
            }
            PutStep::PutObject { key, body, then } => {
                let reply = client.request("PutObject").map(|_| {
                    client.objects.borrow_mut().insert(key, body.to_vec());
                    Some("\"single\"".to_string())
                });
                then.stored(reply)
            }
            PutStep::Multipart { key, lookahead, mut data, then } => {
                let reply = upload(store, &key, &lookahead, &mut data);
                then.uploaded(reply)
            }
            PutStep::Done(r) => return r,
        };
    }
}

fn get(store: &Store, key: &str) -> Result<Vec<u8>> {
    let client = store.client_ref();
    let object = store.read_request(key)?;
    if let Err(e) = client.request("GetObject") {
        return Err(store.get_object_error(key, e));
    }
    match client.objects.borrow().get(&object) {
        Some(data) => Ok(data.clone()),
        None => Err(store.get_object_error(key, failure("NoSuchKey"))),
    }
}

/// The only failure of a batch error, and the keys that succeeded.
fn only_failure(e: BlobStorageError) -> (Vec<String>, String, String) {
    match e {
        BlobStorageError::Batch(mut batch) => {
            assert_eq!(batch.errors.len(), 1);
            let failed = batch.errors.remove(0);
            (batch.succeeded, failed.key, failed.error.to_string())
        }
        other => panic!("unexpected {other:?}"),
    }
}

fn delete(store: &Store, keys: &[&str]) -> Result<()> {
    let client = store.client_ref();
    let mut step = store.delete(keys.iter().map(|k| k.to_string()).collect());
    loop {
        step = match step {
            DeleteStep::DeleteObjects { keys, then } => {
                let reply = client.request(&format!("DeleteObjects {}", keys.len())).map(|_| {
                    let mut reply = DeleteReply { deleted: vec![], errors: vec![] };
                    for key in keys {
                        let refused =
                            client.undeletable.borrow().iter().find(|u| u.0 == key).cloned();
                        match refused {
                            Some((_, code)) => reply.errors.push(ObjectError {
                                key: Some(key),
                                code: Some(code),
                                message: Some("no".to_string()),
                            }),
                            None => {
                                client.objects.borrow_mut().remove(&key);
                                reply.deleted.push(Some(key));
                            }
                        }
                    }
                    reply
                });
                then.deleted(reply)
            }
            DeleteStep::Done(r) => return r,
        };
    }
}

fn list(store: &Store, filter: &dyn ListFilter) -> Result<Vec<BlobMeta>> {
    let mut all = MetaListing::new();
    let mut request = store.first_page(filter);
    loop {
        let page = store.client_ref().page(&request);
        match request.page(filter, page) {
            PageStep::Page { metas, next } => {
                for meta in metas {
                    all.push(meta);
                }
                match next {
                    Some(r) => request = r,
                    None => return Ok(all.finish()),
                }
            }
            PageStep::Failed(e) => return Err(e),
        }
    }
}

fn visit(
    store: &Store,
    filter: &dyn ListFilter,
    visitor: &mut dyn FnMut(&BlobMeta) -> Result<bool>,
) -> Result<()> {
    let mut next = Some(store.first_page(filter));
    while let Some(request) = next {
        let page = store.client_ref().page(&request);
        match request.page(filter, page) {
            PageStep::Page { metas, next: following } => {
                for meta in &metas {
                    match after_visit(visitor(meta)) {
                        VisitStep::GoOn => {}
                        VisitStep::Stop(r) => return r,
                    }
                }
                next = following;
            }
            PageStep::Failed(e) => return Err(e),
        }
    }
    Ok(())
}

struct Parts;

impl Handles for Parts {
    type Root = ();
    type Client = Client;
    type Store = ();
    type Provider = ();
    type Predicate = ();
    type Strategy = OnStart;
    type Layer = ();
}

fn builder() -> BlobStoreBuilder<NoBackend, Parts> {
    BlobStoreBuilder::new()
}

fn s3_store() -> Store {
    match builder().with_s3(Client::new(), "bucket").build().unwrap().backend {
        Backend::S3(store) => store,
        _ => panic!("expected an object store"),
    }
}

fn s3_store_with_part_size(part_size: u64) -> Store {
    let plan = builder()
        .with_s3(Client::new(), "bucket")
        .with_multipart_part_size(part_size)
        .build()
        .unwrap();
    match plan.backend {
        Backend::S3(store) => store,
        _ => panic!("expected an object store"),
    }
}

fn blob_of_size(size: usize) -> Vec<u8> {
    let period: Vec<u8> = (0..=255).collect();
    let mut data = period.repeat(size / 256);
    data.extend_from_slice(&period[..size % 256]);
    data
}

fn requests(store: &Store) -> Vec<String> {
    store.client_ref().requests.borrow().clone()
}

/// Put a blob, check what came of it, and give the requests that it took.
fn round_trip(store: &Store, key: &str, data: Vec<u8>, chunk: usize) -> Vec<String> {
    let source = Source { data: data.clone(), pos: 0, chunk, fails_at: None };
    let result = put(store, vec![BlobInput::new(key, source)]).unwrap();
    let made = requests(store);
    assert_eq!(result.blobs.len(), 1);
    assert_eq!(result.blobs[0].key, key);
    assert_eq!(result.blobs[0].stored_size, data.len() as u64);
    let stored = get(store, key).unwrap();
    assert_eq!(stored.len(), data.len());
    assert!(stored == data);
    made
}

fn multipart(parts: usize) -> Vec<String> {
    let mut made = vec!["CreateMultipartUpload".to_string()];
    for i in 0..parts {
        made.push(format!("UploadPart {}", i + 1));
    }
    made.push("CompleteMultipartUpload".to_string());
    made
}

#[test]
fn test_small_blob_1_byte() {
    let store = s3_store();
    assert_eq!(round_trip(&store, "tiny.txt", vec![b'a'], usize::MAX), vec!["PutObject"]);
    assert_eq!(get(&store, "tiny.txt").unwrap(), vec![b'a']);
}

#[test]
fn test_small_blob_4_mib() {
    let store = s3_store();
    let made = round_trip(&store, "4mib.txt", blob_of_size(4 * MIB), usize::MAX);
    assert_eq!(made, vec!["PutObject"]);
}

#[test]
fn test_with_part_size_5_mib() {
    let store = s3_store_with_part_size(5 * 1024 * 1024);
    let made = round_trip(&store, "5mib-ps.txt", blob_of_size(5 * MIB), usize::MAX);
    assert_eq!(made, multipart(1));
}

#[test]
fn test_with_part_size_10_mib() {
    let store = s3_store_with_part_size(10 * 1024 * 1024);
    let made = round_trip(&store, "10mib-ps.txt", blob_of_size(10 * MIB), usize::MAX);
    assert_eq!(made, multipart(1));
}

#[test]
fn test_with_part_size_100_mib() {
    let store = s3_store_with_part_size(100 * 1024 * 1024);
    let made = round_trip(&store, "100mib-ps.txt", blob_of_size(100 * MIB), usize::MAX);
    assert_eq!(made, multipart(1));
}

#[test]
fn test_with_part_size_1_mib_blob_5_mib() {
    let store = s3_store_with_part_size(1024 * 1024);
    assert_eq!(store.multipart_part_size(), 5 * 1024 * 1024);
    let made = round_trip(&store, "1mib-ps-5mib.txt", blob_of_size(5 * MIB), usize::MAX);
    assert_eq!(made, multipart(1));
}

#[test]
fn test_with_part_size_5_mib_blob_10_mib() {
    let store = s3_store_with_part_size(5 * 1024 * 1024);
    let made = round_trip(&store, "5mib-ps-10mib.txt", blob_of_size(10 * MIB), usize::MAX);
    assert_eq!(made, multipart(2));
}

#[test]
fn test_with_part_size_5_mib_blob_15_mib() {
    let store = s3_store_with_part_size(5 * 1024 * 1024);
    let made = round_trip(&store, "5mib-ps-15mib.txt", blob_of_size(15 * MIB), usize::MAX);
    assert_eq!(made, multipart(3));
}

#[test]
fn test_large_blob_5_mib_exactly() {
    let store = s3_store();
    let made = round_trip(&store, "5mib.txt", blob_of_size(5 * MIB), usize::MAX);
    assert_eq!(made, multipart(1));
}

#[test]
fn test_large_blob_10_mib() {
    let store = s3_store();
    let made = round_trip(&store, "10mib.txt", blob_of_size(10 * MIB), usize::MAX);
    assert_eq!(made, multipart(1));
}

#[test]
fn test_large_blob_50_mib() {
    let store = s3_store();
    let made = round_trip(&store, "50mib.txt", blob_of_size(50 * MIB), usize::MAX);
    assert_eq!(made, multipart(1));
}

#[test]
fn test_boundary_5mib_plus_1() {
    let store = s3_store();
    let made = round_trip(&store, "5mib+1.txt", blob_of_size(5 * MIB + 1), usize::MAX);
    assert_eq!(made, multipart(1));
}

#[test]
fn boundary_5mib_minus_1() {
    let store = s3_store();
    let made = round_trip(&store, "5mib-1.txt", blob_of_size(5 * MIB - 1), 1000);
    assert_eq!(made, vec!["PutObject"]);
}

#[test]
fn last_part_may_be_short() {
    let store = s3_store_with_part_size(5 * 1024 * 1024);
    let made = round_trip(&store, "odd", blob_of_size(10 * MIB + 1), 4096);
    assert_eq!(made, multipart(3));
    let lens: Vec<usize> = store.client_ref().parts.borrow().iter().map(|p| p.len()).collect();
    assert_eq!(lens, vec![5 * MIB, 5 * MIB, 1]);
}

#[test]
fn test_mixed_sizes_in_one_put() {
    let store = s3_store();
    let small = vec![b's'; 100];
    let medium = blob_of_size(MIB);
    let large = blob_of_size(10 * MIB);
    let result = put(
        &store,
        vec![
            BlobInput::new("small.txt", whole(small.clone())),
            BlobInput::new("medium.txt", whole(medium.clone())),
            BlobInput::new("large.txt", whole(large.clone())),
        ],
    )
    .unwrap();
    assert_eq!(result.blobs.len(), 3);
    for (key, expected) in [("small.txt", small), ("medium.txt", medium), ("large.txt", large)] {
        assert!(get(&store, key).unwrap() == expected);
    }
}

#[test]
fn test_put_metadata() {
    let store = s3_store();
    let result = put(
        &store,
        vec![
            BlobInput::new("small-meta.txt", whole(vec![b'x'; 100])),
            BlobInput::new("large-meta.txt", whole(blob_of_size(10 * MIB))),
        ],
    )
    .unwrap();
    assert_eq!(result.blobs[0].key, "small-meta.txt");
    assert_eq!(result.blobs[1].key, "large-meta.txt");
    for meta in &result.blobs {
        assert!(meta.stored_size > 0);
        assert!(meta.modified_at > Timestamp::default());
        assert!(meta.etag.is_some());
    }
    assert_eq!(result.blobs[0].etag, Some("\"single\"".to_string()));
    assert_eq!(result.blobs[1].etag, Some("\"multi\"".to_string()));
}

#[test]
fn s3_multipart_test_test_empty_blob() {
    let store = s3_store();
    let made = round_trip(&store, "empty.txt", vec![], usize::MAX);
    assert_eq!(made, vec!["PutObject"]);
    assert!(get(&store, "empty.txt").unwrap().is_empty());
}

#[test]
fn test_very_large_blob_100_mib() {
    let store = s3_store();
    let size = 100 * MIB;
    let made = round_trip(&store, "100mib.txt", blob_of_size(size), usize::MAX);
    assert_eq!(made, multipart(2));
    let stored = get(&store, "100mib.txt").unwrap();
    assert_eq!(stored[0], 0);
    assert_eq!(stored[size - 1], ((size - 1) % 256) as u8);
}

#[test]
fn test_chunked_reader_small_blob() {
    let store = s3_store();
    let made = round_trip(&store, "chunked-small.txt", b"hello".to_vec(), 1);
    assert_eq!(made, vec!["PutObject"]);
}

#[test]
fn test_chunked_reader_large_blob() {
    let store = s3_store();
    let size = 100 * MIB;
    let data = blob_of_size(size);
    let result =
        put(&store, vec![BlobInput::new("chunked-large.txt", bytewise(data.clone()))]).unwrap();
    assert_eq!(result.blobs.len(), 1);
    assert_eq!(result.blobs[0].stored_size, size as u64);
    assert!(get(&store, "chunked-large.txt").unwrap() == data);
}

#[test]
fn test_chunked_reader_part_size_10mib_blob_6mib() {
    let store = s3_store_with_part_size(10 * 1024 * 1024);
    let made = round_trip(&store, "chunked-ps10mib-6mib.bin", blob_of_size(6 * MIB), 1);
    assert_eq!(made, multipart(1));
}

#[test]
fn test_chunked_reader_part_size_5mib_blob_10mib() {
    let store = s3_store_with_part_size(5 * 1024 * 1024);
    let made = round_trip(&store, "chunked-ps5mib-10mib.bin", blob_of_size(10 * MIB), 1);
    assert_eq!(made, multipart(2));
}

#[test]
fn test_with_part_size_100_mib_memory_bounded() {
    let store = s3_store_with_part_size(100 * 1024 * 1024);
    let size = 100 * MIB;
    let made = round_trip(&store, "100mib-ps-mem.bin", blob_of_size(size), usize::MAX);
    assert_eq!(made, multipart(1));
    for part in store.client_ref().parts.borrow().iter() {
        assert!(part.len() <= 100 * MIB);
    }
}

#[test]
fn test_builder_s3_multipart_part_size() {
    let store = s3_store_with_part_size(1024 * 1024);
    let data = b"s3 part size test";
    put(&store, vec![BlobInput::new("part-size-test.txt", whole(data.to_vec()))]).unwrap();
    assert_eq!(get(&store, "part-size-test.txt").unwrap(), data);
}

#[test]
fn part_sizes() {
    let store = S3BlobStore::new((), "b");
    assert_eq!(store.multipart_part_size(), 52_428_800);
    assert_eq!(store.bucket_name(), "b");
    assert_eq!(store.with_multipart_part_size(5_242_881).multipart_part_size(), 5_242_881);
    let store = S3BlobStore::new((), "b").with_multipart_part_size(0);
    assert_eq!(store.multipart_part_size(), 5_242_880);
}

#[test]
fn failed_part_aborts_the_upload() {
    let store = s3_store_with_part_size(5 * 1024 * 1024);
    *store.client_ref().fail.borrow_mut() =
        Some(("UploadPart 2".to_string(), "SlowDown".to_string()));
    let blobs = vec![
        BlobInput::new("first", whole(vec![1])),
        BlobInput::new("big", whole(blob_of_size(15 * MIB))),
        BlobInput::new("later", whole(vec![1])),
    ];
    let (succeeded, key, text) = only_failure(put(&store, blobs).unwrap_err());
    assert_eq!(succeeded, vec!["first"]);
    assert_eq!(key, "big");
    assert_eq!(
        text,
        "unknown: S3 UploadPart failed for key 'big' (part 2, upload_id up-1): service error"
    );
    assert_eq!(
        requests(&store),
        vec![
            "PutObject",
            "CreateMultipartUpload",
            "UploadPart 1",
            "UploadPart 2",
            "AbortMultipartUpload"
        ]
    );
    assert_eq!(store.client_ref().objects.borrow().len(), 1);
}

#[test]
fn failed_reads() {
    let store = s3_store_with_part_size(5 * 1024 * 1024);
    let torn = |at: usize, size: usize| Source {
        data: blob_of_size(size),
        pos: 0,
        chunk: 4096,
        fails_at: Some(at),
    };
    let err = put(&store, vec![BlobInput::new("k", torn(0, 10))]).unwrap_err();
    let (succeeded, key, text) = only_failure(err);
    assert!(succeeded.is_empty());
    assert_eq!(key, "k");
    assert_eq!(text, "unknown: failed to read initial chunk for key 'k': torn");
    assert!(requests(&store).is_empty());
    let err = put(&store, vec![BlobInput::new("k", torn(7 * MIB, 11 * MIB))]).unwrap_err();
    let (_, _, text) = only_failure(err);
    assert_eq!(text, "unknown: failed to read blob data for key 'k': torn");
    assert_eq!(requests(&store).last().unwrap(), "AbortMultipartUpload");
}

#[test]
fn failed_requests() {
    let cases = [
        ("PutObject", 1, "unknown: S3 PutObject failed for key 'k': service error"),
        (
            "CreateMultipartUpload",
            6 * MIB,
            "unknown: S3 CreateMultipartUpload failed for key 'k': service error",
        ),
        (
            "CompleteMultipartUpload",
            6 * MIB,
            "unknown: S3 CompleteMultipartUpload failed for key 'k': service error",
        ),
    ];
    for (request, size, text) in cases {
        let store = s3_store();
        *store.client_ref().fail.borrow_mut() =
            Some((request.to_string(), "SlowDown".to_string()));
        let blob = BlobInput::new("k", whole(blob_of_size(size)));
        assert_eq!(only_failure(put(&store, vec![blob]).unwrap_err()).2, text);
        *store.client_ref().fail.borrow_mut() =
            Some((request.to_string(), "NoSuchBucket".to_string()));
        let blob = BlobInput::new("k", whole(blob_of_size(size)));
        assert_eq!(
            put(&store, vec![blob]).unwrap_err().to_string(),
            "backend misconfigured: S3 bucket 'bucket' does not exist or is not accessible"
        );
    }
}

#[test]
fn missing_upload_id() {
    let store = S3BlobStore::new((), "b");
    match store.upload_multipart("k") {
        UploadStep::Create { key, then } => {
            assert_eq!(key, "k");
            match then.created(Ok(None)) {
                UploadStep::Done(Err(e)) => assert_eq!(
                    e.to_string(),
                    "storage error: Missing upload_id in CreateMultipartUpload response for key 'k'"
                ),
                _ => panic!("expected a failure"),
            }
        }
        _ => panic!("expected to create"),
    }
}

#[test]
fn invalid_keys_reach_no_request() {
    let store = s3_store();
    let blobs =
        vec![BlobInput::new("good", whole(vec![1])), BlobInput::new("a\\b", whole(vec![1]))];
    let err = put(&store, blobs).unwrap_err();
    assert_eq!(err.to_string(), "invalid input: blob key must not contain backslash: 'a\\b'");
    assert!(matches!(delete(&store, &["ok", ".."]), Err(BlobStorageError::InvalidInput(_))));
    assert!(matches!(get(&store, "/x"), Err(BlobStorageError::InvalidInput(_))));
    assert_eq!(store.read_request("x/y").unwrap(), "x/y");
    assert!(requests(&store).is_empty());
}

#[test]
fn deletes_go_out_in_batches() {
    let store = s3_store();
    let keys: Vec<String> = (0..2500).map(|i| format!("k{}", i)).collect();
    let refs: Vec<&str> = keys.iter().map(|k| k.as_str()).collect();
    delete(&store, &refs).unwrap();
    assert_eq!(
        requests(&store),
        vec!["DeleteObjects 1000", "DeleteObjects 1000", "DeleteObjects 500"]
    );
    let none = s3_store();
    delete(&none, &[]).unwrap();
    assert!(requests(&none).is_empty());
}

#[test]
fn delete_outcomes() {
    let store = s3_store();
    *store.client_ref().undeletable.borrow_mut() = vec![
        ("gone".to_string(), "NoSuchKey".to_string()),
        ("locked".to_string(), "AccessDenied".to_string()),
        ("odd".to_string(), "InternalError".to_string()),
    ];
    delete(&store, &["fine", "gone"]).unwrap();
    match delete(&store, &["fine", "gone", "locked", "odd"]) {
        Err(BlobStorageError::Batch(batch)) => {
            assert_eq!(batch.succeeded, vec!["fine", "gone"]);
            assert_eq!(batch.errors[0].key, "locked");
            assert_eq!(batch.errors[0].error.to_string(), "permission denied: AccessDenied: no");
            assert_eq!(batch.errors[1].key, "odd");
            assert_eq!(batch.errors[1].error.to_string(), "unknown: InternalError: no");
        }
        other => panic!("unexpected {other:?}"),
    }
    *store.client_ref().fail.borrow_mut() =
        Some(("DeleteObjects".to_string(), "SlowDown".to_string()));
    let (succeeded, key, text) = only_failure(delete(&store, &["fine"]).unwrap_err());
    assert!(succeeded.is_empty());
    assert_eq!(key, "fine");
    assert_eq!(text, "unknown: S3 batch delete failed: service error");
    *store.client_ref().fail.borrow_mut() =
        Some(("DeleteObjects".to_string(), "AccessDenied".to_string()));
    let (_, _, text) = only_failure(delete(&store, &["fine"]).unwrap_err());
    assert_eq!(text, "permission denied: S3 batch delete failed: service error");
    *store.client_ref().fail.borrow_mut() =
        Some(("DeleteObjects".to_string(), "NoSuchBucket".to_string()));
    assert!(matches!(
        delete(&store, &["fine"]),
        Err(BlobStorageError::BackendMisconfigured(_))
    ));
}

#[test]
fn delete_goes_on_after_a_failed_request() {
    let store = s3_store();
    let keys: Vec<String> = (0..1500).map(|i| format!("k{}", i)).collect();
    let refs: Vec<&str> = keys.iter().map(|k| k.as_str()).collect();
    *store.client_ref().fail.borrow_mut() =
        Some(("DeleteObjects 1000".to_string(), "SlowDown".to_string()));
    match delete(&store, &refs) {
        Err(BlobStorageError::Batch(batch)) => {
            assert_eq!(batch.succeeded, keys[1000..]);
            let failed: Vec<String> = batch.errors.into_iter().map(|e| e.key).collect();
            assert_eq!(failed, keys[..1000]);
        }
        other => panic!("unexpected {other:?}"),
    }
    assert_eq!(requests(&store), vec!["DeleteObjects 1000", "DeleteObjects 500"]);
}

#[test]
fn delete_reply_without_details() {
    let store = S3BlobStore::new((), "b");
    match store.delete(vec!["k".to_string()]) {
        DeleteStep::DeleteObjects { keys, then } => {
            assert_eq!(keys, vec!["k"]);
            let bare = ObjectError { key: None, code: None, message: Some("".to_string()) };
            let reply = DeleteReply { deleted: vec![None], errors: vec![bare] };
            match then.deleted(Ok(reply)) {
                DeleteStep::Done(Err(BlobStorageError::Batch(batch))) => {
                    assert!(batch.succeeded.is_empty());
                    assert_eq!(batch.errors[0].key, "unknown");
                    assert_eq!(batch.errors[0].error.to_string(), "unknown: Unknown");
                }
                _ => panic!("expected a batch error"),
            }
        }
        DeleteStep::Done(_) => panic!("expected a request"),
    }
}

#[test]
fn listing_collects_all_pages() {
    let store = s3_store();
    store.client_ref().page_size.set(2);
    let keys = ["a.txt", "b.log", "dir/c.txt", "dir/d.log", "z.txt"];
    for key in keys {
        put(&store, vec![BlobInput::new(key, whole(vec![0; 3]))]).unwrap();
    }
    let names = |metas: Vec<BlobMeta>| metas.into_iter().map(|m| m.key).collect::<Vec<_>>();
    assert_eq!(names(list(&store, &SuffixFilter::new("")).unwrap()), keys);
    assert_eq!(
        names(list(&store, &SuffixFilter::new(".txt")).unwrap()),
        vec!["a.txt", "dir/c.txt", "z.txt"]
    );
    store.client_ref().requests.borrow_mut().clear();
    let metas = list(&store, &PrefixFilter::new("dir/")).unwrap();
    assert_eq!(requests(&store).len(), 1);
    assert_eq!(metas[0].stored_size, 3);
    assert_eq!(metas[0].etag, Some("\"3\"".to_string()));
    assert_eq!(metas[0].modified_at, Timestamp { secs: 1_700_000_000, nanos: 1 });
    assert_eq!(names(metas), vec!["dir/c.txt", "dir/d.log"]);
    *store.client_ref().fail.borrow_mut() =
        Some(("ListObjectsV2".to_string(), "SlowDown".to_string()));
    assert_eq!(
        list(&store, &SuffixFilter::new("")).unwrap_err().to_string(),
        "storage error: S3 list failed"
    );
}

#[test]
fn visit_shows_what_is_listed_until_it_is_stopped() {
    let store = s3_store();
    store.client_ref().page_size.set(2);
    for key in ["a", "b", "c", "d", "e"] {
        put(&store, vec![BlobInput::new(key, whole(vec![0; 3]))]).unwrap();
    }
    let filter = SuffixFilter::new("");
    let listed: Vec<String> = list(&store, &filter).unwrap().into_iter().map(|m| m.key).collect();
    for stop in 1..7 {
        store.client_ref().requests.borrow_mut().clear();
        let mut shown: Vec<String> = vec![];
        let reply = visit(&store, &filter, &mut |meta| {
            shown.push(meta.key.clone());
            Ok(shown.len() < stop)
        });
        assert!(reply.is_ok());
        assert_eq!(shown, listed[..stop.min(5)]);
        assert_eq!(requests(&store).len(), (stop.min(5) + 1) / 2);
    }
    let err = visit(&store, &filter, &mut |_| Err(BlobStorageError::from("enough"))).unwrap_err();
    assert_eq!(err.to_string(), "storage error: enough");
}

#[test]
fn first_page_requests() {
    let store = S3BlobStore::new((), "b");
    let request = store.first_page(&PrefixFilter::new("dir/"));
    assert_eq!(request.bucket, "b");
    assert_eq!(request.prefix, Some("dir/".to_string()));
    assert!(request.token.is_none());
    assert!(store.first_page(&PrefixFilter::new("")).prefix.is_none());
    assert!(store.first_page(&SuffixFilter::new("x")).prefix.is_none());
}

#[test]
fn objects_without_keys_are_passed_over() {
    let store = S3BlobStore::new((), "b");
    let filter = SuffixFilter::new("");
    let bare = |key: Option<&str>| S3Object {
        key: key.map(|k| k.to_string()),
        size: None,
        etag: None,
        last_modified: None,
    };
    let page = Page { objects: vec![bare(None), bare(Some("k"))], next_token: None };
    match store.first_page(&filter).page(&filter, Ok(page)) {
        PageStep::Page { metas, next } => {
            assert!(next.is_none());
            assert_eq!(metas.len(), 1);
            assert_eq!(metas[0].key, "k");
            assert_eq!(metas[0].stored_size, 0);
            assert_eq!(metas[0].modified_at, Timestamp::default());
        }
        PageStep::Failed(_) => panic!("expected a page"),
    }
}

#[test]
fn get_and_head_failures() {
    let store = S3BlobStore::new((), "b");
    assert!(matches!(
        store.get_object_error("k", failure("NoSuchKey")),
        BlobStorageError::NotFound(k) if k == "k"
    ));
    assert!(matches!(
        store.get_object_error("k", failure("NoSuchBucket")),
        BlobStorageError::BackendMisconfigured(_)
    ));
    assert_eq!(
        store.get_object_error("k", failure("Other")).to_string(),
        "storage error: S3 get failed for key 'k'"
    );
    assert!(store.head_response("k", Ok(())).unwrap());
    assert!(!store.head_response("k", Err(failure("NotFound"))).unwrap());
    assert!(matches!(
        store.head_response("k", Err(failure("NoSuchBucket"))),
        Err(BlobStorageError::BackendMisconfigured(_))
    ));
    let unsent = S3Failure { code: None, source: ErrorSource { messages: vec![] } };
    assert!(!is_not_found(&unsent));
    assert!(!is_misconfigured(&unsent));
    assert_eq!(
        store.head_response("k", Err(unsent)).unwrap_err().to_string(),
        "storage error: S3 head failed for key 'k'"
    );
}

#[test]
fn object_metadata_and_times() {
    let store = S3BlobStore::new((), "b");
    let object = S3Object {
        key: None,
        size: Some(42),
        etag: Some("e".to_string()),
        last_modified: Some((7, 8)),
    };
    let meta = store.object_metadata("k", object);
    assert_eq!(meta.key, "k");
    assert_eq!(meta.stored_size, 42);
    assert_eq!(meta.etag, Some("e".to_string()));
    assert_eq!(meta.modified_at, Timestamp { secs: 7, nanos: 8 });
    assert_eq!(s3_time_to_utc(None), Timestamp::default());
    assert_eq!(s3_time_to_utc(Some((i64::MAX, 0))), Timestamp::default());
}
