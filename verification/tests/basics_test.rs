//! Errors, metadata, texts, times, orders and filters.

use xtax_blob_storage::blob_store::after_visit;
use xtax_blob_storage::blob_store::metas_for_keys;
use xtax_blob_storage::blob_store::metas_for_keys_at;
use xtax_blob_storage::blob_store::KeyVisitStep;
use xtax_blob_storage::blob_store::VisitStep;
use xtax_blob_storage::error::ErrorSource;
use xtax_blob_storage::error::IoErrorKind;
use xtax_blob_storage::error::IoFailure;
use xtax_blob_storage::fs::dir_exists;
use xtax_blob_storage::fs::map_io_error_to_per_key;
use xtax_blob_storage::fs::system_time_to_utc;
use xtax_blob_storage::fs::FileTime;
use xtax_blob_storage::listing::KeyListing;
use xtax_blob_storage::listing::MetaListing;
use xtax_blob_storage::text;
use xtax_blob_storage::timestamp::timestamp_or_epoch;
use xtax_blob_storage::BatchError;
use xtax_blob_storage::BlobInput;
use xtax_blob_storage::BlobMeta;
use xtax_blob_storage::BlobStorageError;
use xtax_blob_storage::EncryptionError;
use xtax_blob_storage::KeyError;
use xtax_blob_storage::KeyVisit;
use xtax_blob_storage::ListFilter;
use xtax_blob_storage::NotFilter;
use xtax_blob_storage::PerKeyError;
use xtax_blob_storage::PrefixFilter;
use xtax_blob_storage::PutResult;
use xtax_blob_storage::SuffixFilter;
use xtax_blob_storage::Timestamp;
use xtax_blob_storage::KEY_SEPARATOR;

fn meta(key: &str, size: u64) -> BlobMeta {
    BlobMeta {
        key: key.to_string(),
        stored_size: size,
        modified_at: Timestamp::default(),
        etag: None,
    }
}

fn io(kind: IoErrorKind) -> IoFailure {
    IoFailure { kind, message: "m".to_string(), causes: vec!["c".to_string()] }
}

#[test]
fn test_error_display() {
    let err = BlobStorageError::NotFound("test-key".to_string());
    let display = err.to_string();
    assert!(display.contains("test-key"));
    assert!(display.contains("blob not found"));
}

#[test]
fn test_error_from_string() {
    let err: BlobStorageError = "custom error".into();
    assert!(err.to_string().contains("custom error"));
    let err: BlobStorageError = "custom error".to_string().into();
    assert!(matches!(err, BlobStorageError::Storage { source: None, .. }));
}

#[test]
fn test_put_result_helpers() {
    let single = PutResult::single(BlobMeta {
        key: "single.txt".to_string(),
        stored_size: 5,
        modified_at: BlobMeta::for_key("now").modified_at,
        etag: None,
    });
    assert_eq!(single.blobs.len(), 1);
    assert_eq!(single.blobs[0].key, "single.txt");
    let multi = PutResult::multiple(vec![meta("a.txt", 1), meta("b.txt", 2)]);
    assert_eq!(multi.blobs.len(), 2);
}

#[test]
fn test_batch_error_display() {
    let err = BatchError {
        succeeded: vec!["ok.txt".to_string()],
        errors: vec![KeyError {
            key: "fail.txt".to_string(),
            error: PerKeyError::PermissionDenied("Access Denied".to_string()),
        }],
    };
    let display = err.to_string();
    assert!(display.contains("1 keys failed"));
    assert!(display.contains("1 succeeded"));
    assert!(display.contains("2 total"));
    assert_eq!(display, "batch operation failed: 1 keys failed (1 succeeded, 2 total)");
}

#[test]
fn test_batch_error_total_count() {
    let err = BatchError {
        succeeded: vec!["a.txt".to_string(), "b.txt".to_string()],
        errors: vec![KeyError { key: "c.txt".to_string(), error: PerKeyError::NotFound }],
    };
    assert_eq!(err.total_count(), 3);
    assert_eq!(err.failed_count(), 1);
}

#[test]
fn test_batch_error_from_storage_variant() {
    let batch = BatchError {
        succeeded: vec![],
        errors: vec![KeyError {
            key: "secret.txt".to_string(),
            error: PerKeyError::Unknown { message: "I/O error".to_string() },
        }],
    };
    let display = BlobStorageError::from(batch).to_string();
    assert!(display.contains("batch error"));
    assert!(display.contains("1 keys failed"));
    assert_eq!(
        display,
        "batch error: batch operation failed: 1 keys failed (0 succeeded, 1 total)"
    );
}

#[test]
fn error_texts() {
    let m = || "x".to_string();
    let cases = [
        (BlobStorageError::AlreadyExists(m()), "blob already exists: x"),
        (BlobStorageError::NotSupported(m()), "operation not supported: x"),
        (BlobStorageError::BackendMisconfigured(m()), "backend misconfigured: x"),
        (BlobStorageError::InvalidInput(m()), "invalid input: x"),
        (BlobStorageError::PermissionDenied(m()), "permission denied: x"),
        (BlobStorageError::Storage { message: m(), source: None }, "storage error: x"),
        (BlobStorageError::Encryption { message: m(), source: None }, "encryption error: x"),
    ];
    for (error, text) in cases {
        assert_eq!(error.to_string(), text);
    }
    assert_eq!(PerKeyError::NotFound.to_string(), "not found");
}

#[test]
fn io_failures_as_errors() {
    match BlobStorageError::from(io(IoErrorKind::Other)) {
        BlobStorageError::Storage { message, source } => {
            assert_eq!(message, "I/O error");
            assert_eq!(source.unwrap().messages, vec!["m", "c"]);
        }
        other => panic!("unexpected {other:?}"),
    }
    assert_eq!(map_io_error_to_per_key(io(IoErrorKind::NotFound)).to_string(), "unknown: m");
    assert_eq!(
        map_io_error_to_per_key(io(IoErrorKind::PermissionDenied)).to_string(),
        "permission denied: m"
    );
    assert_eq!(map_io_error_to_per_key(io(IoErrorKind::Other)).to_string(), "unknown: m");
    assert!(dir_exists(Ok(true)).unwrap());
    assert!(!dir_exists(Ok(false)).unwrap());
    assert!(!dir_exists(Err(io(IoErrorKind::NotFound))).unwrap());
    assert!(dir_exists(Err(io(IoErrorKind::PermissionDenied))).is_err());
}

#[test]
fn encryption_errors() {
    let behind = ErrorSource { messages: vec!["why".to_string()] };
    let error =
        EncryptionError::Operation { message: "no key".to_string(), source: Some(behind) };
    assert_eq!(error.to_string(), "encryption operation failed: no key");
    assert_eq!(
        error.into_source().messages,
        vec!["encryption operation failed: no key", "why"]
    );
    let error = EncryptionError::InvalidHeader("short".to_string());
    assert_eq!(error.to_string(), "invalid encryption header: short");
    assert_eq!(error.into_source().messages, vec!["invalid encryption header: short"]);
    let error = EncryptionError::from(io(IoErrorKind::Other));
    assert_eq!(error.to_string(), "m");
    assert_eq!(error.into_source().messages, vec!["m", "c"]);
}

#[test]
fn missing_blobs_are_named_by_the_caller() {
    let error = BlobStorageError::NotFound("p/k".to_string()).missing_as("k");
    assert!(matches!(error, BlobStorageError::NotFound(k) if k == "k"));
    let error = BlobStorageError::PermissionDenied("p/k".to_string()).missing_as("k");
    assert!(matches!(error, BlobStorageError::PermissionDenied(k) if k == "p/k"));
}

#[test]
fn inputs_and_metadata() {
    let input = BlobInput::new("k", 7u8);
    assert_eq!(input.key, "k");
    assert_eq!(input.data, 7);
    assert!(input.size_hint.is_none());
    assert_eq!(BlobInput::with_size("k", (), 9).size_hint, Some(9));
    let now = Timestamp { secs: 3, nanos: 4 };
    let placeholder = BlobMeta::for_key_at("k", now);
    assert_eq!(placeholder.key, "k");
    assert_eq!(placeholder.stored_size, 0);
    assert_eq!(placeholder.modified_at, now);
    assert!(placeholder.etag.is_none());
    assert_eq!(placeholder.with_key("l".to_string()).key, "l");
    assert_eq!(KEY_SEPARATOR, '/');
    let metas = metas_for_keys_at(vec!["a".to_string(), "b".to_string()], now);
    assert_eq!(metas.len(), 2);
    assert_eq!(metas[1].key, "b");
    assert_eq!(metas[1].modified_at, now);
    assert!(metas_for_keys(vec!["a".to_string()])[0].modified_at > now);
}

#[test]
fn now_does_not_run_backwards_by_much() {
    let a = BlobMeta::for_key("a").modified_at;
    let b = BlobMeta::for_key("b").modified_at;
    assert!(a.secs > 1_600_000_000);
    assert!((b.secs - a.secs).abs() < 100);
}

#[test]
fn instants() {
    assert_eq!(timestamp_or_epoch(5, 6), Timestamp { secs: 5, nanos: 6 });
    assert_eq!(timestamp_or_epoch(-5, 999_999_999), Timestamp { secs: -5, nanos: 999_999_999 });
    let last = 8_210_266_876_799;
    let first = -8_334_601_228_800;
    assert_eq!(timestamp_or_epoch(last, 0).secs, last);
    assert_eq!(timestamp_or_epoch(last + 1, 0), Timestamp::default());
    assert_eq!(timestamp_or_epoch(first, 0).secs, first);
    assert_eq!(timestamp_or_epoch(first - 1, 0), Timestamp::default());
    assert_eq!(timestamp_or_epoch(5, 1_000_000_000), Timestamp::default());
    assert_eq!(timestamp_or_epoch(59, 1_000_000_000).nanos, 1_000_000_000);
    assert_eq!(timestamp_or_epoch(59, 1_999_999_999).nanos, 1_999_999_999);
    assert_eq!(timestamp_or_epoch(59, 2_000_000_000), Timestamp::default());
    assert_eq!(timestamp_or_epoch(-1, 1_000_000_000).nanos, 1_000_000_000);
}

#[test]
fn file_times() {
    assert_eq!(system_time_to_utc(FileTime::Unknown), Timestamp::default());
    assert_eq!(system_time_to_utc(FileTime::BeforeEpoch), Timestamp::default());
    assert_eq!(
        system_time_to_utc(FileTime::SinceEpoch { secs: 9, nanos: 1 }),
        Timestamp { secs: 9, nanos: 1 }
    );
    assert_eq!(
        system_time_to_utc(FileTime::SinceEpoch { secs: u64::MAX, nanos: 0 }),
        timestamp_or_epoch(-1, 0)
    );
}

#[test]
fn listings_are_sorted() {
    let mut keys = KeyListing::new();
    for key in ["b", "a/b", "a", "é", "B", "a b", "b"] {
        keys.push(key.to_string());
    }
    assert_eq!(keys.finish(), vec!["B", "a", "a b", "a/b", "b", "b", "é"]);
    let mut metas = MetaListing::new();
    metas.push(meta("z", 1));
    metas.push(meta("a", 2));
    metas.push(meta("z", 3));
    let sorted = metas.finish();
    let sizes: Vec<u64> = sorted.iter().map(|m| m.stored_size).collect();
    assert_eq!(sizes, vec![2, 1, 3]);
}

#[test]
fn visits_are_a_prefix_of_the_listing() {
    let mut visit = KeyVisit::new(vec!["a".to_string(), "b".to_string(), "c".to_string()]);
    assert!(matches!(visit.step(Ok(true)), KeyVisitStep::Visit(k) if k == "a"));
    assert!(matches!(visit.step(Ok(true)), KeyVisitStep::Visit(k) if k == "b"));
    assert!(matches!(visit.step(Ok(false)), KeyVisitStep::Done(Ok(()))));
    let mut visit = KeyVisit::new(vec!["a".to_string()]);
    assert!(matches!(visit.step(Ok(true)), KeyVisitStep::Visit(_)));
    assert!(matches!(visit.step(Err("x".into())), KeyVisitStep::Done(Err(_))));
    let mut visit = KeyVisit::new(vec![]);
    assert!(matches!(visit.step(Ok(true)), KeyVisitStep::Done(Ok(()))));
    assert!(matches!(after_visit(Ok(true)), VisitStep::GoOn));
    assert!(matches!(after_visit(Ok(false)), VisitStep::Stop(Ok(()))));
    assert!(matches!(after_visit(Err("x".into())), VisitStep::Stop(Err(_))));
}

#[test]
fn filters() {
    let suffix = SuffixFilter::new(".txt");
    assert!(suffix.matches("a.txt", None));
    assert!(!suffix.matches("a.txt.bak", None));
    assert!(suffix.prefix_hint().is_none());
    let prefix = PrefixFilter::new("dir/");
    assert!(prefix.matches("dir/a", Some(&meta("dir/a", 0))));
    assert!(!prefix.matches("dir", None));
    assert_eq!(prefix.prefix_hint(), Some("dir/"));
    let not = NotFilter::new(prefix);
    assert!(!not.matches("dir/a", None));
    assert!(not.matches("dir", None));
    assert!(not.prefix_hint().is_none());
    assert!(SuffixFilter::new("").matches("", None));
    let excluded = <dyn ListFilter>::exclude_suffix(".txt");
    assert!(!excluded.matches("a.txt", None));
    assert!(excluded.matches("a.log", None));
}

#[test]
fn texts() {
    assert!(text::str_eq("a", "a") && !text::str_eq("a", "b") && !text::str_eq("a", "aa"));
    assert!(text::starts_with("příliš", "pří") && !text::starts_with("p", "pp"));
    assert!(text::ends_with("kůň", "ůň") && text::ends_with("x", "") && !text::ends_with("", "x"));
    assert_eq!(text::strip_prefix("a/b", "a/"), Some("b".to_string()));
    assert_eq!(text::strip_prefix("a/b", "b"), None);
    assert!(text::contains_char("a/b", '/') && !text::contains_char("ab", '/'));
    assert_eq!(text::concat("a", "b"), "ab");
    assert_eq!(text::concat3("a", "", "c"), "ac");
    assert_eq!(text::split_on("a/b//", '/'), vec!["a", "b", "", ""]);
    assert_eq!(text::split_on("", '/'), vec![""]);
    assert_eq!(text::replace_char("a\\b\\", '\\', "/"), "a/b/");
    assert_eq!(text::decimal_text(0), "0");
    assert_eq!(text::decimal_text(1_203), "1203");
    assert_eq!(text::decimal_text(u64::MAX), "18446744073709551615");
}
