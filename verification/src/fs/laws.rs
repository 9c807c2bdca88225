//! The laws of the file store, over a file system that keeps what is written.

use vstd::prelude::*;

use crate::error::BatchErrorView;
use crate::error::ErrorView;
use crate::error::IoErrorKind;
use crate::error::IoFailure;
use crate::error::KeyErrorView;
use crate::fs;
use crate::fs::delete;
use crate::fs::delete::DeleteRestView;
use crate::fs::delete::DeleteStepView;
use crate::fs::get;
use crate::fs::get::ReadStepView;
use crate::fs::put;
use crate::fs::put::PutRestView;
use crate::fs::put::PutStepView;
use crate::fs::walk;
use crate::fs::walk::EntryView;
use crate::fs::walk::KindView;
use crate::fs::walk::WalkRestView;
use crate::fs::walk::WalkStepView;
use crate::fs::FileStat;
use crate::list_filter;
use crate::list_filter::ListFilter;
use crate::model;
use crate::model::Contents;
use crate::order;
use crate::text;
use crate::types::BlobInputView;
use crate::types::BlobMetaView;
use crate::types::KEY_SEPARATOR;
use crate::validate;

verus! {

/// The blobs in the files below the root.
pub open spec fn blobs(root: Seq<char>, files: Contents) -> Contents {
    Map::new(
        |k: Seq<char>| validate::valid_blob_key(k) && files.dom().contains(root + k),
        |k: Seq<char>| files[root + k],
    )
}

/// Different keys are stored in different files.
pub proof fn law_paths_are_distinct(root: Seq<char>, a: Seq<char>, b: Seq<char>)
    ensures
        root + a == root + b ==> a == b,
        root.is_prefix_of(root + a),
{
    assert((root + a).skip(root.len() as int) =~= a);
    assert((root + b).skip(root.len() as int) =~= b);
    assert((root + a).take(root.len() as int) =~= root);
}

/// The file of a valid key lies below the root: of the components by which its
/// path extends the root, none leads upwards and none is empty, so that each
/// goes one directory down.
pub proof fn law_path_stays_below_root(root: Seq<char>, key: Seq<char>, i: int)
    requires
        validate::valid_blob_key(key),
        0 <= i < text::split(key, KEY_SEPARATOR).len(),
    ensures
        (root + key).skip(root.len() as int) == key,
        text::split(key, KEY_SEPARATOR)[i] != ".."@,
        text::split(key, KEY_SEPARATOR)[i] != "."@,
        text::split(key, KEY_SEPARATOR)[i].len() > 0,
{
    validate::law_valid_key_components(key);
    assert((root + key).skip(root.len() as int) =~= key);
}

/// The directory part of a path is a prefix of it, and ends with a separator
/// where it is not empty.
proof fn lemma_dir_part(path: Seq<char>)
    ensures
        fs::dir_part(path).is_prefix_of(path),
        fs::dir_part(path).len() > 0 ==> fs::dir_part(path).last() == KEY_SEPARATOR,
        fs::dir_part(path).len() == 0 ==> !path.contains(KEY_SEPARATOR),
    decreases path.len(),
{
    if path.len() > 0 && path.last() != KEY_SEPARATOR {
        let p = path.drop_last();
        lemma_dir_part(p);
        let d = fs::dir_part(path);
        assert(d =~= path.take(d.len() as int));
        if d.len() == 0 {
            assert forall|i: int| 0 <= i < path.len() implies path[i] != KEY_SEPARATOR by {
                if i < p.len() {
                    assert(p[i] == path[i]);
                    assert(p.contains(p[i]));
                }
            }
        }
    } else {
        assert(path.take(path.len() as int) =~= path);
    }
}

/// A directory that a path goes through stays in the directory part.
proof fn lemma_dir_part_keeps(root: Seq<char>, hint: Seq<char>)
    requires
        fs::normalised(root) == root,
    ensures
        root.is_prefix_of(fs::dir_part(root + hint)),
    decreases hint.len(),
{
    if root.len() > 0 {
        assert(root.last() == KEY_SEPARATOR) by {
            if root.last() != KEY_SEPARATOR {
                assert(root.push(KEY_SEPARATOR).len() == root.len() + 1);
            }
        }
    }
    if hint.len() == 0 {
        assert(root + hint =~= root);
        if root.len() > 0 {
            assert(fs::dir_part(root) == root);
        }
        assert(root.take(root.len() as int) =~= root);
    } else {
        let p = root + hint;
        assert(p.last() == hint.last());
        if p.last() == KEY_SEPARATOR {
            assert(fs::dir_part(p) == p);
            assert(p.take(root.len() as int) =~= root);
        } else {
            assert(p.drop_last() =~= root + hint.drop_last());
            lemma_dir_part_keeps(root, hint.drop_last());
        }
    }
}

/// Narrowing a listing by a hint loses nothing: the file of every key that starts
/// with the hint lies below the directory at which the listing starts.
pub proof fn law_start_dir_covers_hinted_keys(root: Seq<char>, hint: Seq<char>, key: Seq<char>)
    requires
        fs::normalised(root) == root,
        hint.is_prefix_of(key),
    ensures
        fs::start_dir(root, Some(hint)).is_prefix_of(root + key),
        root.is_prefix_of(fs::start_dir(root, Some(hint))),
        fs::start_dir(root, None).is_prefix_of(root + key),
{
    let d = fs::start_dir(root, Some(hint));
    lemma_dir_part(root + hint);
    lemma_dir_part_keeps(root, hint);
    assert(d =~= (root + key).take(d.len() as int)) by {
        assert forall|i: int| 0 <= i < d.len() implies d[i] == (root + key)[i] by {
            assert(d[i] == (root + hint)[i]);
            if i >= root.len() {
                assert(hint[i - root.len()] == key[i - root.len()]);
            }
        }
    }
    assert((root + key).take(root.len() as int) =~= root);
}

/// The files, and the result, once a put has run to its end on a usable root. The
/// system writes everything; `stats` is what it tells of a file.
pub open spec fn run_put(
    step: PutStepView<Seq<u8>>,
    files: Contents,
    stats: spec_fn(Seq<char>) -> FileStat,
) -> (Contents, core::result::Result<Seq<BlobMetaView>, ErrorView>)
    decreases
            (match step {
                PutStepView::CheckRoot { rest } => rest.pending.len() + 2,
                PutStepView::Write { rest, .. } => rest.pending.len() + 1,
                PutStepView::Done(_) => 0,
            }),
{
    match step {
        PutStepView::CheckRoot { rest } => run_put(put::after_root(rest, Ok(true)), files, stats),
        PutStepView::Write { path, data, key, rest, .. } => run_put(
            put::after_written(key, rest, Ok(stats(path))),
            files.insert(path, data),
            stats,
        ),
        PutStepView::Done(r) => (files, r),
    }
}

/// Writing the files of blobs, in order.
proof fn lemma_run_put(
    rest: PutRestView<Seq<u8>>,
    files: Contents,
    stats: spec_fn(Seq<char>) -> FileStat,
)
    requires
        forall|i: int|
            0 <= i < rest.pending.len() ==> validate::valid_blob_key(
                (#[trigger] rest.pending[i]).key,
            ),
    ensures
        ({
            let (after, result) = run_put(put::next_file(rest), files, stats);
            &&& result == Ok::<Seq<BlobMetaView>, ErrorView>(
                rest.metas + rest.pending.map_values(
                    |b: BlobInputView<Seq<u8>>| fs::stat_meta(b.key, stats(rest.root + b.key)),
                ),
            )
            &&& blobs(rest.root, after) == model::put_all(blobs(rest.root, files), rest.pending)
        }),
    decreases rest.pending.len(),
{
    let entry = |b: BlobInputView<Seq<u8>>| fs::stat_meta(b.key, stats(rest.root + b.key));
    if rest.pending.len() > 0 {
        let blob = rest.pending[0];
        let later = rest.pending.skip(1);
        let path = rest.root + blob.key;
        let meta = entry(blob);
        let rest2 = PutRestView { pending: later, metas: rest.metas.push(meta), ..rest };
        let files2 = files.insert(path, blob.data);
        assert forall|i: int| 0 <= i < later.len() implies validate::valid_blob_key(
            (#[trigger] later[i]).key,
        ) by {
            assert(later[i] == rest.pending[i + 1]);
        }
        lemma_run_put(rest2, files2, stats);
        assert(validate::valid_blob_key(rest.pending[0].key));
        assert(blobs(rest.root, files2) =~= blobs(rest.root, files).insert(blob.key, blob.data))
            by {
            assert forall|k: Seq<char>| rest.root + k == path implies k == blob.key by {
                law_paths_are_distinct(rest.root, k, blob.key);
            }
        }
        assert(rest.metas + rest.pending.map_values(entry) =~= rest.metas.push(meta)
            + later.map_values(entry));
    } else {
        assert(rest.metas + rest.pending.map_values(entry) =~= rest.metas);
    }
}

/// A put of blobs with valid keys stores each: afterwards the file of each key
/// holds the data that was stored last under it, and no other blob changes. The
/// result lists the metadata of each blob, in order. Where any key is invalid,
/// the put is refused before a file is touched.
pub proof fn law_put_stores_blobs(
    root: Seq<char>,
    files: Contents,
    input: Seq<BlobInputView<Seq<u8>>>,
    stats: spec_fn(Seq<char>) -> FileStat,
)
    ensures
        ({
            let (after, result) = run_put(put::begin(root, input), files, stats);
            if forall|i: int|
                0 <= i < input.len() ==> validate::valid_blob_key((#[trigger] input[i]).key) {
                &&& result == Ok::<Seq<BlobMetaView>, ErrorView>(
                    input.map_values(
                        |b: BlobInputView<Seq<u8>>| fs::stat_meta(b.key, stats(root + b.key)),
                    ),
                )
                &&& blobs(root, after) == model::put_all(blobs(root, files), input)
            } else {
                &&& result is Err
                &&& result->Err_0 is InvalidInput
                &&& after == files
            }
        }),
{
    let keys = validate::blob_keys(input);
    validate::lemma_validation_of_all(keys);
    let entry = |b: BlobInputView<Seq<u8>>| fs::stat_meta(b.key, stats(root + b.key));
    if forall|i: int| 0 <= i < input.len() ==> validate::valid_blob_key((#[trigger] input[i]).key) {
        assert forall|i: int| 0 <= i < keys.len() implies validate::valid_blob_key(
            #[trigger] keys[i],
        ) by {
            assert(keys[i] == input[i].key);
        }
        let rest = PutRestView { root, pending: input, metas: seq![] };
        lemma_run_put(rest, files, stats);
        assert(rest.metas + input.map_values(entry) =~= input.map_values(entry));
        assert(run_put(put::begin(root, input), files, stats) == run_put(
            put::next_file(rest),
            files,
            stats,
        ));
    } else {
        let i = choose|i: int|
            0 <= i < input.len() && !validate::valid_blob_key((#[trigger] input[i]).key);
        assert(keys[i] == input[i].key);
        validate::lemma_validation_error(keys);
    }
}

/// The path that a retrieval or a check looks at on a usable root, and the key for
/// which it does.
pub open spec fn run_look(step: ReadStepView) -> core::result::Result<
    (Seq<char>, Seq<char>),
    ErrorView,
>
    decreases
            (if step is CheckRoot {
                1int
            } else {
                0
            }),
{
    match step {
        ReadStepView::CheckRoot { root, path, key } => run_look(
            get::after_root(root, path, key, Ok(true)),
        ),
        ReadStepView::Look { path, key } => Ok((path, key)),
        ReadStepView::Done(e) => Err(e),
    }
}

/// Whether what the system tells of paths agrees with the files: there is a blob
/// exactly where there is a file.
pub open spec fn looks(
    replies: spec_fn(Seq<char>) -> core::result::Result<FileStat, IoFailure>,
    files: Contents,
) -> bool {
    forall|path: Seq<char>|
        fs::holds_blob(#[trigger] replies(path)) <==> files.dom().contains(path)
}

/// What a retrieval gives on a usable root, where the system tells `replies` of
/// paths.
pub open spec fn run_get(
    root: Seq<char>,
    files: Contents,
    replies: spec_fn(Seq<char>) -> core::result::Result<FileStat, IoFailure>,
    key: Seq<char>,
) -> core::result::Result<Seq<u8>, ErrorView> {
    match run_look(get::begin(root, key)) {
        Err(e) => Err(e),
        Ok((path, named)) => match fs::retrieval(named, fs::holds_blob(replies(path))) {
            Err(e) => Err(e),
            Ok(()) => Ok(files[path]),
        },
    }
}

/// What a check gives on a usable root, where the system tells `replies` of paths.
pub open spec fn run_exists(
    root: Seq<char>,
    replies: spec_fn(Seq<char>) -> core::result::Result<FileStat, IoFailure>,
    key: Seq<char>,
) -> core::result::Result<bool, ErrorView> {
    match run_look(get::begin(root, key)) {
        Err(e) => Err(e),
        Ok((path, _)) => Ok(fs::holds_blob(replies(path))),
    }
}

/// A retrieval of a valid key gives the data of its file, be it empty. Where
/// there is no file it reports the key as it was given. An invalid key is
/// refused.
pub proof fn law_get_reads_the_file(
    root: Seq<char>,
    files: Contents,
    replies: spec_fn(Seq<char>) -> core::result::Result<FileStat, IoFailure>,
    key: Seq<char>,
)
    requires
        looks(replies, files),
    ensures
        validate::valid_blob_key(key) && files.dom().contains(root + key) ==> run_get(
            root,
            files,
            replies,
            key,
        ) == Ok::<Seq<u8>, ErrorView>(files[root + key]),
        validate::valid_blob_key(key) && !files.dom().contains(root + key) ==> run_get(
            root,
            files,
            replies,
            key,
        ) == Err::<Seq<u8>, ErrorView>(ErrorView::NotFound(key)),
        !validate::valid_blob_key(key) ==> (run_get(root, files, replies, key) matches Err(e)
            && validate::validation(key) == Err::<(), ErrorView>(e)),
{
    reveal_with_fuel(run_look, 2);
    assert(fs::holds_blob(replies(root + key)) <==> files.dom().contains(root + key));
}

/// A blob exists exactly where a retrieval finds it. A check for an invalid key is
/// refused as a retrieval is.
pub proof fn law_exists_where_get_finds(
    root: Seq<char>,
    files: Contents,
    replies: spec_fn(Seq<char>) -> core::result::Result<FileStat, IoFailure>,
    key: Seq<char>,
)
    requires
        looks(replies, files),
    ensures
        run_exists(root, replies, key) == match validate::validation(key) {
            Ok(()) => Ok::<bool, ErrorView>(run_get(root, files, replies, key) is Ok),
            Err(e) => Err(e),
        },
        validate::valid_blob_key(key) ==> run_exists(root, replies, key) == Ok::<bool, ErrorView>(
            blobs(root, files).dom().contains(key),
        ),
{
    reveal_with_fuel(run_look, 2);
    law_get_reads_the_file(root, files, replies, key);
    assert(fs::holds_blob(replies(root + key)) <==> files.dom().contains(root + key));
}

/// A retrieval after a put gives the data that was stored last under the key.
pub proof fn law_get_after_put(
    root: Seq<char>,
    files: Contents,
    input: Seq<BlobInputView<Seq<u8>>>,
    stats: spec_fn(Seq<char>) -> FileStat,
    replies: spec_fn(Seq<char>) -> core::result::Result<FileStat, IoFailure>,
    i: int,
)
    requires
        looks(replies, run_put(put::begin(root, input), files, stats).0),
        forall|j: int|
            0 <= j < input.len() ==> validate::valid_blob_key((#[trigger] input[j]).key),
        0 <= i < input.len(),
        forall|j: int| i < j < input.len() ==> (#[trigger] input[j]).key != input[i].key,
    ensures
        run_get(
            root,
            run_put(put::begin(root, input), files, stats).0,
            replies,
            input[i].key,
        ) == Ok::<Seq<u8>, ErrorView>(input[i].data),
{
    law_put_stores_blobs(root, files, input, stats);
    model::lemma_put_all(blobs(root, files), input, input[i].key);
    law_get_reads_the_file(
        root,
        run_put(put::begin(root, input), files, stats).0,
        replies,
        input[i].key,
    );
}

/// The files, and the result, once a put has run to its end on a usable root. The
/// system answers `replies` for the files; one that it refuses stays as it was.
pub open spec fn run_refused_put(
    step: PutStepView<Seq<u8>>,
    files: Contents,
    replies: spec_fn(Seq<char>) -> core::result::Result<FileStat, IoFailure>,
) -> (Contents, core::result::Result<Seq<BlobMetaView>, ErrorView>)
    decreases
            (match step {
                PutStepView::CheckRoot { rest } => rest.pending.len() + 2,
                PutStepView::Write { rest, .. } => rest.pending.len() + 1,
                PutStepView::Done(_) => 0,
            }),
{
    match step {
        PutStepView::CheckRoot { rest } => run_refused_put(
            put::after_root(rest, Ok(true)),
            files,
            replies,
        ),
        PutStepView::Write { path, data, key, rest, .. } => run_refused_put(
            put::after_written(key, rest, replies(path)),
            if replies(path) is Ok {
                files.insert(path, data)
            } else {
                files
            },
            replies,
        ),
        PutStepView::Done(r) => (files, r),
    }
}

/// Writing the files of blobs up to the one that is refused.
proof fn lemma_run_refused_put(
    rest: PutRestView<Seq<u8>>,
    files: Contents,
    replies: spec_fn(Seq<char>) -> core::result::Result<FileStat, IoFailure>,
    n: int,
)
    requires
        0 <= n < rest.pending.len(),
        forall|i: int|
            0 <= i <= n ==> validate::valid_blob_key((#[trigger] rest.pending[i]).key),
        forall|i: int| 0 <= i < n ==> replies(rest.root + (#[trigger] rest.pending[i]).key) is Ok,
        replies(rest.root + rest.pending[n].key) is Err,
    ensures
        ({
            let (after, result) = run_refused_put(put::next_file(rest), files, replies);
            &&& result matches Err(ErrorView::Batch(b))
            &&& b.succeeded == order::keys_of(rest.metas) + validate::blob_keys(
                rest.pending.take(n),
            )
            &&& b.errors == seq![
                KeyErrorView {
                    key: rest.pending[n].key,
                    error: fs::per_key_failure(replies(rest.root + rest.pending[n].key)->Err_0),
                },
            ]
            &&& blobs(rest.root, after) == model::put_all(
                blobs(rest.root, files),
                rest.pending.take(n),
            )
        }),
    decreases n,
{
    reveal_with_fuel(run_refused_put, 2);
    let blob = rest.pending[0];
    let path = rest.root + blob.key;
    if n == 0 {
        assert(validate::blob_keys(rest.pending.take(0)) =~= seq![]);
        assert(order::keys_of(rest.metas) + validate::blob_keys(rest.pending.take(0))
            =~= order::keys_of(rest.metas));
    } else {
        let later = rest.pending.skip(1);
        let stat = replies(rest.root + rest.pending[0].key)->Ok_0;
        let meta = fs::stat_meta(blob.key, stat);
        let rest2 = PutRestView { pending: later, metas: rest.metas.push(meta), ..rest };
        let files2 = files.insert(path, blob.data);
        assert forall|i: int| 0 <= i <= n - 1 implies validate::valid_blob_key(
            (#[trigger] later[i]).key,
        ) by {
            assert(later[i] == rest.pending[i + 1]);
        }
        assert forall|i: int| 0 <= i < n - 1 implies replies(
            rest.root + (#[trigger] later[i]).key,
        ) is Ok by {
            assert(later[i] == rest.pending[i + 1]);
        }
        assert(later[n - 1] == rest.pending[n]);
        lemma_run_refused_put(rest2, files2, replies, n - 1);
        assert(validate::valid_blob_key(rest.pending[0].key));
        assert(blobs(rest.root, files2) =~= blobs(rest.root, files).insert(blob.key, blob.data))
            by {
            assert forall|k: Seq<char>| rest.root + k == path implies k == blob.key by {
                law_paths_are_distinct(rest.root, k, blob.key);
            }
        }
        assert(rest.pending.take(n).skip(1) =~= later.take(n - 1));
        assert(order::keys_of(rest2.metas) + validate::blob_keys(later.take(n - 1))
            =~= order::keys_of(rest.metas) + validate::blob_keys(rest.pending.take(n)));
    }
}

/// A put of blobs with valid keys ends at the first one that the system refuses.
/// The error accounts for what was done: the blobs before it have been stored, and
/// it has failed. No other blob changes.
pub proof fn law_refused_blob_ends_the_put(
    root: Seq<char>,
    files: Contents,
    input: Seq<BlobInputView<Seq<u8>>>,
    replies: spec_fn(Seq<char>) -> core::result::Result<FileStat, IoFailure>,
    n: int,
)
    requires
        forall|i: int|
            0 <= i < input.len() ==> validate::valid_blob_key((#[trigger] input[i]).key),
        0 <= n < input.len(),
        forall|i: int| 0 <= i < n ==> replies(root + (#[trigger] input[i]).key) is Ok,
        replies(root + input[n].key) is Err,
    ensures
        ({
            let (after, result) = run_refused_put(put::begin(root, input), files, replies);
            &&& result matches Err(ErrorView::Batch(b))
            &&& b.succeeded == validate::blob_keys(input.take(n))
            &&& b.errors == seq![
                KeyErrorView {
                    key: input[n].key,
                    error: fs::per_key_failure(replies(root + input[n].key)->Err_0),
                },
            ]
            &&& blobs(root, after) == model::put_all(blobs(root, files), input.take(n))
        }),
{
    let keys = validate::blob_keys(input);
    validate::lemma_validation_of_all(keys);
    assert forall|i: int| 0 <= i < keys.len() implies validate::valid_blob_key(
        #[trigger] keys[i],
    ) by {
        assert(keys[i] == input[i].key);
    }
    let rest = PutRestView { root, pending: input, metas: seq![] };
    lemma_run_refused_put(rest, files, replies, n);
    assert(order::keys_of(rest.metas) + validate::blob_keys(input.take(n)) =~= validate::blob_keys(
        input.take(n),
    ));
    assert(run_refused_put(put::begin(root, input), files, replies) == run_refused_put(
        put::next_file(rest),
        files,
        replies,
    ));
}

/// The result of a delete on a usable root, where the system answers the `i`-th
/// removal with `replies[i]`.
pub open spec fn run_delete(
    step: DeleteStepView,
    replies: Seq<core::result::Result<(), IoFailure>>,
) -> core::result::Result<(), ErrorView>
    decreases
            (match step {
                DeleteStepView::CheckRoot { rest } => rest.pending.len() + 2,
                DeleteStepView::Remove { rest, .. } => rest.pending.len() + 1,
                DeleteStepView::Done(_) => 0,
            }),
{
    match step {
        DeleteStepView::CheckRoot { rest } => run_delete(
            delete::after_root(rest, Ok(true)),
            replies,
        ),
        DeleteStepView::Remove { key, rest, .. } => run_delete(
            delete::after_removed(key, rest, replies[0]),
            replies.skip(1),
        ),
        DeleteStepView::Done(r) => r,
    }
}

/// The keys whose files are gone, in order.
pub open spec fn gone_keys(
    keys: Seq<Seq<char>>,
    replies: Seq<core::result::Result<(), IoFailure>>,
) -> Seq<Seq<char>>
    decreases keys.len(),
{
    if keys.len() == 0 {
        seq![]
    } else if delete::is_gone(replies[0]) {
        seq![keys[0]] + gone_keys(keys.skip(1), replies.skip(1))
    } else {
        gone_keys(keys.skip(1), replies.skip(1))
    }
}

/// The keys whose files could not be removed, in order, each with its failure.
pub open spec fn failed_keys(
    keys: Seq<Seq<char>>,
    replies: Seq<core::result::Result<(), IoFailure>>,
) -> Seq<KeyErrorView>
    decreases keys.len(),
{
    if keys.len() == 0 {
        seq![]
    } else if delete::is_gone(replies[0]) {
        failed_keys(keys.skip(1), replies.skip(1))
    } else {
        seq![KeyErrorView { key: keys[0], error: fs::per_key_failure(replies[0]->Err_0) }]
            + failed_keys(keys.skip(1), replies.skip(1))
    }
}

/// Removing the files of keys, in order.
proof fn lemma_run_delete(
    rest: DeleteRestView,
    replies: Seq<core::result::Result<(), IoFailure>>,
)
    requires
        replies.len() == rest.pending.len(),
    ensures
        ({
            let gone = rest.succeeded + gone_keys(rest.pending, replies);
            let failed = rest.errors + failed_keys(rest.pending, replies);
            run_delete(delete::next_file(rest), replies) == if failed.len() == 0 {
                Ok::<(), ErrorView>(())
            } else {
                Err(ErrorView::Batch(BatchErrorView { succeeded: gone, errors: failed }))
            }
        }),
        gone_keys(rest.pending, replies).len() + failed_keys(rest.pending, replies).len()
            == rest.pending.len(),
    decreases rest.pending.len(),
{
    let gone = gone_keys(rest.pending, replies);
    let failed = failed_keys(rest.pending, replies);
    if rest.pending.len() == 0 {
        assert(rest.succeeded + gone =~= rest.succeeded);
        assert(rest.errors + failed =~= rest.errors);
    } else {
        let key = rest.pending[0];
        let later = rest.pending.skip(1);
        let rest1 = DeleteRestView { pending: later, ..rest };
        if delete::is_gone(replies[0]) {
            let rest2 = DeleteRestView { succeeded: rest.succeeded.push(key), ..rest1 };
            lemma_run_delete(rest2, replies.skip(1));
            assert(rest.succeeded + gone =~= rest2.succeeded + gone_keys(later, replies.skip(1)));
        } else {
            let error = KeyErrorView { key, error: fs::per_key_failure(replies[0]->Err_0) };
            let rest2 = DeleteRestView { errors: rest.errors.push(error), ..rest1 };
            lemma_run_delete(rest2, replies.skip(1));
            assert(rest.errors + failed =~= rest2.errors + failed_keys(later, replies.skip(1)));
        }
    }
}

/// A delete of valid keys tries every key, whatever happens to the others, and
/// accounts for each: it succeeds exactly when every file is gone, also where a
/// file was missing from the start; otherwise the error lists every key once,
/// as processed or with its failure.
pub proof fn law_delete_accounts_for_every_key(
    root: Seq<char>,
    keys: Seq<Seq<char>>,
    replies: Seq<core::result::Result<(), IoFailure>>,
)
    requires
        replies.len() == keys.len(),
        forall|i: int| 0 <= i < keys.len() ==> validate::valid_blob_key(#[trigger] keys[i]),
    ensures
        run_delete(delete::begin(root, keys), replies) == if failed_keys(keys, replies).len() == 0 {
            Ok::<(), ErrorView>(())
        } else {
            Err(
                ErrorView::Batch(
                    BatchErrorView {
                        succeeded: gone_keys(keys, replies),
                        errors: failed_keys(keys, replies),
                    },
                ),
            )
        },
        gone_keys(keys, replies).len() + failed_keys(keys, replies).len() == keys.len(),
{
    validate::lemma_validation_of_all(keys);
    let rest = DeleteRestView { root, pending: keys, succeeded: seq![], errors: seq![] };
    lemma_run_delete(rest, replies);
    assert(rest.succeeded + gone_keys(keys, replies) =~= gone_keys(keys, replies));
    assert(rest.errors + failed_keys(keys, replies) =~= failed_keys(keys, replies));
    assert(run_delete(delete::begin(root, keys), replies) == run_delete(
        delete::next_file(rest),
        replies,
    ));
}

/// The files, and the result, once a delete has run to its end on a usable root.
/// The system removes the files that are there and reports `missing` for others.
pub open spec fn run_remove(step: DeleteStepView, files: Contents, missing: IoFailure) -> (
    Contents,
    core::result::Result<(), ErrorView>,
)
    decreases
            (match step {
                DeleteStepView::CheckRoot { rest } => rest.pending.len() + 2,
                DeleteStepView::Remove { rest, .. } => rest.pending.len() + 1,
                DeleteStepView::Done(_) => 0,
            }),
{
    match step {
        DeleteStepView::CheckRoot { rest } => run_remove(
            delete::after_root(rest, Ok(true)),
            files,
            missing,
        ),
        DeleteStepView::Remove { path, key, rest } => run_remove(
            delete::after_removed(
                key,
                rest,
                if files.dom().contains(path) {
                    Ok(())
                } else {
                    Err(missing)
                },
            ),
            files.remove(path),
            missing,
        ),
        DeleteStepView::Done(r) => (files, r),
    }
}

/// Removing the files of keys, in order.
proof fn lemma_run_remove(rest: DeleteRestView, files: Contents, missing: IoFailure)
    requires
        missing.kind == IoErrorKind::NotFound,
        rest.errors.len() == 0,
    ensures
        ({
            let (after, result) = run_remove(delete::next_file(rest), files, missing);
            &&& result == Ok::<(), ErrorView>(())
            &&& blobs(rest.root, after) == model::delete_all(
                blobs(rest.root, files),
                rest.pending,
            )
        }),
    decreases rest.pending.len(),
{
    if rest.pending.len() == 0 {
        assert(model::delete_all(blobs(rest.root, files), rest.pending) =~= blobs(
            rest.root,
            files,
        ));
    } else {
        let key = rest.pending[0];
        let later = rest.pending.skip(1);
        let path = rest.root + key;
        let rest2 = DeleteRestView {
            pending: later,
            succeeded: rest.succeeded.push(key),
            ..rest
        };
        lemma_run_remove(rest2, files.remove(path), missing);
        assert forall|k: Seq<char>| rest.pending.contains(k) == (k == key || later.contains(
            k,
        )) by {
            if later.contains(k) {
                let i = choose|i: int| 0 <= i < later.len() && later[i] == k;
                assert(rest.pending[i + 1] == k);
            }
            if rest.pending.contains(k) && k != key {
                let i = choose|i: int| 0 <= i < rest.pending.len() && rest.pending[i] == k;
                assert(later[i - 1] == k);
            }
        }
        assert(blobs(rest.root, files.remove(path)) =~= blobs(rest.root, files).remove(key)) by {
            assert forall|k: Seq<char>| rest.root + k == path implies k == key by {
                law_paths_are_distinct(rest.root, k, key);
            }
        }
        assert(model::delete_all(blobs(rest.root, files).remove(key), later) =~= model::delete_all(
            blobs(rest.root, files),
            rest.pending,
        ));
    }
}

/// A delete of valid keys removes their blobs and no other, and succeeds also for
/// keys that have no blob. Where any key is invalid, the delete is refused before
/// a file is touched.
pub proof fn law_delete_removes_blobs(
    root: Seq<char>,
    files: Contents,
    keys: Seq<Seq<char>>,
    missing: IoFailure,
)
    requires
        missing.kind == IoErrorKind::NotFound,
    ensures
        ({
            let (after, result) = run_remove(delete::begin(root, keys), files, missing);
            if forall|i: int| 0 <= i < keys.len() ==> validate::valid_blob_key(#[trigger] keys[i]) {
                &&& result == Ok::<(), ErrorView>(())
                &&& blobs(root, after) == model::delete_all(blobs(root, files), keys)
            } else {
                &&& result is Err
                &&& result->Err_0 is InvalidInput
                &&& after == files
            }
        }),
{
    validate::lemma_validation_of_all(keys);
    validate::lemma_validation_error(keys);
    if forall|i: int| 0 <= i < keys.len() ==> validate::valid_blob_key(#[trigger] keys[i]) {
        let rest = DeleteRestView { root, pending: keys, succeeded: seq![], errors: seq![] };
        lemma_run_remove(rest, files, missing);
        assert(run_remove(delete::begin(root, keys), files, missing) == run_remove(
            delete::next_file(rest),
            files,
            missing,
        ));
    }
}

/// A tree of directories: the entries of each.
pub type Tree<P> = spec_fn(P) -> Seq<EntryView<P>>;

/// Whether the file of a key lies at most `depth` directories below `dir`.
pub open spec fn lies_below<P>(
    tree: Tree<P>,
    separator: char,
    dir: P,
    key: Seq<char>,
    depth: nat,
) -> bool
    decreases depth,
{
    depth > 0 && exists|i: int|
        0 <= i < tree(dir).len() && (match (#[trigger] tree(dir)[i]).kind {
            KindView::File(relative) => walk::key_of_relative(relative, separator) == key,
            KindView::Directory => lies_below(
                tree,
                separator,
                tree(dir)[i].path,
                key,
                (depth - 1) as nat,
            ),
            _ => false,
        })
}

/// Whether the file of a key lies below a directory, at any depth.
pub open spec fn below<P>(tree: Tree<P>, separator: char, dir: P, key: Seq<char>) -> bool {
    exists|depth: nat| lies_below(tree, separator, dir, key, depth)
}

/// Whether an entry is the file of a key, or a directory above it.
pub open spec fn leads_to<P>(
    tree: Tree<P>,
    separator: char,
    entry: EntryView<P>,
    key: Seq<char>,
) -> bool {
    match entry.kind {
        KindView::File(relative) => walk::key_of_relative(relative, separator) == key,
        KindView::Directory => below(tree, separator, entry.path, key),
        _ => false,
    }
}

/// A file lies below a directory exactly when one of its entries leads there.
proof fn lemma_below<P>(tree: Tree<P>, separator: char, dir: P, key: Seq<char>)
    ensures
        below(tree, separator, dir, key) <==> (exists|i: int|
            0 <= i < tree(dir).len() && leads_to(tree, separator, #[trigger] tree(dir)[i], key)),
{
    if below(tree, separator, dir, key) {
        let depth = choose|depth: nat| lies_below(tree, separator, dir, key, depth);
        let i = choose|i: int|
            0 <= i < tree(dir).len() && (match (#[trigger] tree(dir)[i]).kind {
                KindView::File(relative) => walk::key_of_relative(relative, separator) == key,
                KindView::Directory => lies_below(
                    tree,
                    separator,
                    tree(dir)[i].path,
                    key,
                    (depth - 1) as nat,
                ),
                _ => false,
            });
        assert(leads_to(tree, separator, tree(dir)[i], key));
    }
    if exists|i: int|
        0 <= i < tree(dir).len() && leads_to(tree, separator, #[trigger] tree(dir)[i], key) {
        let i = choose|i: int|
            0 <= i < tree(dir).len() && leads_to(tree, separator, #[trigger] tree(dir)[i], key);
        let entry = tree(dir)[i];
        match entry.kind {
            KindView::Directory => {
                let depth = choose|depth: nat|
                    lies_below(tree, separator, entry.path, key, depth);
                assert(lies_below(tree, separator, dir, key, depth + 1));
            },
            _ => {
                assert(lies_below(tree, separator, dir, key, 1));
            },
        }
    }
}

/// The keys that a walk has found once it has run to its end; `None` where it
/// takes more than `fuel` steps or fails. `entries` are those that are left of
/// the open directory.
pub open spec fn run_walk<P, F: ListFilter>(
    step: WalkStepView<P>,
    entries: Seq<EntryView<P>>,
    found: Seq<Seq<char>>,
    tree: Tree<P>,
    filter: F,
    fuel: nat,
) -> Option<Seq<Seq<char>>>
    decreases fuel,
{
    if fuel == 0 {
        None
    } else {
        let left = (fuel - 1) as nat;
        match step {
            WalkStepView::CheckDir { dir, rest } => run_walk(
                walk::after_stat(dir, rest, Ok(true)),
                seq![],
                found,
                tree,
                filter,
                left,
            ),
            WalkStepView::OpenDir { dir, rest } => run_walk(
                walk::after_open(rest, Ok(())),
                tree(dir),
                found,
                tree,
                filter,
                left,
            ),
            WalkStepView::NextEntry { rest } => if entries.len() == 0 {
                run_walk(
                    walk::after_entry(rest, &filter, Ok(None)),
                    seq![],
                    found,
                    tree,
                    filter,
                    left,
                )
            } else {
                run_walk(
                    walk::after_entry(rest, &filter, Ok(Some(entries[0]))),
                    entries.skip(1),
                    found,
                    tree,
                    filter,
                    left,
                )
            },
            WalkStepView::Found { key, rest, .. } => run_walk(
                WalkStepView::NextEntry { rest },
                entries,
                found.push(key),
                tree,
                filter,
                left,
            ),
            WalkStepView::Done => Some(found),
            WalkStepView::Failed(_) => None,
        }
    }
}

/// The directories that a walk still has to look at.
pub open spec fn pending_dirs<P>(step: WalkStepView<P>) -> Seq<P> {
    match step {
        WalkStepView::CheckDir { dir, rest } => seq![dir] + rest.queue,
        WalkStepView::OpenDir { dir, rest } => seq![dir] + rest.queue,
        WalkStepView::NextEntry { rest } => rest.queue,
        WalkStepView::Found { rest, .. } => rest.queue,
        _ => seq![],
    }
}

/// The separator with which a walk makes keys of paths.
pub open spec fn step_separator<P>(step: WalkStepView<P>) -> Option<char> {
    match step {
        WalkStepView::CheckDir { rest, .. } => Some(rest.separator),
        WalkStepView::OpenDir { rest, .. } => Some(rest.separator),
        WalkStepView::NextEntry { rest } => Some(rest.separator),
        WalkStepView::Found { rest, .. } => Some(rest.separator),
        _ => None,
    }
}

/// Whether a walk is still going to find a key.
spec fn to_be_found<P, F: ListFilter>(
    step: WalkStepView<P>,
    entries: Seq<EntryView<P>>,
    tree: Tree<P>,
    filter: F,
    separator: char,
    key: Seq<char>,
) -> bool {
    ||| step matches WalkStepView::Found { key: k, .. } && k == key
    ||| filter.accepts(key, None) && exists|i: int|
        0 <= i < pending_dirs(step).len() && below(
            tree,
            separator,
            #[trigger] pending_dirs(step)[i],
            key,
        )
    ||| filter.accepts(key, None) && exists|i: int|
        0 <= i < entries.len() && leads_to(tree, separator, #[trigger] entries[i], key)
}

/// A walk that ends has found what it was going to find, and nothing else.
proof fn lemma_run_walk<P, F: ListFilter>(
    step: WalkStepView<P>,
    entries: Seq<EntryView<P>>,
    found: Seq<Seq<char>>,
    tree: Tree<P>,
    filter: F,
    fuel: nat,
    separator: char,
    key: Seq<char>,
)
    requires
        run_walk(step, entries, found, tree, filter, fuel) is Some,
        step_separator(step) matches Some(s) ==> s == separator,
        !(step is NextEntry || step is Found) ==> entries.len() == 0,
    ensures
        run_walk(step, entries, found, tree, filter, fuel)->0.contains(key) <==> found.contains(key)
            || to_be_found(step, entries, tree, filter, separator, key),
    decreases fuel,
{
    let left = (fuel - 1) as nat;
    match step {
        WalkStepView::CheckDir { dir, rest } => {
            let next = walk::after_stat(dir, rest, Ok(true));
            lemma_run_walk(next, seq![], found, tree, filter, left, separator, key);
            assert(pending_dirs(next) == pending_dirs(step));
        },
        WalkStepView::OpenDir { dir, rest } => {
            let next = walk::after_open(rest, Ok(()));
            lemma_run_walk(next, tree(dir), found, tree, filter, left, separator, key);
            lemma_below(tree, separator, dir, key);
            assert(pending_dirs(step)[0] == dir);
            assert forall|i: int| 0 <= i < rest.queue.len() implies rest.queue[i]
                == #[trigger] pending_dirs(step)[i + 1] by {}
            if exists|i: int|
                0 <= i < rest.queue.len() && below(
                    tree,
                    separator,
                    #[trigger] pending_dirs(next)[i],
                    key,
                ) {
                let i = choose|i: int|
                    0 <= i < rest.queue.len() && below(
                        tree,
                        separator,
                        #[trigger] pending_dirs(next)[i],
                        key,
                    );
                assert(below(tree, separator, pending_dirs(step)[i + 1], key));
            }
            if exists|i: int|
                0 <= i < pending_dirs(step).len() && below(
                    tree,
                    separator,
                    #[trigger] pending_dirs(step)[i],
                    key,
                ) {
                let i = choose|i: int|
                    0 <= i < pending_dirs(step).len() && below(
                        tree,
                        separator,
                        #[trigger] pending_dirs(step)[i],
                        key,
                    );
                if i > 0 {
                    assert(below(tree, separator, pending_dirs(next)[i - 1], key));
                }
            }
        },
        WalkStepView::NextEntry { rest } => {
            if entries.len() == 0 {
                let next = walk::after_entry(rest, &filter, Ok(None));
                lemma_run_walk(next, seq![], found, tree, filter, left, separator, key);
                assert(pending_dirs(next) =~= rest.queue) by {
                    if rest.queue.len() > 0 {
                        assert(seq![rest.queue[0]] + rest.queue.skip(1) =~= rest.queue);
                    }
                }
            } else {
                let entry = entries[0];
                let others = entries.skip(1);
                let next = walk::after_entry(rest, &filter, Ok(Some(entry)));
                lemma_run_walk(next, others, found, tree, filter, left, separator, key);
                lemma_entry_taken(rest, entries, next, tree, filter, separator, key);
            }
        },
        WalkStepView::Found { key: k, rest, .. } => {
            let next = WalkStepView::NextEntry { rest };
            lemma_run_walk(next, entries, found.push(k), tree, filter, left, separator, key);
            assert(found.push(k).contains(key) <==> found.contains(key) || k == key) by {
                if found.contains(key) {
                    let i = choose|i: int| 0 <= i < found.len() && found[i] == key;
                    assert(found.push(k)[i] == key);
                }
                if k == key {
                    assert(found.push(k)[found.len() as int] == key);
                }
                if found.push(k).contains(key) && k != key {
                    let i = choose|i: int| 0 <= i < found.push(k).len() && found.push(k)[i] == key;
                    assert(found[i] == key);
                }
            }
            assert(pending_dirs(next) == pending_dirs(step));
        },
        _ => {},
    }
}

/// Taking an entry moves what it leads to from the entries to the rest of the
/// walk.
proof fn lemma_entry_taken<P, F: ListFilter>(
    rest: WalkRestView<P>,
    entries: Seq<EntryView<P>>,
    next: WalkStepView<P>,
    tree: Tree<P>,
    filter: F,
    separator: char,
    key: Seq<char>,
)
    requires
        entries.len() > 0,
        rest.separator == separator,
        next == walk::after_entry(rest, &filter, Ok(Some(entries[0]))),
        !(next is Failed),
    ensures
        to_be_found(next, entries.skip(1), tree, filter, separator, key) == to_be_found(
            WalkStepView::NextEntry { rest },
            entries,
            tree,
            filter,
            separator,
            key,
        ),
{
    let entry = entries[0];
    let others = entries.skip(1);
    let now = WalkStepView::NextEntry { rest };
    assert forall|i: int| 0 <= i < others.len() implies #[trigger] others[i] == entries[i + 1] by {}
    if exists|i: int|
        0 <= i < others.len() && leads_to(tree, separator, #[trigger] others[i], key) {
        let i = choose|i: int|
            0 <= i < others.len() && leads_to(tree, separator, #[trigger] others[i], key);
        assert(leads_to(tree, separator, entries[i + 1], key));
    }
    if exists|i: int|
        0 <= i < entries.len() && leads_to(tree, separator, #[trigger] entries[i], key) {
        let i = choose|i: int|
            0 <= i < entries.len() && leads_to(tree, separator, #[trigger] entries[i], key);
        if i > 0 {
            assert(leads_to(tree, separator, others[i - 1], key));
        }
    }
    match entry.kind {
        KindView::Directory => {
            let queue = rest.queue.push(entry.path);
            assert(pending_dirs(next) == queue);
            assert(queue[rest.queue.len() as int] == entry.path);
            if exists|i: int|
                0 <= i < queue.len() && below(
                    tree,
                    separator,
                    #[trigger] pending_dirs(next)[i],
                    key,
                ) {
                let i = choose|i: int|
                    0 <= i < queue.len() && below(
                        tree,
                        separator,
                        #[trigger] pending_dirs(next)[i],
                        key,
                    );
                if i < rest.queue.len() {
                    assert(below(tree, separator, pending_dirs(now)[i], key));
                } else {
                    assert(leads_to(tree, separator, entries[0], key));
                }
            }
            if exists|i: int|
                0 <= i < rest.queue.len() && below(
                    tree,
                    separator,
                    #[trigger] pending_dirs(now)[i],
                    key,
                ) {
                let i = choose|i: int|
                    0 <= i < rest.queue.len() && below(
                        tree,
                        separator,
                        #[trigger] pending_dirs(now)[i],
                        key,
                    );
                assert(below(tree, separator, pending_dirs(next)[i], key));
            }
            if leads_to(tree, separator, entries[0], key) {
                assert(below(tree, separator, pending_dirs(next)[rest.queue.len() as int], key));
            }
        },
        KindView::File(relative) => {
            let k = walk::key_of_relative(relative, separator);
            assert(leads_to(tree, separator, entries[0], key) <==> k == key);
            assert(pending_dirs(next) == pending_dirs(now));
        },
        _ => {
            assert(pending_dirs(next) == pending_dirs(now));
        },
    }
}

/// A walk that ends has found exactly the files below the directory at which it
/// started, at any depth, that the filter selects.
pub proof fn law_walk_finds_every_file<P, F: ListFilter>(
    tree: Tree<P>,
    start: P,
    separator: char,
    filter: F,
    fuel: nat,
    key: Seq<char>,
)
    requires
        run_walk(
            walk::next_dir(WalkRestView { queue: seq![start], separator }),
            seq![],
            seq![],
            tree,
            filter,
            fuel,
        ) is Some,
    ensures
        run_walk(
            walk::next_dir(WalkRestView { queue: seq![start], separator }),
            seq![],
            seq![],
            tree,
            filter,
            fuel,
        )->0.contains(key) <==> filter.accepts(key, None) && below(tree, separator, start, key),
{
    let rest = WalkRestView { queue: seq![start], separator };
    let step = walk::next_dir(rest);
    lemma_run_walk(step, seq![], seq![], tree, filter, fuel, separator, key);
    assert(pending_dirs(step) =~= seq![start]);
    if below(tree, separator, start, key) {
        assert(below(tree, separator, pending_dirs(step)[0], key));
    }
}

/// Whether no file is shown twice: of two entries of a directory at most one
/// leads to a given file.
pub open spec fn is_tree<P>(tree: Tree<P>, separator: char) -> bool {
    forall|dir: P| apart(tree, separator, #[trigger] tree(dir))
}

/// Whether no two of the entries lead to the same file.
pub open spec fn apart<P>(tree: Tree<P>, separator: char, entries: Seq<EntryView<P>>) -> bool {
    forall|i: int, j: int, key: Seq<char>|
        #![trigger leads_to(tree, separator, entries[i], key), leads_to(tree, separator, entries[j], key)]
        0 <= i < j < entries.len() ==> !(leads_to(tree, separator, entries[i], key) && leads_to(
            tree,
            separator,
            entries[j],
            key,
        ))
}

/// Whether a walk has found nothing twice and is not going to.
spec fn once<P>(
    step: WalkStepView<P>,
    entries: Seq<EntryView<P>>,
    found: Seq<Seq<char>>,
    tree: Tree<P>,
    separator: char,
) -> bool {
    let dirs = pending_dirs(step);
    &&& found.no_duplicates()
    &&& apart(tree, separator, entries)
    &&& forall|i: int, j: int, key: Seq<char>|
        #![trigger below(tree, separator, dirs[i], key), below(tree, separator, dirs[j], key)]
        0 <= i < j < dirs.len() ==> !(below(tree, separator, dirs[i], key) && below(
            tree,
            separator,
            dirs[j],
            key,
        ))
    &&& forall|i: int, j: int, key: Seq<char>|
        #![trigger below(tree, separator, dirs[i], key), leads_to(tree, separator, entries[j], key)]
        0 <= i < dirs.len() && 0 <= j < entries.len() ==> !(below(tree, separator, dirs[i], key)
            && leads_to(tree, separator, entries[j], key))
    &&& forall|i: int, key: Seq<char>|
        #![trigger below(tree, separator, dirs[i], key)]
        0 <= i < dirs.len() && below(tree, separator, dirs[i], key) ==> !taken(step, found, key)
    &&& forall|j: int, key: Seq<char>|
        #![trigger leads_to(tree, separator, entries[j], key)]
        0 <= j < entries.len() && leads_to(tree, separator, entries[j], key) ==> !taken(
            step,
            found,
            key,
        )
    &&& step matches WalkStepView::Found { key, .. } ==> !found.contains(key)
}

/// Whether a key has been found, the one that is just reported among them.
spec fn taken<P>(step: WalkStepView<P>, found: Seq<Seq<char>>, key: Seq<char>) -> bool {
    found.contains(key) || (step matches WalkStepView::Found { key: k, .. } && k == key)
}

/// A walk that is not going to find anything twice does not.
proof fn lemma_run_walk_once<P, F: ListFilter>(
    step: WalkStepView<P>,
    entries: Seq<EntryView<P>>,
    found: Seq<Seq<char>>,
    tree: Tree<P>,
    filter: F,
    fuel: nat,
    separator: char,
)
    requires
        run_walk(step, entries, found, tree, filter, fuel) is Some,
        step_separator(step) matches Some(s) ==> s == separator,
        !(step is NextEntry || step is Found) ==> entries.len() == 0,
        is_tree(tree, separator),
        once(step, entries, found, tree, separator),
    ensures
        run_walk(step, entries, found, tree, filter, fuel)->0.no_duplicates(),
    decreases fuel,
{
    let left = (fuel - 1) as nat;
    match step {
        WalkStepView::CheckDir { dir, rest } => {
            let next = walk::after_stat(dir, rest, Ok(true));
            assert(pending_dirs(next) == pending_dirs(step));
            let none: Seq<EntryView<P>> = seq![];
            assert(entries =~= none);
            lemma_same_dirs_once(step, next, none, found, tree, separator);
            lemma_run_walk_once(next, none, found, tree, filter, left, separator);
        },
        WalkStepView::OpenDir { dir, rest } => {
            let next = walk::after_open(rest, Ok(()));
            lemma_open_once(dir, rest, found, tree, separator);
            lemma_run_walk_once(next, tree(dir), found, tree, filter, left, separator);
        },
        WalkStepView::NextEntry { rest } => {
            if entries.len() == 0 {
                let next = walk::after_entry(rest, &filter, Ok(None));
                assert(pending_dirs(next) =~= rest.queue) by {
                    if rest.queue.len() > 0 {
                        assert(seq![rest.queue[0]] + rest.queue.skip(1) =~= rest.queue);
                    }
                }
                let none: Seq<EntryView<P>> = seq![];
                assert(entries =~= none);
                lemma_same_dirs_once(step, next, none, found, tree, separator);
                lemma_run_walk_once(next, none, found, tree, filter, left, separator);
            } else {
                let next = walk::after_entry(rest, &filter, Ok(Some(entries[0])));
                assert(run_walk(next, entries.skip(1), found, tree, filter, left) is Some);
                lemma_entry_once(rest, entries, found, next, tree, filter, separator);
                lemma_run_walk_once(next, entries.skip(1), found, tree, filter, left, separator);
            }
        },
        WalkStepView::Found { key: k, rest, .. } => {
            let next = WalkStepView::NextEntry { rest };
            assert(pending_dirs(next) == pending_dirs(step));
            assert forall|key: Seq<char>| found.push(k).contains(key) implies #[trigger] taken(
                step,
                found,
                key,
            ) by {
                let i = choose|i: int| 0 <= i < found.push(k).len() && found.push(k)[i] == key;
                if i < found.len() {
                    assert(found[i] == key);
                }
            }
            assert forall|key: Seq<char>| #[trigger] taken(
                next,
                found.push(k),
                key,
            ) implies taken(step, found, key) by {}
            lemma_run_walk_once(next, entries, found.push(k), tree, filter, left, separator);
        },
        _ => {},
    }
}

/// What a walk is going to find depends on the directories and entries that are
/// left.
proof fn lemma_same_dirs_once<P>(
    step: WalkStepView<P>,
    next: WalkStepView<P>,
    entries: Seq<EntryView<P>>,
    found: Seq<Seq<char>>,
    tree: Tree<P>,
    separator: char,
)
    requires
        pending_dirs(next) == pending_dirs(step),
        !(next is Found),
        once(step, entries, found, tree, separator),
    ensures
        once(next, entries, found, tree, separator),
{
    assert forall|key: Seq<char>| #[trigger] taken(next, found, key) implies taken(
        step,
        found,
        key,
    ) by {}
}

/// Opening a directory keeps a walk from finding anything twice.
proof fn lemma_open_once<P>(
    dir: P,
    rest: WalkRestView<P>,
    found: Seq<Seq<char>>,
    tree: Tree<P>,
    separator: char,
)
    requires
        is_tree(tree, separator),
        once(WalkStepView::OpenDir { dir, rest }, seq![], found, tree, separator),
    ensures
        once(WalkStepView::NextEntry { rest }, tree(dir), found, tree, separator),
{
    let step = WalkStepView::OpenDir { dir, rest };
    let next = WalkStepView::NextEntry { rest };
    let before = pending_dirs(step);
    let dirs = pending_dirs(next);
    let entries = tree(dir);
    assert(before[0] == dir);
    assert forall|i: int| 0 <= i < dirs.len() implies #[trigger] dirs[i] == before[i + 1] by {}
    assert forall|i: int, j: int, key: Seq<char>|
        #![trigger below(tree, separator, dirs[i], key), below(tree, separator, dirs[j], key)]
        0 <= i < j < dirs.len() implies !(below(tree, separator, dirs[i], key) && below(
        tree,
        separator,
        dirs[j],
        key,
    )) by {
        assert(before[i + 1] == dirs[i] && before[j + 1] == dirs[j]);
    }
    assert forall|i: int, j: int, key: Seq<char>|
        #![trigger below(tree, separator, dirs[i], key), leads_to(tree, separator, entries[j], key)]
        0 <= i < dirs.len() && 0 <= j < entries.len() implies !(below(
        tree,
        separator,
        dirs[i],
        key,
    ) && leads_to(tree, separator, entries[j], key)) by {
        lemma_below(tree, separator, dir, key);
        assert(before[i + 1] == dirs[i]);
        assert(below(tree, separator, before[0], key) == below(tree, separator, dir, key));
    }
    assert forall|i: int, key: Seq<char>|
        #![trigger below(tree, separator, dirs[i], key)]
        0 <= i < dirs.len() && below(tree, separator, dirs[i], key) implies !taken(
        next,
        found,
        key,
    ) by {
        assert(before[i + 1] == dirs[i]);
        assert(!taken(step, found, key));
    }
    assert forall|j: int, key: Seq<char>|
        #![trigger leads_to(tree, separator, entries[j], key)]
        0 <= j < entries.len() && leads_to(tree, separator, entries[j], key) implies !taken(
        next,
        found,
        key,
    ) by {
        lemma_below(tree, separator, dir, key);
        assert(below(tree, separator, before[0], key));
        assert(!taken(step, found, key));
    }
}

/// Taking an entry keeps a walk from finding anything twice.
proof fn lemma_entry_once<P, F: ListFilter>(
    rest: WalkRestView<P>,
    entries: Seq<EntryView<P>>,
    found: Seq<Seq<char>>,
    next: WalkStepView<P>,
    tree: Tree<P>,
    filter: F,
    separator: char,
)
    requires
        entries.len() > 0,
        rest.separator == separator,
        next == walk::after_entry(rest, &filter, Ok(Some(entries[0]))),
        !(next is Failed),
        once(WalkStepView::NextEntry { rest }, entries, found, tree, separator),
    ensures
        once(next, entries.skip(1), found, tree, separator),
{
    let step = WalkStepView::NextEntry { rest };
    let entry = entries[0];
    let others = entries.skip(1);
    let before = pending_dirs(step);
    let dirs = pending_dirs(next);
    assert forall|i: int| 0 <= i < others.len() implies #[trigger] others[i] == entries[i + 1] by {}
    assert(before.is_prefix_of(dirs)) by {
        assert(dirs.take(before.len() as int) =~= before);
    }
    assert forall|i: int| 0 <= i < before.len() implies #[trigger] dirs[i] == before[i] by {}
    assert forall|i: int| before.len() <= i < dirs.len() implies entry.kind is Directory
        && #[trigger] dirs[i] == entry.path by {}
    assert(apart(tree, separator, others)) by {
        assert forall|i: int, j: int, key: Seq<char>|
            #![trigger leads_to(tree, separator, others[i], key), leads_to(tree, separator, others[j], key)]
            0 <= i < j < others.len() implies !(leads_to(tree, separator, others[i], key)
            && leads_to(tree, separator, others[j], key)) by {
            assert(others[i] == entries[i + 1] && others[j] == entries[j + 1]);
        }
    }
    assert forall|i: int, j: int, key: Seq<char>|
        #![trigger below(tree, separator, dirs[i], key), below(tree, separator, dirs[j], key)]
        0 <= i < j < dirs.len() implies !(below(tree, separator, dirs[i], key) && below(
        tree,
        separator,
        dirs[j],
        key,
    )) by {
        assert(dirs[i] == before[i]);
        if j < before.len() {
            assert(dirs[j] == before[j]);
        } else {
            assert(leads_to(tree, separator, entries[0], key) == below(
                tree,
                separator,
                dirs[j],
                key,
            ));
        }
    }
    assert forall|i: int, j: int, key: Seq<char>|
        #![trigger below(tree, separator, dirs[i], key), leads_to(tree, separator, others[j], key)]
        0 <= i < dirs.len() && 0 <= j < others.len() implies !(below(
        tree,
        separator,
        dirs[i],
        key,
    ) && leads_to(tree, separator, others[j], key)) by {
        assert(others[j] == entries[j + 1]);
        if i < before.len() {
            assert(dirs[i] == before[i]);
        } else {
            assert(leads_to(tree, separator, entries[0], key) == below(
                tree,
                separator,
                dirs[i],
                key,
            ));
        }
    }
    assert forall|key: Seq<char>| #[trigger] taken(next, found, key) implies taken(
        step,
        found,
        key,
    ) || (entry.kind is File && leads_to(tree, separator, entries[0], key)) by {}
    assert forall|i: int, key: Seq<char>|
        #![trigger below(tree, separator, dirs[i], key)]
        0 <= i < dirs.len() && below(tree, separator, dirs[i], key) implies !taken(
        next,
        found,
        key,
    ) by {
        if i < before.len() {
            assert(dirs[i] == before[i]);
            assert(!taken(step, found, key));
        } else {
            assert(leads_to(tree, separator, entries[0], key));
            assert(!taken(step, found, key));
        }
    }
    assert forall|j: int, key: Seq<char>|
        #![trigger leads_to(tree, separator, others[j], key)]
        0 <= j < others.len() && leads_to(tree, separator, others[j], key) implies !taken(
        next,
        found,
        key,
    ) by {
        assert(others[j] == entries[j + 1]);
        assert(leads_to(tree, separator, entries[j + 1], key));
        assert(!taken(step, found, key));
    }
    if let WalkStepView::Found { key, .. } = next {
        assert(leads_to(tree, separator, entries[0], key));
        assert(!taken(step, found, key));
    }
}

/// A walk finds no file twice.
pub proof fn law_walk_finds_each_file_once<P, F: ListFilter>(
    tree: Tree<P>,
    start: P,
    separator: char,
    filter: F,
    fuel: nat,
)
    requires
        is_tree(tree, separator),
        run_walk(
            walk::next_dir(WalkRestView { queue: seq![start], separator }),
            seq![],
            seq![],
            tree,
            filter,
            fuel,
        ) is Some,
    ensures
        run_walk(
            walk::next_dir(WalkRestView { queue: seq![start], separator }),
            seq![],
            seq![],
            tree,
            filter,
            fuel,
        )->0.no_duplicates(),
{
    let rest = WalkRestView { queue: seq![start], separator };
    let step = walk::next_dir(rest);
    let none: Seq<EntryView<P>> = seq![];
    let nothing: Seq<Seq<char>> = seq![];
    assert(pending_dirs(step) =~= seq![start]);
    assert(once(step, none, nothing, tree, separator));
    lemma_run_walk_once(step, none, nothing, tree, filter, fuel, separator);
}

/// Whether a tree of directories shows the given files: every entry stands for a
/// file of the directory or for a directory on the way to one, and every file is
/// shown by an entry of each directory on the way to it. Paths of directories end
/// with the separator.
pub open spec fn shows(tree: Tree<Seq<char>>, root: Seq<char>, files: Contents) -> bool {
    &&& forall|dir: Seq<char>, i: int|
        #![trigger tree(dir)[i]]
        0 <= i < tree(dir).len() ==> match tree(dir)[i].kind {
            KindView::File(relative) => {
                &&& files.dom().contains(tree(dir)[i].path)
                &&& tree(dir)[i].path == root + relative
                &&& dir.is_prefix_of(tree(dir)[i].path)
            },
            KindView::Directory => dir.is_prefix_of(tree(dir)[i].path),
            KindView::Other => true,
            _ => false,
        }
    &&& forall|dir: Seq<char>, file: Seq<char>|
        #![trigger dir.is_prefix_of(file)]
        files.dom().contains(file) && root.is_prefix_of(dir) && dir.is_prefix_of(file) && dir.len()
            < file.len() ==> exists|i: int|
            0 <= i < tree(dir).len() && is_way_to(dir, file, #[trigger] tree(dir)[i])
}

/// Whether an entry of a directory is the given file, or the next directory on
/// the way to it.
pub open spec fn is_way_to(dir: Seq<char>, file: Seq<char>, entry: EntryView<Seq<char>>) -> bool {
    let rest = file.skip(dir.len() as int);
    let n = text::first_index(rest, KEY_SEPARATOR);
    if n == rest.len() {
        entry.kind is File && entry.path == file
    } else {
        entry.kind is Directory && entry.path == file.take(dir.len() + n + 1)
    }
}

/// What lies below a directory of the tree is a file below it.
proof fn lemma_below_is_file(
    tree: Tree<Seq<char>>,
    root: Seq<char>,
    files: Contents,
    dir: Seq<char>,
    key: Seq<char>,
    depth: nat,
)
    requires
        shows(tree, root, files),
        lies_below(tree, KEY_SEPARATOR, dir, key, depth),
    ensures
        files.dom().contains(root + key),
        dir.is_prefix_of(root + key),
    decreases depth,
{
    let i = choose|i: int|
        0 <= i < tree(dir).len() && (match (#[trigger] tree(dir)[i]).kind {
            KindView::File(relative) => walk::key_of_relative(relative, KEY_SEPARATOR) == key,
            KindView::Directory => lies_below(
                tree,
                KEY_SEPARATOR,
                tree(dir)[i].path,
                key,
                (depth - 1) as nat,
            ),
            _ => false,
        });
    let entry = tree(dir)[i];
    match entry.kind {
        KindView::File(relative) => {
            assert(walk::key_of_relative(relative, KEY_SEPARATOR) =~= relative);
        },
        KindView::Directory => {
            lemma_below_is_file(tree, root, files, entry.path, key, (depth - 1) as nat);
            let p = entry.path;
            let f = root + key;
            assert(dir =~= p.take(dir.len() as int));
            assert(dir =~= f.take(dir.len() as int)) by {
                assert(p =~= f.take(p.len() as int));
            }
        },
        _ => {},
    }
}

/// A file below a directory of the tree is found below it.
proof fn lemma_file_is_below(
    tree: Tree<Seq<char>>,
    root: Seq<char>,
    files: Contents,
    dir: Seq<char>,
    key: Seq<char>,
)
    requires
        shows(tree, root, files),
        files.dom().contains(root + key),
        root.is_prefix_of(dir),
        dir.is_prefix_of(root + key),
        dir.len() < (root + key).len(),
        (root + key).last() != KEY_SEPARATOR,
    ensures
        below(tree, KEY_SEPARATOR, dir, key),
    decreases (root + key).len() - dir.len(),
{
    let file = root + key;
    let rest = file.skip(dir.len() as int);
    let n = text::first_index(rest, KEY_SEPARATOR);
    text::lemma_first_index(rest, KEY_SEPARATOR);
    let i = choose|i: int| 0 <= i < tree(dir).len() && is_way_to(dir, file, #[trigger] tree(dir)[i]);
    let entry = tree(dir)[i];
    lemma_below(tree, KEY_SEPARATOR, dir, key);
    if n == rest.len() {
        let relative = entry.kind->File_0;
        law_paths_are_distinct(root, relative, key);
        assert(walk::key_of_relative(relative, KEY_SEPARATOR) =~= relative);
        assert(leads_to(tree, KEY_SEPARATOR, tree(dir)[i], key));
    } else {
        let sub = entry.path;
        assert(file[dir.len() + n] == KEY_SEPARATOR) by {
            assert(rest[n] == file[dir.len() + n]);
        }
        assert(sub.len() < file.len()) by {
            if sub.len() == file.len() {
                assert(file.last() == file[dir.len() + n]);
            }
        }
        assert(sub.is_prefix_of(file)) by {
            assert(file.take(sub.len() as int) =~= sub);
        }
        assert(root.is_prefix_of(sub)) by {
            assert(root =~= dir.take(root.len() as int));
            assert(root =~= sub.take(root.len() as int)) by {
                assert(dir =~= file.take(dir.len() as int));
            }
        }
        lemma_file_is_below(tree, root, files, sub, key);
        assert(leads_to(tree, KEY_SEPARATOR, tree(dir)[i], key));
    }
}

/// Every stored blob is listed, and nothing else: a walk from the directory that
/// the filter's hint leads to finds exactly the keys of the files below the root
/// that the filter selects, provided that the hint leaves out nothing that the
/// filter selects.
pub proof fn law_listing_shows_exactly_the_blobs<F: ListFilter>(
    tree: Tree<Seq<char>>,
    root: Seq<char>,
    files: Contents,
    filter: F,
    fuel: nat,
    key: Seq<char>,
)
    requires
        fs::normalised(root) == root,
        shows(tree, root, files),
        list_filter::hint_sound(&filter),
        forall|path: Seq<char>| #[trigger]
            files.dom().contains(path) ==> root.is_prefix_of(path) && validate::valid_blob_key(
                path.skip(root.len() as int),
            ),
        run_walk(
            walk::next_dir(
                WalkRestView {
                    queue: seq![fs::start_dir(root, filter.hint())],
                    separator: KEY_SEPARATOR,
                },
            ),
            seq![],
            seq![],
            tree,
            filter,
            fuel,
        ) is Some,
    ensures
        run_walk(
            walk::next_dir(
                WalkRestView {
                    queue: seq![fs::start_dir(root, filter.hint())],
                    separator: KEY_SEPARATOR,
                },
            ),
            seq![],
            seq![],
            tree,
            filter,
            fuel,
        )->0.contains(key) <==> filter.accepts(key, None) && blobs(root, files).dom().contains(key),
{
    let start = fs::start_dir(root, filter.hint());
    law_walk_finds_every_file(tree, start, KEY_SEPARATOR, filter, fuel, key);
    law_paths_are_distinct(root, key, key);
    let file = root + key;
    if below(tree, KEY_SEPARATOR, start, key) {
        let depth = choose|depth: nat| lies_below(tree, KEY_SEPARATOR, start, key, depth);
        lemma_below_is_file(tree, root, files, start, key, depth);
        assert(file.skip(root.len() as int) =~= key);
    }
    if filter.accepts(key, None) && blobs(root, files).dom().contains(key) {
        match filter.hint() {
            Some(h) => {
                law_start_dir_covers_hinted_keys(root, h, key);
                lemma_dir_part(root + h);
            },
            None => {
                assert(root.take(root.len() as int) =~= root);
            },
        }
        assert(key.len() > 0 && key.last() != KEY_SEPARATOR);
        assert(file.last() == key.last());
        if start.len() == file.len() {
            assert(start =~= file.take(start.len() as int));
            assert(start =~= file);
        }
        lemma_file_is_below(tree, root, files, start, key);
    }
}

} // verus!
