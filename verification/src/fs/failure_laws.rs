//! The laws of the file store about what the system answers, also where it fails.

use vstd::prelude::*;

use crate::batch;
use crate::error::ErrorView;
use crate::error::IoErrorKind;
use crate::error::IoFailure;
use crate::error::KeyErrorView;
use crate::fs;
use crate::fs::delete;
use crate::fs::delete::DeleteRestView;
use crate::fs::delete::DeleteStepView;
use crate::fs::get;
use crate::fs::get::ReadStepView;
use crate::fs::put;
use crate::fs::put::PutRestView;
use crate::fs::put::PutStepView;
use crate::fs::walk;
use crate::fs::walk::EntryView;
use crate::fs::walk::KindView;
use crate::fs::walk::WalkRestView;
use crate::fs::walk::WalkStepView;
use crate::fs::FileStat;
use crate::list_filter::ListFilter;
use crate::types::BlobInputView;
use crate::validate;

verus! {

/// No operation touches a file before the keys have been found valid and the root
/// directory has been looked at. Invalid keys and an unusable root are what the
/// operation ends with.
pub proof fn law_root_is_looked_at_first<D>(
    root: Seq<char>,
    blobs: Seq<BlobInputView<D>>,
    keys: Seq<Seq<char>>,
    key: Seq<char>,
)
    ensures
        match validate::validation_of_all(validate::blob_keys(blobs)) {
            Err(e) => put::begin(root, blobs) == PutStepView::<D>::Done(Err(e)),
            Ok(()) => put::begin(root, blobs) == (PutStepView::CheckRoot {
                rest: PutRestView { root, pending: blobs, metas: seq![] },
            }),
        },
        match validate::validation_of_all(keys) {
            Err(e) => delete::begin(root, keys) == DeleteStepView::Done(Err(e)),
            Ok(()) => delete::begin(root, keys) == (DeleteStepView::CheckRoot {
                rest: DeleteRestView { root, pending: keys, succeeded: seq![], errors: seq![] },
            }),
        },
        match validate::validation(key) {
            Err(e) => get::begin(root, key) == ReadStepView::Done(e),
            Ok(()) => get::begin(root, key) == (ReadStepView::CheckRoot {
                root,
                path: root + key,
                key,
            }),
        },
{
}

/// An unusable root ends every operation with the reason of it; a usable one lets it go
/// on with what it was asked for.
pub proof fn law_unusable_root_ends_the_operation<D>(
    put_rest: PutRestView<D>,
    delete_rest: DeleteRestView,
    path: Seq<char>,
    key: Seq<char>,
    reply: core::result::Result<bool, IoFailure>,
)
    requires
        put_rest.root == delete_rest.root,
    ensures
        match fs::root_check(put_rest.root, reply) {
            Err(e) => {
                &&& put::after_root(put_rest, reply) == PutStepView::<D>::Done(Err(e))
                &&& delete::after_root(delete_rest, reply) == DeleteStepView::Done(Err(e))
                &&& get::after_root(put_rest.root, path, key, reply) == ReadStepView::Done(e)
            },
            Ok(()) => {
                &&& put::after_root(put_rest, reply) == put::next_file(put_rest)
                &&& delete::after_root(delete_rest, reply) == delete::next_file(delete_rest)
                &&& get::after_root(put_rest.root, path, key, reply) == (ReadStepView::Look {
                    path,
                    key,
                })
            },
        },
{
}

/// A put writes its blobs one by one and in order, each with its own data to the file of
/// its key, after the directory of that file has been created. What it reports of a blob
/// is what the system tells of the written file. A file that cannot be written ends it
/// as a failure of that blob.
pub proof fn law_put_writes_its_blobs_in_order<D>(
    rest: PutRestView<D>,
    key: Seq<char>,
    stat: FileStat,
    failure: IoFailure,
)
    ensures
        rest.pending.len() == 0 ==> put::next_file(rest) == PutStepView::<D>::Done(Ok(rest.metas)),
        rest.pending.len() > 0 ==> {
            &&& put::next_file(rest) matches PutStepView::Write {
                dir,
                path,
                data,
                key: k,
                rest: later,
            }
            &&& path == rest.root + rest.pending[0].key
            &&& dir.is_prefix_of(path)
            &&& dir.len() > 0 ==> dir.last() == '/'
            &&& forall|i: int| dir.len() <= i < path.len() ==> #[trigger] path[i] != '/'
            &&& data == rest.pending[0].data
            &&& k == rest.pending[0].key
            &&& later.root == rest.root
            &&& later.metas == rest.metas
            &&& rest.pending == seq![rest.pending[0]] + later.pending
        },
        put::after_written(key, rest, Ok(stat)) == put::next_file(
            PutRestView {
                root: rest.root,
                pending: rest.pending,
                metas: rest.metas + seq![fs::stat_meta(key, stat)],
            },
        ),
        fs::stat_meta(key, stat).key == key,
        fs::stat_meta(key, stat).stored_size == stat.len,
        fs::stat_meta(key, stat).modified_at == fs::file_time(stat.modified),
        fs::stat_meta(key, stat).etag is None,
        put::after_written(key, rest, Err(failure)) == PutStepView::<D>::Done(
            Err(batch::ended_at(rest.metas, key, fs::per_key_failure(failure))),
        ),
{
    assert(rest.metas.push(fs::stat_meta(key, stat)) =~= rest.metas + seq![
        fs::stat_meta(key, stat),
    ]);
    if rest.pending.len() > 0 {
        fs::law_directory_of_a_path(rest.root + rest.pending[0].key);
        assert(rest.pending =~= seq![rest.pending[0]] + rest.pending.skip(1));
    }
}

/// A delete removes the files of its keys one by one and in order. A file that was
/// removed, or that was missing, counts as processed; any other failure is noted under
/// the key, and the delete goes on. It ends with a batch error exactly when something
/// was noted.
pub proof fn law_delete_goes_on_after_failures(
    rest: DeleteRestView,
    key: Seq<char>,
    reply: core::result::Result<(), IoFailure>,
)
    ensures
        rest.pending.len() > 0 ==> {
            &&& delete::next_file(rest) matches DeleteStepView::Remove {
                path,
                key: k,
                rest: later,
            }
            &&& path == rest.root + rest.pending[0]
            &&& k == rest.pending[0]
            &&& later.root == rest.root
            &&& later.succeeded == rest.succeeded
            &&& later.errors == rest.errors
            &&& rest.pending == seq![rest.pending[0]] + later.pending
        },
        rest.pending.len() == 0 && rest.errors.len() == 0 ==> delete::next_file(rest)
            == DeleteStepView::Done(Ok(())),
        rest.pending.len() == 0 && rest.errors.len() > 0 ==> (delete::next_file(
            rest,
        ) matches DeleteStepView::Done(Err(ErrorView::Batch(batch))) && batch.succeeded
            == rest.succeeded && batch.errors == rest.errors),
        delete::is_gone(reply) <==> reply is Ok || reply->Err_0.kind == IoErrorKind::NotFound,
        delete::is_gone(reply) ==> delete::after_removed(key, rest, reply) == delete::next_file(
            DeleteRestView {
                root: rest.root,
                pending: rest.pending,
                succeeded: rest.succeeded + seq![key],
                errors: rest.errors,
            },
        ),
        !delete::is_gone(reply) ==> delete::after_removed(key, rest, reply) == delete::next_file(
            DeleteRestView {
                root: rest.root,
                pending: rest.pending,
                succeeded: rest.succeeded,
                errors: rest.errors + seq![
                    KeyErrorView { key, error: fs::per_key_failure(reply->Err_0) },
                ],
            },
        ),
{
    assert(rest.succeeded.push(key) =~= rest.succeeded + seq![key]);
    let noted = KeyErrorView { key, error: fs::per_key_failure(reply->Err_0) };
    assert(rest.errors.push(noted) =~= rest.errors + seq![noted]);
    if rest.pending.len() > 0 {
        assert(rest.pending =~= seq![rest.pending[0]] + rest.pending.skip(1));
    }
}

/// A walk takes the directories in the order in which it came upon them. One that has
/// disappeared, or is no directory, is passed over. One that cannot be looked at, opened
/// or read to its end fails the walk with the cause of it.
pub proof fn law_walk_fails_where_a_directory_cannot_be_read<P, F: ListFilter>(
    dir: P,
    rest: WalkRestView<P>,
    filter: F,
    failure: IoFailure,
)
    ensures
        rest.queue.len() == 0 ==> walk::next_dir(rest) is Done,
        rest.queue.len() > 0 ==> {
            &&& walk::next_dir(rest) matches WalkStepView::CheckDir { dir: first, rest: later }
            &&& rest.queue == seq![first] + later.queue
            &&& later.separator == rest.separator
        },
        walk::after_stat(dir, rest, Ok(true)) == (WalkStepView::OpenDir { dir, rest }),
        walk::after_stat(dir, rest, Ok(false)) == walk::next_dir(rest),
        failure.kind == IoErrorKind::NotFound ==> walk::after_stat(dir, rest, Err(failure))
            == walk::next_dir(rest),
        failure.kind != IoErrorKind::NotFound ==> walk::after_stat(dir, rest, Err(failure))
            == WalkStepView::<P>::Failed(
            ErrorView::Storage { message: "I/O error"@, source: Some(failure.source_spec()) },
        ),
        walk::after_open(rest, Ok(())) == (WalkStepView::NextEntry { rest }),
        walk::after_open(rest, Err(failure)) == WalkStepView::<P>::Failed(
            ErrorView::Storage { message: "I/O error"@, source: Some(failure.source_spec()) },
        ),
        walk::after_entry(rest, &filter, Err(failure)) == WalkStepView::<P>::Failed(
            ErrorView::Storage { message: "I/O error"@, source: Some(failure.source_spec()) },
        ),
        walk::after_entry(rest, &filter, Ok(None)) == walk::next_dir(rest),
{
    if rest.queue.len() > 0 {
        assert(rest.queue =~= seq![rest.queue[0]] + rest.queue.skip(1));
    }
}

/// Of the entries of a directory a walk notes the directories for later and finds the
/// files that the filter selects by their key, which is their path below the root with
/// slashes for separators. It passes over everything else, but fails at a file whose
/// name is not valid UTF-8, and quotes it.
pub proof fn law_walk_treats_entries<P, F: ListFilter>(
    rest: WalkRestView<P>,
    filter: F,
    entry: EntryView<P>,
)
    ensures
        ({
            let step = walk::after_entry(rest, &filter, Ok(Some(entry)));
            match entry.kind {
                KindView::Directory => step matches WalkStepView::NextEntry { rest: later }
                    && later.queue == rest.queue + seq![entry.path] && later.separator
                    == rest.separator,
                KindView::File(relative) => {
                    let key = relative.map_values(
                        |c: char|
                            if c == rest.separator {
                                '/'
                            } else {
                                c
                            },
                    );
                    &&& filter.accepts(key, None) ==> step == (WalkStepView::Found {
                        key,
                        path: entry.path,
                        rest,
                    })
                    &&& !filter.accepts(key, None) ==> step == (WalkStepView::NextEntry { rest })
                },
                KindView::NotUtf8(shown) => step == WalkStepView::<P>::Failed(
                    ErrorView::InvalidInput("non-UTF-8 path: "@ + shown),
                ),
                _ => step == (WalkStepView::NextEntry { rest }),
            }
        }),
{
    assert(rest.queue.push(entry.path) =~= rest.queue + seq![entry.path]);
    match entry.kind {
        KindView::File(relative) => {
            let key = relative.map_values(
                |c: char|
                    if c == rest.separator {
                        '/'
                    } else {
                        c
                    },
            );
            assert(walk::key_of_relative(relative, rest.separator) =~= key);
        },
        _ => {},
    }
}

/// What was read of a directory is taken as it is.
pub proof fn law_entries_are_taken_as_they_are<P>(
    entry: walk::Entry<P>,
    failure: IoFailure,
)
    ensures
        walk::entry_reply_view(Ok::<Option<walk::Entry<P>>, IoFailure>(Some(entry))) == Ok::<
            Option<EntryView<P>>,
            IoFailure,
        >(Some(entry@)),
        walk::entry_reply_view(Ok::<Option<walk::Entry<P>>, IoFailure>(None)) == Ok::<
            Option<EntryView<P>>,
            IoFailure,
        >(None),
        walk::entry_reply_view(Err::<Option<walk::Entry<P>>, IoFailure>(failure)) == Err::<
            Option<EntryView<P>>,
            IoFailure,
        >(failure),
        entry@.path == entry.path,
        match entry.kind {
            walk::EntryKind::Directory => entry@.kind is Directory,
            walk::EntryKind::Other => entry@.kind is Other,
            walk::EntryKind::File(walk::Relative::Outside) => entry@.kind is Outside,
            walk::EntryKind::File(walk::Relative::NotUtf8(shown)) => entry@.kind
                == KindView::NotUtf8(shown@),
            walk::EntryKind::File(walk::Relative::Text(relative)) => entry@.kind == KindView::File(
                relative@,
            ),
        },
{
}

/// The steps of an operation ask for just what their mathematical values say.
pub proof fn law_steps_are_taken_as_they_are<D, P>(
    put: put::PutStep<D>,
    delete: delete::DeleteStep,
    get: get::ReadStep,
    walk: walk::WalkStep<P>,
)
    ensures
        match put {
            put::PutStep::CheckRoot { then } => put@ == (PutStepView::CheckRoot {
                rest: then.rest@,
            }),
            put::PutStep::Write { dir, path, data, then } => put@ == (PutStepView::Write {
                dir: dir@,
                path: path@,
                data,
                key: then.key@,
                rest: then.rest@,
            }),
            put::PutStep::Done(Ok(p)) => put@ == PutStepView::<D>::Done(Ok(p@)),
            put::PutStep::Done(Err(e)) => put@ == PutStepView::<D>::Done(Err(e@)),
        },
        match delete {
            delete::DeleteStep::CheckRoot { then } => delete@ == (DeleteStepView::CheckRoot {
                rest: then.rest@,
            }),
            delete::DeleteStep::Remove { path, then } => delete@ == (DeleteStepView::Remove {
                path: path@,
                key: then.key@,
                rest: then.rest@,
            }),
            delete::DeleteStep::Done(Ok(())) => delete@ == DeleteStepView::Done(Ok(())),
            delete::DeleteStep::Done(Err(e)) => delete@ == DeleteStepView::Done(Err(e@)),
        },
        match get {
            get::ReadStep::CheckRoot { then } => get@ == (ReadStepView::CheckRoot {
                root: then.root@,
                path: then.path@,
                key: then.key@,
            }),
            get::ReadStep::Look { path, then } => get@ == (ReadStepView::Look {
                path: path@,
                key: then.key@,
            }),
            get::ReadStep::Done(e) => get@ == ReadStepView::Done(e@),
        },
        match walk {
            walk::WalkStep::CheckDir(then) => walk@ == (WalkStepView::CheckDir {
                dir: then.dir,
                rest: then.rest@,
            }),
            walk::WalkStep::OpenDir(then) => walk@ == (WalkStepView::OpenDir {
                dir: then.dir,
                rest: then.rest@,
            }),
            walk::WalkStep::NextEntry(then) => walk@ == (WalkStepView::NextEntry {
                rest: then.rest@,
            }),
            walk::WalkStep::Found { key, path, then } => walk@ == (WalkStepView::Found {
                key: key@,
                path,
                rest: then.rest@,
            }),
            walk::WalkStep::Done => walk@ is Done,
            walk::WalkStep::Failed(e) => walk@ == WalkStepView::<P>::Failed(e@),
        },
{
}

} // verus!
