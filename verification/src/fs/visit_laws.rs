//! The laws of whole listings and visits of the file store: that they end, and
//! what they show.

use vstd::prelude::*;

use crate::blob_store;
use crate::blob_store::VisitStep;
use crate::error;
use crate::error::ErrorView;
use crate::fs;
use crate::fs::laws;
use crate::fs::laws::Tree;
use crate::fs::walk;
use crate::fs::walk::EntryView;
use crate::fs::walk::KindView;
use crate::fs::walk::WalkRestView;
use crate::fs::walk::WalkStepView;
use crate::fs::FileStat;
use crate::list_filter;
use crate::list_filter::ListFilter;
use crate::model::Contents;
use crate::order;
use crate::types::BlobMetaView;
use crate::types::KEY_SEPARATOR;
use crate::validate;

verus! {

/// Whether a directory has fewer than `depth` levels of directories below it, and
/// every file in them has a name in UTF-8.
pub open spec fn shallow<P>(tree: Tree<P>, dir: P, depth: nat) -> bool
    decreases depth,
{
    depth > 0 && forall|i: int|
        0 <= i < tree(dir).len() ==> match (#[trigger] tree(dir)[i]).kind {
            KindView::Directory => shallow(tree, tree(dir)[i].path, (depth - 1) as nat),
            KindView::NotUtf8(_) => false,
            _ => true,
        }
}

/// Whether the entries of a directory are such as in a shallow one.
spec fn shallow_entries<P>(tree: Tree<P>, entries: Seq<EntryView<P>>, depth: nat) -> bool {
    depth > 0 && forall|i: int|
        0 <= i < entries.len() ==> match (#[trigger] entries[i]).kind {
            KindView::Directory => shallow(tree, entries[i].path, (depth - 1) as nat),
            KindView::NotUtf8(_) => false,
            _ => true,
        }
}

/// A number of steps that suffices for a directory and all below it.
pub open spec fn dir_cost<P>(tree: Tree<P>, dir: P, depth: nat) -> nat
    decreases depth, 1nat, 0nat,
{
    if depth == 0 {
        0
    } else {
        3 + entries_cost(tree, tree(dir), depth)
    }
}

/// A number of steps that suffices for entries of a directory and all below them.
pub open spec fn entries_cost<P>(tree: Tree<P>, entries: Seq<EntryView<P>>, depth: nat) -> nat
    decreases depth, 0nat, entries.len(),
{
    if depth == 0 || entries.len() == 0 {
        0
    } else {
        let first: nat = if entries[0].kind is Directory {
            dir_cost(tree, entries[0].path, (depth - 1) as nat)
        } else {
            0
        };
        2 + first + entries_cost(tree, entries.skip(1), depth)
    }
}

/// A number of steps that suffices for directories, each of its own depth.
spec fn queue_cost<P>(tree: Tree<P>, queue: Seq<P>, depths: Seq<nat>) -> nat
    decreases queue.len(),
{
    if queue.len() == 0 {
        0
    } else {
        dir_cost(tree, queue[0], depths[0]) + queue_cost(tree, queue.skip(1), depths.skip(1))
    }
}

/// One more directory adds its steps.
proof fn lemma_queue_push<P>(tree: Tree<P>, queue: Seq<P>, depths: Seq<nat>, dir: P, depth: nat)
    requires
        queue.len() == depths.len(),
    ensures
        queue_cost(tree, queue.push(dir), depths.push(depth)) == queue_cost(tree, queue, depths)
            + dir_cost(tree, dir, depth),
    decreases queue.len(),
{
    reveal_with_fuel(queue_cost, 2);
    if queue.len() > 0 {
        lemma_queue_push(tree, queue.skip(1), depths.skip(1), dir, depth);
        assert(queue.push(dir).skip(1) =~= queue.skip(1).push(dir));
        assert(depths.push(depth).skip(1) =~= depths.skip(1).push(depth));
    }
}

/// Whether every directory is shallow, each to its own depth.
spec fn all_shallow<P>(tree: Tree<P>, queue: Seq<P>, depths: Seq<nat>) -> bool {
    &&& queue.len() == depths.len()
    &&& forall|i: int| 0 <= i < queue.len() ==> shallow(tree, #[trigger] queue[i], depths[i])
}

/// A walk in a shallow tree ends. `depth` is that of the directory under way,
/// `depths` are those of the directories to come.
proof fn lemma_walk_ends<P, F: ListFilter>(
    step: WalkStepView<P>,
    entries: Seq<EntryView<P>>,
    depth: nat,
    depths: Seq<nat>,
    found: Seq<Seq<char>>,
    tree: Tree<P>,
    filter: F,
    fuel: nat,
)
    requires
        match step {
            WalkStepView::CheckDir { dir, rest } => {
                &&& shallow(tree, dir, depth)
                &&& all_shallow(tree, rest.queue, depths)
                &&& fuel > dir_cost(tree, dir, depth) + queue_cost(tree, rest.queue, depths)
            },
            WalkStepView::OpenDir { dir, rest } => {
                &&& shallow(tree, dir, depth)
                &&& all_shallow(tree, rest.queue, depths)
                &&& fuel >= dir_cost(tree, dir, depth) + queue_cost(tree, rest.queue, depths)
            },
            WalkStepView::NextEntry { rest } => {
                &&& shallow_entries(tree, entries, depth)
                &&& all_shallow(tree, rest.queue, depths)
                &&& fuel > 1 + entries_cost(tree, entries, depth) + queue_cost(
                    tree,
                    rest.queue,
                    depths,
                )
            },
            WalkStepView::Found { rest, .. } => {
                &&& shallow_entries(tree, entries, depth)
                &&& all_shallow(tree, rest.queue, depths)
                &&& fuel > 2 + entries_cost(tree, entries, depth) + queue_cost(
                    tree,
                    rest.queue,
                    depths,
                )
            },
            WalkStepView::Done => fuel > 0,
            WalkStepView::Failed(_) => false,
        },
    ensures
        laws::run_walk(step, entries, found, tree, filter, fuel) is Some,
    decreases fuel,
{
    let left = (fuel - 1) as nat;
    match step {
        WalkStepView::CheckDir { dir, rest } => {
            let next = walk::after_stat(dir, rest, Ok(true));
            lemma_walk_ends(next, seq![], depth, depths, found, tree, filter, left);
        },
        WalkStepView::OpenDir { dir, rest } => {
            let next = walk::after_open(rest, Ok(()));
            lemma_walk_ends(next, tree(dir), depth, depths, found, tree, filter, left);
        },
        WalkStepView::NextEntry { rest } => if entries.len() == 0 {
            let next = walk::next_dir(rest);
            if rest.queue.len() > 0 {
                let later = rest.queue.skip(1);
                assert forall|i: int| 0 <= i < later.len() implies shallow(
                    tree,
                    #[trigger] later[i],
                    depths.skip(1)[i],
                ) by {
                    assert(later[i] == rest.queue[i + 1]);
                }
                assert(shallow(tree, rest.queue[0], depths[0]));
                lemma_walk_ends(
                    next,
                    seq![],
                    depths[0],
                    depths.skip(1),
                    found,
                    tree,
                    filter,
                    left,
                );
            } else {
                lemma_walk_ends(next, seq![], depth, depths, found, tree, filter, left);
            }
        } else {
            let entry = entries[0];
            let later = entries.skip(1);
            let next = walk::after_entry(rest, &filter, Ok(Some(entry)));
            assert forall|i: int| 0 <= i < later.len() implies match (#[trigger] later[i]).kind {
                KindView::Directory => shallow(tree, later[i].path, (depth - 1) as nat),
                KindView::NotUtf8(_) => false,
                _ => true,
            } by {
                assert(later[i] == entries[i + 1]);
            }
            if entry.kind is Directory {
                let below = (depth - 1) as nat;
                lemma_queue_push(tree, rest.queue, depths, entry.path, below);
                let queue = rest.queue.push(entry.path);
                let deeper = depths.push(below);
                assert forall|i: int| 0 <= i < queue.len() implies shallow(
                    tree,
                    #[trigger] queue[i],
                    deeper[i],
                ) by {
                    if i < rest.queue.len() {
                        assert(queue[i] == rest.queue[i]);
                    }
                }
                lemma_walk_ends(next, later, depth, deeper, found, tree, filter, left);
            } else {
                lemma_walk_ends(next, later, depth, depths, found, tree, filter, left);
            }
        },
        WalkStepView::Found { key, rest, .. } => {
            let next = WalkStepView::NextEntry { rest };
            lemma_walk_ends(next, entries, depth, depths, found.push(key), tree, filter, left);
        },
        _ => {},
    }
}

/// A walk ends in every finite tree of directories whose files have names in
/// UTF-8.
pub proof fn law_walk_ends<P, F: ListFilter>(
    tree: Tree<P>,
    start: P,
    separator: char,
    filter: F,
    depth: nat,
)
    requires
        shallow(tree, start, depth),
    ensures
        exists|fuel: nat| #[trigger]
            laws::run_walk(
                walk::next_dir(WalkRestView { queue: seq![start], separator }),
                seq![],
                seq![],
                tree,
                filter,
                fuel,
            ) is Some,
{
    let rest = WalkRestView { queue: seq![start], separator };
    let step = walk::next_dir(rest);
    let fuel = dir_cost(tree, start, depth) + 1;
    assert(rest.queue.skip(1) =~= seq![]);
    lemma_walk_ends(step, seq![], depth, seq![], seq![], tree, filter, fuel);
}

/// The keys and files that a walk has found once it has run to its end; `None`
/// where it takes more than `fuel` steps or fails. `entries` are those that are
/// left of the open directory.
pub open spec fn run_files<P, F: ListFilter>(
    step: WalkStepView<P>,
    entries: Seq<EntryView<P>>,
    found: Seq<(Seq<char>, P)>,
    tree: Tree<P>,
    filter: F,
    fuel: nat,
) -> Option<Seq<(Seq<char>, P)>>
    decreases fuel,
{
    if fuel == 0 {
        None
    } else {
        let left = (fuel - 1) as nat;
        match step {
            WalkStepView::CheckDir { dir, rest } => run_files(
                walk::after_stat(dir, rest, Ok(true)),
                seq![],
                found,
                tree,
                filter,
                left,
            ),
            WalkStepView::OpenDir { dir, rest } => run_files(
                walk::after_open(rest, Ok(())),
                tree(dir),
                found,
                tree,
                filter,
                left,
            ),
            WalkStepView::NextEntry { rest } => run_files(
                walk::after_entry(rest, &filter, Ok(next_entry(entries))),
                other_entries(entries),
                found,
                tree,
                filter,
                left,
            ),
            WalkStepView::Found { key, path, rest } => run_files(
                WalkStepView::NextEntry { rest },
                entries,
                found.push((key, path)),
                tree,
                filter,
                left,
            ),
            WalkStepView::Done => Some(found),
            WalkStepView::Failed(_) => None,
        }
    }
}

/// What reading an entry of a directory gives: the first of those that are left.
pub open spec fn next_entry<P>(entries: Seq<EntryView<P>>) -> Option<EntryView<P>> {
    if entries.len() == 0 {
        None
    } else {
        Some(entries[0])
    }
}

/// The entries of a directory that are left when one has been read.
pub open spec fn other_entries<P>(entries: Seq<EntryView<P>>) -> Seq<EntryView<P>> {
    if entries.len() == 0 {
        seq![]
    } else {
        entries.skip(1)
    }
}

/// The keys of found files.
pub open spec fn file_keys<P>(files: Seq<(Seq<char>, P)>) -> Seq<Seq<char>> {
    files.map_values(|f: (Seq<char>, P)| f.0)
}

/// The keys of the files that a walk finds are the keys that it finds, and what
/// was found before stays in front.
proof fn lemma_run_files<P, F: ListFilter>(
    step: WalkStepView<P>,
    entries: Seq<EntryView<P>>,
    found: Seq<(Seq<char>, P)>,
    tree: Tree<P>,
    filter: F,
    fuel: nat,
)
    ensures
        match run_files(step, entries, found, tree, filter, fuel) {
            Some(all) => {
                &&& laws::run_walk(step, entries, file_keys(found), tree, filter, fuel) == Some(
                    file_keys(all),
                )
                &&& found.is_prefix_of(all)
            },
            None => laws::run_walk(
                step,
                entries,
                file_keys(found),
                tree,
                filter,
                fuel,
            ) is None,
        },
    decreases fuel,
{
    if fuel > 0 {
        let left = (fuel - 1) as nat;
        match step {
            WalkStepView::CheckDir { dir, rest } => {
                lemma_run_files(
                    walk::after_stat(dir, rest, Ok(true)),
                    seq![],
                    found,
                    tree,
                    filter,
                    left,
                );
            },
            WalkStepView::OpenDir { dir, rest } => {
                lemma_run_files(
                    walk::after_open(rest, Ok(())),
                    tree(dir),
                    found,
                    tree,
                    filter,
                    left,
                );
            },
            WalkStepView::NextEntry { rest } => {
                lemma_run_files(
                    walk::after_entry(rest, &filter, Ok(next_entry(entries))),
                    other_entries(entries),
                    found,
                    tree,
                    filter,
                    left,
                );
            },
            WalkStepView::Found { key, path, rest } => {
                let longer = found.push((key, path));
                let next = WalkStepView::NextEntry { rest };
                lemma_run_files(next, entries, longer, tree, filter, left);
                assert(file_keys(longer) =~= file_keys(found).push(key));
                if let Some(all) = run_files(next, entries, longer, tree, filter, left) {
                    assert(longer =~= all.take(longer.len() as int));
                    assert(found =~= all.take(found.len() as int));
                }
            },
            WalkStepView::Done => {
                assert(found =~= found.take(found.len() as int));
            },
            WalkStepView::Failed(_) => {},
        }
    }
}

/// What a visit shows of a file: the key, and the metadata of the file.
pub open spec fn call_for<P>(file: (Seq<char>, P), stats: spec_fn(P) -> FileStat) -> (
    Seq<char>,
    BlobMetaView,
) {
    (file.0, fs::stat_meta(file.0, stats(file.1)))
}

/// What a visit shows of files.
pub open spec fn calls_for<P>(
    files: Seq<(Seq<char>, P)>,
    stats: spec_fn(P) -> FileStat,
) -> Seq<(Seq<char>, BlobMetaView)> {
    files.map_values(|f: (Seq<char>, P)| call_for(f, stats))
}

/// What a visit has shown, and its result, once it has run to its end; `None`
/// where it takes more than `fuel` steps. The system tells `stats` of the files,
/// and the visitor answers the `i`-th file with `replies(i)`.
pub open spec fn run_visit<P, F: ListFilter>(
    step: WalkStepView<P>,
    entries: Seq<EntryView<P>>,
    shown: Seq<(Seq<char>, BlobMetaView)>,
    tree: Tree<P>,
    stats: spec_fn(P) -> FileStat,
    filter: F,
    replies: spec_fn(int) -> bool,
    fuel: nat,
) -> Option<(Seq<(Seq<char>, BlobMetaView)>, core::result::Result<(), ErrorView>)>
    decreases fuel,
{
    if fuel == 0 {
        None
    } else {
        let left = (fuel - 1) as nat;
        match step {
            WalkStepView::CheckDir { dir, rest } => run_visit(
                walk::after_stat(dir, rest, Ok(true)),
                seq![],
                shown,
                tree,
                stats,
                filter,
                replies,
                left,
            ),
            WalkStepView::OpenDir { dir, rest } => run_visit(
                walk::after_open(rest, Ok(())),
                tree(dir),
                shown,
                tree,
                stats,
                filter,
                replies,
                left,
            ),
            WalkStepView::NextEntry { rest } => run_visit(
                walk::after_entry(rest, &filter, Ok(next_entry(entries))),
                other_entries(entries),
                shown,
                tree,
                stats,
                filter,
                replies,
                left,
            ),
            WalkStepView::Found { key, path, rest } => match fs::listed_file_check(
                key,
                Ok(stats(path)),
            ) {
                Err(e) => Some((shown, Err(e))),
                Ok(meta) => {
                    let after = shown.push((key, meta));
                    match blob_store::visit_outcome(Ok(replies(shown.len() as int))) {
                        VisitStep::GoOn => run_visit(
                            WalkStepView::NextEntry { rest },
                            entries,
                            after,
                            tree,
                            stats,
                            filter,
                            replies,
                            left,
                        ),
                        VisitStep::Stop(result) => Some((after, error::result_view(result))),
                    }
                },
            },
            WalkStepView::Done => Some((shown, Ok(()))),
            WalkStepView::Failed(e) => Some((shown, Err(e))),
        }
    }
}

/// A visit shows the files that a walk finds.
proof fn lemma_run_visit<P, F: ListFilter>(
    step: WalkStepView<P>,
    entries: Seq<EntryView<P>>,
    files: Seq<(Seq<char>, P)>,
    tree: Tree<P>,
    stats: spec_fn(P) -> FileStat,
    filter: F,
    replies: spec_fn(int) -> bool,
    fuel: nat,
)
    requires
        run_files(step, entries, files, tree, filter, fuel) is Some,
        forall|i: int| 0 <= i < files.len() ==> #[trigger] replies(i),
    ensures
        ({
            let all = run_files(step, entries, files, tree, filter, fuel)->0;
            let run = run_visit(
                step,
                entries,
                calls_for(files, stats),
                tree,
                stats,
                filter,
                replies,
                fuel,
            );
            &&& run matches Some((shown, result))
            &&& result == Ok::<(), ErrorView>(())
            &&& blob_store::is_visit_of(shown, calls_for(all, stats), replies)
        }),
    decreases fuel,
{
    let left = (fuel - 1) as nat;
    match step {
        WalkStepView::CheckDir { dir, rest } => {
            let next = walk::after_stat(dir, rest, Ok(true));
            lemma_run_visit(next, seq![], files, tree, stats, filter, replies, left);
        },
        WalkStepView::OpenDir { dir, rest } => {
            let next = walk::after_open(rest, Ok(()));
            lemma_run_visit(next, tree(dir), files, tree, stats, filter, replies, left);
        },
        WalkStepView::NextEntry { rest } => {
            let next = walk::after_entry(rest, &filter, Ok(next_entry(entries)));
            let others = other_entries(entries);
            lemma_run_visit(next, others, files, tree, stats, filter, replies, left);
        },
        WalkStepView::Found { key, path, rest } => {
            let longer = files.push((key, path));
            let next = WalkStepView::NextEntry { rest };
            let shown = calls_for(files, stats).push((key, fs::stat_meta(key, stats(path))));
            assert(calls_for(longer, stats) =~= shown);
            if replies(files.len() as int) {
                lemma_run_visit(next, entries, longer, tree, stats, filter, replies, left);
            } else {
                lemma_run_files(next, entries, longer, tree, filter, left);
                let all = run_files(next, entries, longer, tree, filter, left)->0;
                assert(longer =~= all.take(longer.len() as int));
                assert(shown =~= calls_for(all, stats).take(shown.len() as int));
            }
        },
        WalkStepView::Done => {
            let shown = calls_for(files, stats);
            assert(shown =~= shown.take(shown.len() as int));
        },
        WalkStepView::Failed(_) => {},
    }
}

/// A visit succeeds and shows the files that a walk finds, one after the other,
/// each with its metadata: all of them to a visitor that never stops, and up to
/// and with the first one that is answered with `false` otherwise. Where no file
/// is found twice, none is shown twice.
pub proof fn law_visit_shows_what_is_found<P, F: ListFilter>(
    tree: Tree<P>,
    start: P,
    separator: char,
    stats: spec_fn(P) -> FileStat,
    filter: F,
    replies: spec_fn(int) -> bool,
    fuel: nat,
)
    requires
        laws::run_walk(
            walk::next_dir(WalkRestView { queue: seq![start], separator }),
            seq![],
            seq![],
            tree,
            filter,
            fuel,
        ) is Some,
    ensures
        ({
            let step = walk::next_dir(WalkRestView { queue: seq![start], separator });
            let keys = laws::run_walk(step, seq![], seq![], tree, filter, fuel)->0;
            let files = run_files(step, seq![], seq![], tree, filter, fuel)->0;
            let run = run_visit(step, seq![], seq![], tree, stats, filter, replies, fuel);
            &&& run matches Some((shown, result))
            &&& result == Ok::<(), ErrorView>(())
            &&& run_files(step, seq![], seq![], tree, filter, fuel) is Some
            &&& file_keys(files) == keys
            &&& blob_store::is_visit_of(shown, calls_for(files, stats), replies)
            &&& (forall|i: int| 0 <= i < files.len() ==> #[trigger] replies(i)) ==> shown
                == calls_for(files, stats)
            &&& keys.no_duplicates() ==> file_keys(shown).no_duplicates()
        }),
{
    let step = walk::next_dir(WalkRestView { queue: seq![start], separator });
    let none: Seq<(Seq<char>, P)> = seq![];
    let nothing: Seq<(Seq<char>, BlobMetaView)> = seq![];
    lemma_run_files(step, seq![], none, tree, filter, fuel);
    assert(file_keys(none) =~= seq![]);
    lemma_run_visit(step, seq![], none, tree, stats, filter, replies, fuel);
    assert(calls_for(none, stats) =~= nothing);
    let files = run_files(step, seq![], none, tree, filter, fuel)->0;
    let (shown, _) = run_visit(step, seq![], nothing, tree, stats, filter, replies, fuel)->0;
    let all = calls_for(files, stats);
    assert(shown =~= all.take(shown.len() as int));
    if forall|i: int| 0 <= i < files.len() ==> #[trigger] replies(i) {
        assert(shown.len() == all.len());
        assert(shown =~= all);
    }
    if file_keys(files).no_duplicates() {
        assert forall|i: int, j: int|
            0 <= i < shown.len() && 0 <= j < shown.len() && i != j implies file_keys(shown)[i]
            != file_keys(shown)[j] by {
            assert(file_keys(shown)[i] == file_keys(files)[i]);
            assert(file_keys(shown)[j] == file_keys(files)[j]);
        }
    }
}

/// A listing with metadata, which collects the metadata of the files that a walk
/// finds, has the keys of the listing, in the same order.
pub proof fn law_metadata_listing_has_the_keys<P, F: ListFilter>(
    tree: Tree<P>,
    start: P,
    separator: char,
    stats: spec_fn(P) -> FileStat,
    filter: F,
    fuel: nat,
    keys: Seq<Seq<char>>,
    metas: Seq<BlobMetaView>,
)
    requires
        laws::run_walk(
            walk::next_dir(WalkRestView { queue: seq![start], separator }),
            seq![],
            seq![],
            tree,
            filter,
            fuel,
        ) is Some,
        order::is_sort_of(
            keys,
            laws::run_walk(
                walk::next_dir(WalkRestView { queue: seq![start], separator }),
                seq![],
                seq![],
                tree,
                filter,
                fuel,
            )->0,
        ),
        order::is_meta_sort_of(
            metas,
            shown_metas(
                run_visit(
                    walk::next_dir(WalkRestView { queue: seq![start], separator }),
                    seq![],
                    seq![],
                    tree,
                    stats,
                    filter,
                    |i: int| true,
                    fuel,
                ),
            ),
        ),
    ensures
        order::keys_of(metas) == keys,
{
    let step = walk::next_dir(WalkRestView { queue: seq![start], separator });
    let always = |i: int| true;
    law_visit_shows_what_is_found(tree, start, separator, stats, filter, always, fuel);
    let found = laws::run_walk(step, seq![], seq![], tree, filter, fuel)->0;
    let files = run_files(step, seq![], seq![], tree, filter, fuel)->0;
    let run = run_visit(step, seq![], seq![], tree, stats, filter, always, fuel);
    assert(shown_metas(run) =~= calls_for(files, stats).map_values(
        |c: (Seq<char>, BlobMetaView)| c.1,
    ));
    assert(order::keys_of(shown_metas(run)) =~= found) by {
        assert forall|i: int| 0 <= i < files.len() implies order::keys_of(shown_metas(run))[i]
            == found[i] by {
            assert(found[i] == file_keys(files)[i]);
        }
    }
    order::law_metadata_listing_has_the_keys(keys, found, metas, shown_metas(run));
}

/// The metadata that a visit has shown.
pub open spec fn shown_metas(
    run: Option<(Seq<(Seq<char>, BlobMetaView)>, core::result::Result<(), ErrorView>)>,
) -> Seq<BlobMetaView> {
    match run {
        Some((shown, _)) => shown.map_values(|c: (Seq<char>, BlobMetaView)| c.1),
        None => seq![],
    }
}

/// Whether every file among the entries is one of the given files, under its own
/// path.
spec fn true_entries(
    entries: Seq<EntryView<Seq<char>>>,
    root: Seq<char>,
    files: Contents,
) -> bool {
    forall|i: int|
        0 <= i < entries.len() ==> ((#[trigger] entries[i]).kind matches KindView::File(relative)
            ==> entries[i].path == root + relative && files.dom().contains(entries[i].path))
}

/// Whether every key was found in its own file, one of the given files.
spec fn true_files(
    found: Seq<(Seq<char>, Seq<char>)>,
    root: Seq<char>,
    files: Contents,
) -> bool {
    forall|i: int|
        0 <= i < found.len() ==> (#[trigger] found[i]).1 == root + found[i].0
            && files.dom().contains(found[i].1)
}

/// What a walk finds through a tree that shows the given files is those files.
proof fn lemma_found_files<F: ListFilter>(
    step: WalkStepView<Seq<char>>,
    entries: Seq<EntryView<Seq<char>>>,
    found: Seq<(Seq<char>, Seq<char>)>,
    tree: Tree<Seq<char>>,
    filter: F,
    root: Seq<char>,
    files: Contents,
    fuel: nat,
)
    requires
        run_files(step, entries, found, tree, filter, fuel) is Some,
        laws::shows(tree, root, files),
        laws::step_separator(step) matches Some(s) ==> s == KEY_SEPARATOR,
        true_entries(entries, root, files),
        true_files(found, root, files),
        step matches WalkStepView::Found { key, path, .. } ==> path == root + key
            && files.dom().contains(path),
    ensures
        true_files(run_files(step, entries, found, tree, filter, fuel)->0, root, files),
    decreases fuel,
{
    let left = (fuel - 1) as nat;
    match step {
        WalkStepView::CheckDir { dir, rest } => {
            let next = walk::after_stat(dir, rest, Ok(true));
            lemma_found_files(next, seq![], found, tree, filter, root, files, left);
        },
        WalkStepView::OpenDir { dir, rest } => {
            let next = walk::after_open(rest, Ok(()));
            assert(true_entries(tree(dir), root, files));
            lemma_found_files(next, tree(dir), found, tree, filter, root, files, left);
        },
        WalkStepView::NextEntry { rest } => {
            let next = walk::after_entry(rest, &filter, Ok(next_entry(entries)));
            let others = other_entries(entries);
            assert forall|i: int| 0 <= i < others.len() implies ((#[trigger] others[i]).kind matches
            KindView::File(relative) ==> others[i].path == root + relative
                && files.dom().contains(others[i].path)) by {
                assert(others[i] == entries[i + 1]);
            }
            if entries.len() > 0 {
                if let KindView::File(relative) = entries[0].kind {
                    assert(walk::key_of_relative(relative, KEY_SEPARATOR) =~= relative);
                }
            }
            lemma_found_files(next, others, found, tree, filter, root, files, left);
        },
        WalkStepView::Found { key, path, rest } => {
            let longer = found.push((key, path));
            let next = WalkStepView::NextEntry { rest };
            lemma_found_files(next, entries, longer, tree, filter, root, files, left);
        },
        _ => {},
    }
}

/// The step with which a listing or visit on a usable root begins.
pub open spec fn first_step<F: ListFilter>(root: Seq<char>, filter: F) -> WalkStepView<Seq<char>> {
    walk::next_dir(
        WalkRestView {
            queue: seq![fs::start_dir(root, filter.hint())],
            separator: KEY_SEPARATOR,
        },
    )
}

/// A visit with a usable hint succeeds and shows stored blobs only, none of them
/// twice, each with its key, the length of its file and no tag. To a visitor that
/// never stops it shows exactly the keys of the listing, each once, in some order.
/// Otherwise it ends with the first blob that is answered with `false`. The hint
/// must leave out nothing that the filter selects.
pub proof fn law_visit_shows_each_listed_blob_once<F: ListFilter>(
    tree: Tree<Seq<char>>,
    root: Seq<char>,
    files: Contents,
    stats: spec_fn(Seq<char>) -> FileStat,
    filter: F,
    replies: spec_fn(int) -> bool,
    fuel: nat,
    listed: Seq<Seq<char>>,
)
    requires
        fs::normalised(root) == root,
        laws::shows(tree, root, files),
        laws::is_tree(tree, KEY_SEPARATOR),
        list_filter::hint_sound(&filter),
        filter.hint() matches Some(h) ==> fs::prefix_hint_error(h) is None,
        forall|path: Seq<char>| #[trigger]
            files.dom().contains(path) ==> root.is_prefix_of(path) && validate::valid_blob_key(
                path.skip(root.len() as int),
            ) && stats(path).len == files[path].len(),
        laws::run_walk(first_step(root, filter), seq![], seq![], tree, filter, fuel) is Some,
        order::is_sort_of(
            listed,
            laws::run_walk(first_step(root, filter), seq![], seq![], tree, filter, fuel)->0,
        ),
    ensures
        ({
            let run = run_visit(
                first_step(root, filter),
                seq![],
                seq![],
                tree,
                stats,
                filter,
                replies,
                fuel,
            );
            &&& run matches Some((shown, result))
            &&& result == Ok::<(), ErrorView>(())
            &&& file_keys(shown).no_duplicates()
            &&& forall|i: int|
                0 <= i < shown.len() ==> {
                    let (key, meta) = #[trigger] shown[i];
                    let blobs = laws::blobs(root, files);
                    &&& listed.contains(key)
                    &&& filter.accepts(key, None)
                    &&& blobs.dom().contains(key)
                    &&& meta.key == key
                    &&& meta.stored_size == blobs[key].len()
                    &&& meta.etag is None
                }
            &&& (forall|i: int| 0 <= i < listed.len() ==> #[trigger] replies(i))
                ==> order::is_sort_of(listed, file_keys(shown))
            &&& forall|i: int| 0 <= i < shown.len() - 1 ==> #[trigger] replies(i)
            &&& shown.len() < listed.len() ==> shown.len() > 0 && !replies(shown.len() - 1)
            &&& shown.len() <= listed.len()
        }),
{
    broadcast use vstd::seq_lib::group_to_multiset_ensures;

    let step = first_step(root, filter);
    let start = fs::start_dir(root, filter.hint());
    let none: Seq<(Seq<char>, Seq<char>)> = seq![];
    let nothing: Seq<(Seq<char>, BlobMetaView)> = seq![];
    law_visit_shows_what_is_found(tree, start, KEY_SEPARATOR, stats, filter, replies, fuel);
    laws::law_walk_finds_each_file_once(tree, start, KEY_SEPARATOR, filter, fuel);
    lemma_found_files(step, seq![], none, tree, filter, root, files, fuel);
    let keys = laws::run_walk(step, seq![], seq![], tree, filter, fuel)->0;
    let found = run_files(step, seq![], none, tree, filter, fuel)->0;
    let (shown, _) = run_visit(step, seq![], nothing, tree, stats, filter, replies, fuel)->0;
    let all = calls_for(found, stats);
    assert(keys.len() == found.len());
    assert(listed.len() == listed.to_multiset().len());
    assert(keys.len() == keys.to_multiset().len());
    assert(shown =~= all.take(shown.len() as int));
    assert forall|i: int| 0 <= i < shown.len() implies {
        let (key, meta) = #[trigger] shown[i];
        let blobs = laws::blobs(root, files);
        &&& listed.contains(key)
        &&& filter.accepts(key, None)
        &&& blobs.dom().contains(key)
        &&& meta.key == key
        &&& meta.stored_size == blobs[key].len()
        &&& meta.etag is None
    } by {
        let key = shown[i].0;
        assert(shown[i] == call_for(found[i], stats));
        assert(keys[i] == file_keys(found)[i]);
        assert(keys.contains(key));
        assert(keys.to_multiset().count(key) > 0);
        assert(listed.to_multiset().count(key) > 0);
        laws::law_listing_shows_exactly_the_blobs(tree, root, files, filter, fuel, key);
        assert(files.dom().contains(found[i].1));
    }
    if forall|i: int| 0 <= i < listed.len() ==> #[trigger] replies(i) {
        assert(file_keys(shown) =~= keys) by {
            assert forall|i: int| 0 <= i < shown.len() implies file_keys(shown)[i] == keys[i] by {
                assert(shown[i] == call_for(found[i], stats));
                assert(keys[i] == file_keys(found)[i]);
            }
        }
    }
}

/// In every finite tree of directories that shows the given files, a listing ends
/// and finds every stored blob that the filter selects, none of them twice, and
/// nothing else.
pub proof fn law_listing_ends_with_exactly_the_blobs<F: ListFilter>(
    tree: Tree<Seq<char>>,
    root: Seq<char>,
    files: Contents,
    filter: F,
    depth: nat,
)
    requires
        fs::normalised(root) == root,
        laws::shows(tree, root, files),
        laws::is_tree(tree, KEY_SEPARATOR),
        shallow(tree, fs::start_dir(root, filter.hint()), depth),
        list_filter::hint_sound(&filter),
        forall|path: Seq<char>| #[trigger]
            files.dom().contains(path) ==> root.is_prefix_of(path) && validate::valid_blob_key(
                path.skip(root.len() as int),
            ),
    ensures
        exists|fuel: nat|
            {
                &&& #[trigger] laws::run_walk(
                    first_step(root, filter),
                    seq![],
                    seq![],
                    tree,
                    filter,
                    fuel,
                ) matches Some(keys)
                &&& keys.no_duplicates()
                &&& forall|key: Seq<char>| #[trigger]
                    keys.contains(key) <==> filter.accepts(key, None) && laws::blobs(
                        root,
                        files,
                    ).dom().contains(key)
            },
{
    let start = fs::start_dir(root, filter.hint());
    let step = first_step(root, filter);
    law_walk_ends(tree, start, KEY_SEPARATOR, filter, depth);
    let fuel = choose|fuel: nat| #[trigger]
        laws::run_walk(
            walk::next_dir(WalkRestView { queue: seq![start], separator: KEY_SEPARATOR }),
            seq![],
            seq![],
            tree,
            filter,
            fuel,
        ) is Some;
    laws::law_walk_finds_each_file_once(tree, start, KEY_SEPARATOR, filter, fuel);
    let keys = laws::run_walk(step, seq![], seq![], tree, filter, fuel)->0;
    assert forall|key: Seq<char>| #[trigger] keys.contains(key) <==> filter.accepts(key, None)
        && laws::blobs(root, files).dom().contains(key) by {
        laws::law_listing_shows_exactly_the_blobs(tree, root, files, filter, fuel, key);
    }
}

} // verus!
