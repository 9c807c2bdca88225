//! Walking the directories below the root, breadth first, step by step.
//!
//! `P` is the handle by which the caller opens a directory or a file.

use std::collections::VecDeque;
use vstd::prelude::*;

use crate::error;
use crate::error::BlobStorageError;
use crate::error::ErrorView;
use crate::error::IoErrorKind;
use crate::error::IoFailure;
use crate::fs::dir_exists;
use crate::fs::FsBlobStore;
use crate::list_filter::ListFilter;
use crate::text;

verus! {

/// A path relative to the root directory.
pub enum Relative {
    /// The path does not lie below the root.
    Outside,
    /// The path is not valid UTF-8; this is its rendered form.
    NotUtf8(String),
    /// The text of the path.
    Text(String),
}

/// What a directory entry is.
pub enum EntryKind {
    /// A file, with its path relative to the root.
    File(Relative),
    /// A directory.
    Directory,
    /// Neither.
    Other,
}

/// An entry of a directory.
pub struct Entry<P> {
    pub path: P,
    pub kind: EntryKind,
}

/// The mathematical value of an [`EntryKind`].
pub enum KindView {
    Outside,
    NotUtf8(Seq<char>),
    File(Seq<char>),
    Directory,
    Other,
}

/// The mathematical value of an [`Entry`].
pub struct EntryView<P> {
    pub path: P,
    pub kind: KindView,
}

impl<P> View for Entry<P> {
    type V = EntryView<P>;

    open spec fn view(&self) -> EntryView<P> {
        EntryView {
            path: self.path,
            kind: match self.kind {
                EntryKind::File(Relative::Outside) => KindView::Outside,
                EntryKind::File(Relative::NotUtf8(shown)) => KindView::NotUtf8(shown@),
                EntryKind::File(Relative::Text(relative)) => KindView::File(relative@),
                EntryKind::Directory => KindView::Directory,
                EntryKind::Other => KindView::Other,
            },
        }
    }
}

/// What reading the next entry of a directory gave, taken by its mathematical
/// value.
pub open spec fn entry_reply_view<P>(
    reply: core::result::Result<Option<Entry<P>>, IoFailure>,
) -> core::result::Result<Option<EntryView<P>>, IoFailure> {
    match reply {
        Ok(Some(entry)) => Ok(Some(entry@)),
        Ok(None) => Ok(None),
        Err(failure) => Err(failure),
    }
}

/// The directories that are still to be walked, and the separator of the
/// system's paths.
pub struct WalkRest<P> {
    queue: VecDeque<P>,
    separator: char,
}

/// The mathematical value of a [`WalkRest`].
#[verifier::ext_equal]
pub struct WalkRestView<P> {
    pub queue: Seq<P>,
    pub separator: char,
}

impl<P> View for WalkRest<P> {
    type V = WalkRestView<P>;

    closed spec fn view(&self) -> WalkRestView<P> {
        WalkRestView { queue: self.queue@, separator: self.separator }
    }
}

/// Resumes a walk once a directory has been looked at.
pub struct AwaitStat<P> {
    pub dir: P,
    pub rest: WalkRest<P>,
}

/// Resumes a walk once a directory has been opened.
pub struct AwaitOpen<P> {
    pub dir: P,
    pub rest: WalkRest<P>,
}

/// Resumes a walk once the next entry of the open directory has been read.
pub struct AwaitEntry<P> {
    pub rest: WalkRest<P>,
}

/// The next step of a walk.
pub enum WalkStep<P> {
    /// Look whether the directory is there.
    CheckDir(AwaitStat<P>),
    /// Open the directory.
    OpenDir(AwaitOpen<P>),
    /// Read the next entry of the directory that was opened last.
    NextEntry(AwaitEntry<P>),
    /// A blob that the filter selects; read the next entry afterwards.
    Found { key: String, path: P, then: AwaitEntry<P> },
    /// The walk is over.
    Done,
    /// The walk failed.
    Failed(BlobStorageError),
}

/// The mathematical value of a [`WalkStep`].
#[verifier::ext_equal]
pub enum WalkStepView<P> {
    CheckDir { dir: P, rest: WalkRestView<P> },
    OpenDir { dir: P, rest: WalkRestView<P> },
    NextEntry { rest: WalkRestView<P> },
    Found { key: Seq<char>, path: P, rest: WalkRestView<P> },
    Done,
    Failed(ErrorView),
}

impl<P> View for WalkStep<P> {
    type V = WalkStepView<P>;

    open spec fn view(&self) -> WalkStepView<P> {
        match self {
            WalkStep::CheckDir(then) => WalkStepView::CheckDir { dir: then.dir, rest: then.rest@ },
            WalkStep::OpenDir(then) => WalkStepView::OpenDir { dir: then.dir, rest: then.rest@ },
            WalkStep::NextEntry(then) => WalkStepView::NextEntry { rest: then.rest@ },
            WalkStep::Found { key, path, then } => WalkStepView::Found {
                key: key@,
                path: *path,
                rest: then.rest@,
            },
            WalkStep::Done => WalkStepView::Done,
            WalkStep::Failed(e) => WalkStepView::Failed(e@),
        }
    }
}

/// What a walk does next when no directory is open.
pub open spec fn next_dir<P>(rest: WalkRestView<P>) -> WalkStepView<P> {
    if rest.queue.len() == 0 {
        WalkStepView::Done
    } else {
        WalkStepView::CheckDir {
            dir: rest.queue[0],
            rest: WalkRestView { queue: rest.queue.skip(1), ..rest },
        }
    }
}

/// What a walk does when a directory has been looked at. One that is gone, or no
/// directory, is passed over.
pub open spec fn after_stat<P>(
    dir: P,
    rest: WalkRestView<P>,
    reply: core::result::Result<bool, IoFailure>,
) -> WalkStepView<P> {
    match reply {
        Ok(true) => WalkStepView::OpenDir { dir, rest },
        Ok(false) => next_dir(rest),
        Err(failure) => if failure.kind == IoErrorKind::NotFound {
            next_dir(rest)
        } else {
            WalkStepView::Failed(error::io_error(failure))
        },
    }
}

/// What a walk does when a directory has been opened, or could not be.
pub open spec fn after_open<P>(
    rest: WalkRestView<P>,
    reply: core::result::Result<(), IoFailure>,
) -> WalkStepView<P> {
    match reply {
        Ok(()) => WalkStepView::NextEntry { rest },
        Err(failure) => WalkStepView::Failed(error::io_error(failure)),
    }
}

/// The key of the blob in a file, from the file's path relative to the root.
pub open spec fn key_of_relative(relative: Seq<char>, separator: char) -> Seq<char> {
    text::replaced(relative, separator, '/')
}

/// What a walk does when the next entry of the open directory has been read.
pub open spec fn after_entry<P, F: ListFilter + ?Sized>(
    rest: WalkRestView<P>,
    filter: &F,
    reply: core::result::Result<Option<EntryView<P>>, IoFailure>,
) -> WalkStepView<P> {
    match reply {
        Err(failure) => WalkStepView::Failed(error::io_error(failure)),
        Ok(None) => next_dir(rest),
        Ok(Some(entry)) => match entry.kind {
            KindView::Directory => WalkStepView::NextEntry {
                rest: WalkRestView { queue: rest.queue.push(entry.path), ..rest },
            },
            KindView::File(relative) => {
                let key = key_of_relative(relative, rest.separator);
                if filter.accepts(key, None) {
                    WalkStepView::Found { key, path: entry.path, rest }
                } else {
                    WalkStepView::NextEntry { rest }
                }
            },
            KindView::NotUtf8(shown) => WalkStepView::Failed(
                ErrorView::InvalidInput("non-UTF-8 path: "@ + shown),
            ),
            _ => WalkStepView::NextEntry { rest },
        },
    }
}

impl<P> WalkRest<P> {
    /// The step for the next directory.
    fn next(self) -> (r: WalkStep<P>)
        ensures
            r@ == next_dir(self@),
    {
        let ghost before = self@;
        let mut queue = self.queue;
        match queue.pop_front() {
            None => WalkStep::Done,
            Some(dir) => {
                let rest = WalkRest { queue, separator: self.separator };
                assert(rest@ =~= (WalkRestView { queue: before.queue.skip(1), ..before }));
                WalkStep::CheckDir(AwaitStat { dir, rest })
            },
        }
    }
}

impl<P> AwaitStat<P> {
    /// Go on with whether the directory is one.
    pub fn checked(self, reply: core::result::Result<bool, IoFailure>) -> (r: WalkStep<P>)
        ensures
            r@ == after_stat(self.dir, self.rest@, reply),
    {
        match dir_exists(reply) {
            Ok(true) => WalkStep::OpenDir(AwaitOpen { dir: self.dir, rest: self.rest }),
            Ok(false) => self.rest.next(),
            Err(e) => WalkStep::Failed(e),
        }
    }
}

impl<P> AwaitOpen<P> {
    /// Go on with whether the directory could be opened.
    pub fn opened(self, reply: core::result::Result<(), IoFailure>) -> (r: WalkStep<P>)
        ensures
            r@ == after_open(self.rest@, reply),
    {
        match reply {
            Ok(()) => WalkStep::NextEntry(AwaitEntry { rest: self.rest }),
            Err(failure) => WalkStep::Failed(BlobStorageError::from(failure)),
        }
    }
}

impl<P> AwaitEntry<P> {
    /// Go on with the next entry of the open directory, `None` at its end.
    pub fn entry<F: ListFilter + ?Sized>(
        self,
        filter: &F,
        reply: core::result::Result<Option<Entry<P>>, IoFailure>,
    ) -> (r: WalkStep<P>)
        ensures
            r@ == after_entry(self.rest@, filter, entry_reply_view(reply)),
    {
        let entry = match reply {
            Err(failure) => {
                return WalkStep::Failed(BlobStorageError::from(failure));
            },
            Ok(None) => {
                return self.rest.next();
            },
            Ok(Some(entry)) => entry,
        };
        let ghost before = self.rest@;
        let mut rest = self.rest;
        match entry.kind {
            EntryKind::Directory => {
                rest.queue.push_back(entry.path);
                assert(rest@ =~= (WalkRestView {
                    queue: before.queue.push(entry.path),
                    ..before
                }));
                WalkStep::NextEntry(AwaitEntry { rest })
            },
            EntryKind::File(Relative::Text(relative)) => {
                proof {
                    reveal_strlit("/");
                }
                let key = text::replace_char(relative.as_str(), rest.separator, "/");
                if filter.matches(key.as_str(), None) {
                    WalkStep::Found { key, path: entry.path, then: AwaitEntry { rest } }
                } else {
                    WalkStep::NextEntry(AwaitEntry { rest })
                }
            },
            EntryKind::File(Relative::NotUtf8(shown)) => WalkStep::Failed(
                BlobStorageError::InvalidInput(text::concat("non-UTF-8 path: ", shown.as_str())),
            ),
            _ => WalkStep::NextEntry(AwaitEntry { rest }),
        }
    }
}

impl FsBlobStore {
    /// Begin a walk at the given directory. `separator` is the separator of the
    /// system's paths.
    pub fn walk<P>(&self, start: P, separator: char) -> (r: WalkStep<P>)
        ensures
            r@ == next_dir(WalkRestView { queue: seq![start], separator }),
    {
        let mut queue: VecDeque<P> = VecDeque::new();
        queue.push_back(start);
        let rest = WalkRest { queue, separator };
        assert(rest@ =~= (WalkRestView { queue: seq![start], separator }));
        rest.next()
    }
}

} // verus!
