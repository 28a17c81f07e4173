//! Directory traversal as an explicit work list.
//!
//! The caller lists directories; the [`Walker`] decides which directories
//! are still to be listed and which entries are files to rename. A
//! directory is scheduled at most once, by its path. A caller that follows
//! links to directories names each directory by its canonical path: a link
//! that leads back into the tree then meets a path that was scheduled
//! before, and the tree is left after one pass.

use vstd::prelude::*;
use vstd::hash_set::StringHashSet;
use vstd::string::*;

verus! {

/// What the caller found at a path.
#[derive(Clone, Copy, Debug, PartialEq, Eq)]
pub enum EntryKind {
    /// A regular file, or a link to one: a unit of work.
    File,
    /// A directory to descend into.
    Directory,
    /// Anything else; it is passed over.
    Other,
}

/// One path with its kind: a root of the traversal or an entry of a listing.
#[derive(Clone, Debug, PartialEq, Eq)]
pub struct Entry {
    pub path: String,
    pub kind: EntryKind,
}

/// A directory whose entries could not be listed.
#[derive(Clone, Debug, PartialEq, Eq)]
pub struct DirectoryReadError {
    pub dir: String,
    pub message: String,
}

/// The state of a traversal: the directories still to be listed, the last
/// one first in line, and every directory scheduled so far.
pub struct Frontier {
    pub pending: Seq<Seq<char>>,
    pub seen: Set<Seq<char>>,
}

impl Frontier {
    /// The state before any path was visited.
    pub open spec fn empty() -> Frontier {
        Frontier { pending: Seq::empty(), seen: Set::empty() }
    }

    /// No directory waits twice, and each waiting directory is recorded.
    pub open spec fn wf(self) -> bool {
        &&& self.pending.no_duplicates()
        &&& forall|i: int| 0 <= i < self.pending.len() ==> self.seen.contains(#[trigger] self.pending[i])
    }

    /// The state after one path was visited: a directory not scheduled
    /// before joins the line; any other path changes nothing.
    pub open spec fn visit(self, path: Seq<char>, kind: EntryKind) -> Frontier {
        if kind is Directory && !self.seen.contains(path) {
            Frontier { pending: self.pending.push(path), seen: self.seen.insert(path) }
        } else {
            self
        }
    }

    /// The state after the first in line was taken from a line that is
    /// not empty.
    pub open spec fn take(self) -> Frontier {
        Frontier { pending: self.pending.drop_last(), seen: self.seen }
    }

    /// The state after each of `entries` was visited, in order.
    pub open spec fn visit_all(self, entries: Seq<Entry>) -> Frontier
        decreases entries.len(),
    {
        if entries.len() == 0 {
            self
        } else {
            self.visit_all(entries.drop_last()).visit(entries.last().path@, entries.last().kind)
        }
    }
}

/// The paths of the files among `entries`, in order.
pub open spec fn file_paths(entries: Seq<Entry>) -> Seq<Seq<char>>
    decreases entries.len(),
{
    if entries.len() == 0 {
        Seq::empty()
    } else if entries.last().kind is File {
        file_paths(entries.drop_last()).push(entries.last().path@)
    } else {
        file_paths(entries.drop_last())
    }
}

/// Each file among `entries` is handed out, and nothing else is.
pub proof fn lemma_file_paths_are_the_files(entries: Seq<Entry>)
    ensures
        forall|i: int|
            0 <= i < entries.len() && entries[i].kind is File ==> file_paths(entries).contains(
                #[trigger] entries[i].path@,
            ),
        forall|p: Seq<char>| #[trigger]
            file_paths(entries).contains(p) ==> exists|i: int|
                0 <= i < entries.len() && entries[i].kind is File && #[trigger] entries[i].path@
                    == p,
    decreases entries.len(),
{
    if entries.len() > 0 {
        let front = entries.drop_last();
        let last = entries.last();
        lemma_file_paths_are_the_files(front);
        assert forall|i: int| 0 <= i < entries.len() && entries[i].kind is File implies file_paths(
            entries,
        ).contains(#[trigger] entries[i].path@) by {
            if i < front.len() {
                assert(front[i] == entries[i]);
                let k = choose|k: int|
                    0 <= k < file_paths(front).len() && file_paths(front)[k] == entries[i].path@;
                assert(file_paths(entries)[k] == entries[i].path@);
            } else {
                let k = file_paths(front).len() as int;
                assert(file_paths(entries)[k] == entries[i].path@);
            }
        }
        assert forall|p: Seq<char>| #[trigger] file_paths(entries).contains(p) implies exists|
            i: int,
        |
            0 <= i < entries.len() && entries[i].kind is File && #[trigger] entries[i].path@
                == p by {
            let k = choose|k: int| 0 <= k < file_paths(entries).len() && file_paths(entries)[k] == p;
            if k < file_paths(front).len() {
                assert(file_paths(front)[k] == p);
                assert(file_paths(front).contains(p));
                let i = choose|i: int|
                    0 <= i < front.len() && front[i].kind is File && #[trigger] front[i].path@ == p;
                assert(entries[i] == front[i]);
            } else {
                assert(entries[entries.len() - 1].path@ == p);
            }
        }
    }
}

/// A visit keeps the line free of repeats and recorded, and forgets no
/// directory.
pub proof fn lemma_visit_keeps_wf(frontier: Frontier, path: Seq<char>, kind: EntryKind)
    requires
        frontier.wf(),
    ensures
        frontier.visit(path, kind).wf(),
        frontier.seen.subset_of(frontier.visit(path, kind).seen),
{
    let after = frontier.visit(path, kind);
    if kind is Directory && !frontier.seen.contains(path) {
        assert forall|i: int, j: int|
            0 <= i < after.pending.len() && 0 <= j < after.pending.len() && i != j implies after.pending[i]
            != after.pending[j] by {
            if i < frontier.pending.len() {
                assert(frontier.seen.contains(frontier.pending[i]));
            }
            if j < frontier.pending.len() {
                assert(frontier.seen.contains(frontier.pending[j]));
            }
        }
    }
}

/// A whole listing keeps the line free of repeats and recorded, and
/// forgets no directory.
pub proof fn lemma_visit_all_keeps_wf(frontier: Frontier, entries: Seq<Entry>)
    requires
        frontier.wf(),
    ensures
        frontier.visit_all(entries).wf(),
        frontier.seen.subset_of(frontier.visit_all(entries).seen),
    decreases entries.len(),
{
    if entries.len() > 0 {
        lemma_visit_all_keeps_wf(frontier, entries.drop_last());
        lemma_visit_keeps_wf(
            frontier.visit_all(entries.drop_last()),
            entries.last().path@,
            entries.last().kind,
        );
    }
}

/// Taking the first in line keeps the line free of repeats and recorded;
/// the directory taken is not in line any more.
pub proof fn lemma_take_keeps_wf(frontier: Frontier)
    requires
        frontier.wf(),
        frontier.pending.len() > 0,
    ensures
        frontier.take().wf(),
        frontier.take().seen.contains(frontier.pending.last()),
        !frontier.take().pending.contains(frontier.pending.last()),
{
    let rest = frontier.take().pending;
    assert forall|i: int| 0 <= i < rest.len() implies frontier.take().seen.contains(
        #[trigger] rest[i],
    ) by {
        assert(rest[i] == frontier.pending[i]);
    }
    assert(frontier.seen.contains(frontier.pending[frontier.pending.len() - 1]));
    if rest.contains(frontier.pending.last()) {
        let k = choose|k: int| 0 <= k < rest.len() && rest[k] == frontier.pending.last();
        assert(frontier.pending[k] == frontier.pending[frontier.pending.len() - 1]);
    }
}

/// Every directory of a listing is scheduled: after the listing was taken
/// in, each of its directories is recorded, and one that was not recorded
/// before waits in line.
pub proof fn lemma_directories_are_scheduled(frontier: Frontier, entries: Seq<Entry>)
    ensures
        forall|i: int|
            0 <= i < entries.len() && entries[i].kind is Directory ==> frontier.visit_all(
                entries,
            ).seen.contains(#[trigger] entries[i].path@),
        forall|i: int|
            0 <= i < entries.len() && entries[i].kind is Directory && !frontier.seen.contains(
                entries[i].path@,
            ) ==> frontier.visit_all(entries).pending.contains(#[trigger] entries[i].path@),
    decreases entries.len(),
{
    if entries.len() > 0 {
        let front = entries.drop_last();
        let last = entries.last();
        let before = frontier.visit_all(front);
        let after = frontier.visit_all(entries);
        lemma_directories_are_scheduled(frontier, front);
        assert forall|i: int| 0 <= i < entries.len() && entries[i].kind is Directory implies after.seen.contains(
            #[trigger] entries[i].path@,
        ) by {
            if i < front.len() {
                assert(front[i] == entries[i]);
                assert(before.seen.contains(front[i].path@));
            }
        }
        assert forall|i: int|
            0 <= i < entries.len() && entries[i].kind is Directory && !frontier.seen.contains(
                entries[i].path@,
            ) implies after.pending.contains(#[trigger] entries[i].path@) by {
            let dir = entries[i].path@;
            if i < front.len() {
                assert(front[i] == entries[i]);
                assert(before.pending.contains(front[i].path@));
                let k = choose|k: int| 0 <= k < before.pending.len() && before.pending[k] == dir;
                assert(after.pending[k] == dir);
            } else if before.seen.contains(dir) {
                lemma_recorded_new_directory_waits(frontier, front, dir);
                let k = choose|k: int| 0 <= k < before.pending.len() && before.pending[k] == dir;
                assert(after.pending[k] == dir);
            } else {
                assert(after.pending[before.pending.len() as int] == dir);
            }
        }
    }
}

/// A directory that a listing has recorded, and that was not recorded
/// before, waits in line after that listing.
proof fn lemma_recorded_new_directory_waits(frontier: Frontier, entries: Seq<Entry>, dir: Seq<char>)
    requires
        !frontier.seen.contains(dir),
        frontier.visit_all(entries).seen.contains(dir),
    ensures
        frontier.visit_all(entries).pending.contains(dir),
    decreases entries.len(),
{
    if entries.len() > 0 {
        let before = frontier.visit_all(entries.drop_last());
        let after = frontier.visit_all(entries);
        if before.seen.contains(dir) {
            lemma_recorded_new_directory_waits(frontier, entries.drop_last(), dir);
            let k = choose|k: int| 0 <= k < before.pending.len() && before.pending[k] == dir;
            assert(after.pending[k] == dir);
        } else {
            assert(after.pending[before.pending.len() as int] == dir);
        }
    }
}

/// A directory is listed at most once: one that was scheduled before and
/// is not in line is never put in line again.
pub proof fn lemma_listed_once(frontier: Frontier, entries: Seq<Entry>, dir: Seq<char>)
    requires
        frontier.seen.contains(dir),
        !frontier.pending.contains(dir),
    ensures
        frontier.visit_all(entries).seen.contains(dir),
        !frontier.visit_all(entries).pending.contains(dir),
    decreases entries.len(),
{
    if entries.len() > 0 {
        let before = frontier.visit_all(entries.drop_last());
        let after = frontier.visit_all(entries);
        lemma_listed_once(frontier, entries.drop_last(), dir);
        if after.pending.contains(dir) {
            let k = choose|k: int| 0 <= k < after.pending.len() && after.pending[k] == dir;
            if k < before.pending.len() {
                assert(before.pending[k] == dir);
            }
        }
    }
}

/// The work list of one traversal.
pub struct Walker {
    pending: Vec<String>,
    seen: StringHashSet,
}

impl View for Walker {
    type V = Frontier;

    closed spec fn view(&self) -> Frontier {
        Frontier { pending: self.pending.deep_view(), seen: self.seen@ }
    }
}

impl Walker {
    /// A traversal that has visited nothing yet.
    pub fn new() -> (walker: Walker)
        ensures
            walker@ == Frontier::empty(),
            walker@.wf(),
    {
        let walker = Walker { pending: Vec::new(), seen: StringHashSet::new() };
        proof {
            assert(walker.pending.deep_view() =~= Seq::<Seq<char>>::empty());
        }
        walker
    }

    /// Visits one path. A directory is scheduled unless it was scheduled
    /// before. Returns whether the path is a file, to be renamed by the caller.
    pub fn visit(&mut self, path: &str, kind: EntryKind) -> (is_file: bool)
        ensures
            is_file == (kind is File),
            final(self)@ == old(self)@.visit(path@, kind),
            old(self)@.wf() ==> final(self)@.wf(),
    {
        proof {
            if self@.wf() {
                lemma_visit_keeps_wf(self@, path@, kind);
            }
        }
        match kind {
            EntryKind::File => true,
            EntryKind::Other => false,
            EntryKind::Directory => {
                if !self.seen.contains(path) {
                    let ghost before = self.pending.deep_view();
                    self.seen.insert(path.to_owned());
                    self.pending.push(path.to_owned());
                    proof {
                        assert(self.pending.deep_view() =~= before.push(path@));
                    }
                }
                false
            },
        }
    }

    /// Takes the directory that is first in line, if any is left.
    pub fn next_dir(&mut self) -> (dir: Option<String>)
        ensures
            old(self)@.pending.len() == 0 ==> dir is None && final(self)@ == old(self)@,
            old(self)@.pending.len() > 0 ==> ({
                &&& dir matches Some(d)
                &&& d@ == old(self)@.pending.last()
                &&& final(self)@ == old(self)@.take()
            }),
            old(self)@.wf() ==> final(self)@.wf(),
    {
        proof {
            if self@.wf() && self@.pending.len() > 0 {
                lemma_take_keeps_wf(self@);
            }
        }
        let ghost before = self.pending.deep_view();
        let dir = self.pending.pop();
        proof {
            if before.len() > 0 {
                assert(self.pending.deep_view() =~= before.drop_last());
            } else {
                assert(self.pending.deep_view() =~= before);
            }
        }
        dir
    }
}

/// Takes in the listing of `dir`, as the caller read it.
///
/// A listing that was read yields its files, in order, to be renamed by the
/// caller, and schedules its directories. A listing that could not be read
/// yields the error for this directory and leaves the traversal as it was.
pub fn process_dir(walker: &mut Walker, dir: &str, listing: Result<Vec<Entry>, String>) -> (result:
    Result<Vec<String>, DirectoryReadError>)
    ensures
        match listing {
            Ok(entries) => {
                &&& result matches Ok(files)
                &&& files.deep_view() == file_paths(entries@)
                &&& final(walker)@ == old(walker)@.visit_all(entries@)
            },
            Err(message) => {
                &&& result matches Err(error)
                &&& error.dir@ == dir@
                &&& error.message@ == message@
                &&& final(walker)@ == old(walker)@
            },
        },
        old(walker)@.wf() ==> final(walker)@.wf(),
{
    match listing {
        Err(message) => Err(DirectoryReadError { dir: dir.to_owned(), message }),
        Ok(entries) => {
            let mut files: Vec<String> = Vec::new();
            let mut i: usize = 0;
            proof {
                assert(files.deep_view() =~= file_paths(entries@.take(0)));
                if walker@.wf() {
                    lemma_visit_all_keeps_wf(walker@, entries@);
                }
            }
            while i < entries.len()
                invariant
                    i <= entries.len(),
                    files.deep_view() == file_paths(entries@.take(i as int)),
                    walker@ == old(walker)@.visit_all(entries@.take(i as int)),
                decreases entries.len() - i,
            {
                let entry = &entries[i];
                let ghost collected = files.deep_view();
                proof {
                    assert(entries@.take(i + 1).drop_last() =~= entries@.take(i as int));
                }
                if walker.visit(entry.path.as_str(), entry.kind) {
                    files.push(entry.path.clone());
                    proof {
                        assert(files.deep_view() =~= collected.push(entry.path@));
                    }
                }
                i += 1;
            }
            proof {
                assert(entries@.take(entries.len() as int) =~= entries@);
            }
            Ok(files)
        },
    }
}

} // verus!
