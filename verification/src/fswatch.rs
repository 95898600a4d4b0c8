//! The snapshot poller: gathering the files under the watched root, building
//! a snapshot of them, and deciding on each tick whether the tree changed.

use crate::errors::Error;
use crate::signals::Signal;
use crate::snapshot::{
    differs, entries_of, lemma_new_file_detected, new_entries_or_modified, recorded, FileStamp,
    Snapshot,
};
use crate::text::texts_of;
use vstd::prelude::*;
use vstd::string::*;

verus! {

/// The time between two ticks of the poller, in milliseconds.
pub const POLL_INTERVAL_MS: u64 = 500;

/// One entry of a directory listing, as the file system reported it.
#[derive(Debug, Clone, PartialEq, Eq)]
pub struct DirItem {
    /// Name of the entry within its directory.
    pub name: String,
    /// Whether the entry is a directory, to be listed in its turn.
    pub is_dir: bool,
    /// Time of the last modification, in nanoseconds since the Unix epoch.
    pub modified: i128,
}

/// The path of `name` inside the directory `dir`, both relative to the
/// watched root, whose own relative path is empty.
pub open spec fn join_path(dir: Seq<char>, name: Seq<char>) -> Seq<char> {
    if dir.len() == 0 {
        name
    } else {
        dir + seq!['/'] + name
    }
}

/// The directories among `listing`, as paths below `dir`, in listing order.
pub open spec fn subdirs_of(dir: Seq<char>, listing: Seq<DirItem>) -> Seq<Seq<char>>
    decreases listing.len(),
{
    if listing.len() == 0 {
        Seq::empty()
    } else if listing.last().is_dir {
        subdirs_of(dir, listing.drop_last()).push(join_path(dir, listing.last().name@))
    } else {
        subdirs_of(dir, listing.drop_last())
    }
}

/// The files among `listing`, as paths below `dir` with their times, in
/// listing order.
pub open spec fn files_of(dir: Seq<char>, listing: Seq<DirItem>) -> Seq<(Seq<char>, i128)>
    decreases listing.len(),
{
    if listing.len() == 0 {
        Seq::empty()
    } else if listing.last().is_dir {
        files_of(dir, listing.drop_last())
    } else {
        files_of(dir, listing.drop_last()).push(
            (join_path(dir, listing.last().name@), listing.last().modified),
        )
    }
}

fn join(dir: &String, name: &String) -> (path: String)
    ensures
        path@ == join_path(dir@, name@),
{
    if dir.as_str().unicode_len() == 0 {
        name.clone()
    } else {
        proof {
            reveal_strlit("/");
        }
        let prefix = dir.clone().concat("/");
        assert(prefix@ =~= dir@ + seq!['/']);
        prefix.concat(name.as_str())
    }
}

/// A traversal of the watched tree that can be resumed between directory
/// reads: it keeps the directories still to be listed and the files found
/// so far. Directories are traversed and never recorded.
#[derive(Debug)]
pub struct Walk {
    pending: Vec<String>,
    found: Vec<FileStamp>,
}

impl Walk {
    /// The directories still to be listed; the last one is listed next.
    pub closed spec fn pending(&self) -> Seq<Seq<char>> {
        texts_of(self.pending@)
    }

    /// The files found so far, in the order of their discovery.
    pub closed spec fn found(&self) -> Seq<(Seq<char>, i128)> {
        entries_of(self.found@)
    }

    /// A traversal that is about to list the root, or that has nothing to
    /// do because the root is not a directory.
    pub fn begin(root_is_dir: bool) -> (walk: Walk)
        ensures
            walk.found() == Seq::<(Seq<char>, i128)>::empty(),
            walk.pending() == (if root_is_dir {
                seq![Seq::<char>::empty()]
            } else {
                Seq::<Seq<char>>::empty()
            }),
    {
        let mut pending: Vec<String> = Vec::new();
        if root_is_dir {
            pending.push(String::new());
        }
        let walk = Walk { pending, found: Vec::new() };
        assert(walk.found() =~= Seq::<(Seq<char>, i128)>::empty());
        assert(walk.pending() =~= (if root_is_dir {
            seq![Seq::<char>::empty()]
        } else {
            Seq::<Seq<char>>::empty()
        }));
        walk
    }

    /// The directory whose listing the traversal wants next, as a path
    /// relative to the root; `None` once every directory has been listed.
    pub fn next_dir(&self) -> (dir: Option<String>)
        ensures
            self.pending().len() == 0 ==> dir is None,
            self.pending().len() > 0 ==> dir is Some && dir->Some_0@ == self.pending().last(),
    {
        let n = self.pending.len();
        if n == 0 {
            None
        } else {
            Some(self.pending[n - 1].clone())
        }
    }

    /// Takes the listing of the directory that `next_dir` named: its files
    /// join the files found, its directories wait to be listed, and the
    /// directory itself is done. A finished traversal stays as it is.
    pub fn visit(&mut self, listing: &Vec<DirItem>)
        ensures
            old(self).pending().len() == 0 ==> *final(self) == *old(self),
            old(self).pending().len() > 0 ==> {
                let dir = old(self).pending().last();
                &&& final(self).pending() == old(self).pending().drop_last() + subdirs_of(
                    dir,
                    listing@,
                )
                &&& final(self).found() == old(self).found() + files_of(dir, listing@)
            },
    {
        if self.pending.len() == 0 {
            return ;
        }
        let dir = self.pending.remove(self.pending.len() - 1);
        let ghost rest = self.pending();
        let ghost before = self.found();
        assert(rest =~= old(self).pending().drop_last());
        let mut i: usize = 0;
        while i < listing.len()
            invariant
                i <= listing.len(),
                self.pending() == rest + subdirs_of(dir@, listing@.take(i as int)),
                self.found() == before + files_of(dir@, listing@.take(i as int)),
            decreases listing.len() - i,
        {
            let item = &listing[i];
            let path = join(&dir, &item.name);
            proof {
                assert(listing@.take(i + 1).drop_last() =~= listing@.take(i as int));
                assert(listing@.take(i + 1).last() == listing@[i as int]);
            }
            let ghost pending_before = self.pending();
            let ghost found_before = self.found();
            if item.is_dir {
                self.pending.push(path);
                assert(self.pending() =~= pending_before.push(path@));
                assert(self.found() =~= found_before);
            } else {
                self.found.push(FileStamp { path, modified: item.modified });
                assert(self.found() =~= found_before.push((path@, item.modified)));
                assert(self.pending() =~= pending_before);
            }
            i += 1;
        }
        assert(listing@.take(listing.len() as int) =~= listing@);
    }

    /// The files found, once the traversal is over or given up.
    pub fn into_found(self) -> (files: Vec<FileStamp>)
        ensures
            entries_of(files@) == self.found(),
    {
        self.found
    }
}

/// Builds the snapshot of a traversal's files. Where a path occurs more
/// than once, its last time stands.
pub fn make_mt_map(files: &Vec<FileStamp>) -> (snapshot: Snapshot)
    ensures
        snapshot@ == recorded(entries_of(files@)),
{
    let mut snapshot = Snapshot::new();
    let mut i: usize = 0;
    while i < files.len()
        invariant
            i <= files.len(),
            snapshot@ == recorded(entries_of(files@).take(i as int)),
        decreases files.len() - i,
    {
        let stamp = &files[i];
        proof {
            let upto = entries_of(files@).take(i + 1);
            assert(upto.drop_last() =~= entries_of(files@).take(i as int));
            assert(upto.last() == (stamp.path@, stamp.modified));
        }
        snapshot = snapshot.record(stamp.path.clone(), stamp.modified);
        i += 1;
    }
    assert(entries_of(files@).take(files.len() as int) =~= entries_of(files@));
    snapshot
}

/// What the poller holds between ticks.
pub struct FsWatchView {
    /// The watched root.
    pub dirpath: Seq<char>,
    /// The snapshot accepted last.
    pub mod_times: Map<Seq<char>, i128>,
}

/// The poller: the watched root and the snapshot accepted last.
pub struct FsWatch {
    dirpath: String,
    mod_times: Snapshot,
}

impl View for FsWatch {
    type V = FsWatchView;

    closed spec fn view(&self) -> FsWatchView {
        FsWatchView { dirpath: self.dirpath@, mod_times: self.mod_times@ }
    }
}

/// One tick of the poller on mappings: the snapshot that is accepted after
/// the tick, and whether a change is announced.
pub open spec fn tick(accepted: Map<Seq<char>, i128>, fresh: Map<Seq<char>, i128>) -> (
    Map<Seq<char>, i128>,
    bool,
) {
    if differs(accepted, fresh) {
        (fresh, true)
    } else {
        (accepted, false)
    }
}

/// A run of ticks, one for each of `fresh` in turn: the snapshot accepted
/// at its end and the number of changes announced on the way.
pub open spec fn ticks(accepted: Map<Seq<char>, i128>, fresh: Seq<Map<Seq<char>, i128>>) -> (
    Map<Seq<char>, i128>,
    nat,
)
    decreases fresh.len(),
{
    if fresh.len() == 0 {
        (accepted, 0)
    } else {
        let (before, announced) = ticks(accepted, fresh.drop_last());
        let (after, change) = tick(before, fresh.last());
        (after, if change {
            announced + 1
        } else {
            announced
        })
    }
}

impl FsWatch {
    /// A poller for `dirpath` that starts from `baseline`, the snapshot
    /// taken of the root at construction. `None` stands for a root that
    /// does not exist or could not be examined, and is refused.
    pub fn new(dirpath: String, baseline: Option<Snapshot>) -> (watch: Result<FsWatch, Error>)
        ensures
            baseline is None ==> watch == Err::<FsWatch, Error>(Error::PathProblem),
            baseline is Some ==> watch is Ok && watch->Ok_0@ == (FsWatchView {
                dirpath: dirpath@,
                mod_times: baseline->Some_0@,
            }),
    {
        match baseline {
            None => Err(Error::PathProblem),
            Some(mod_times) => Ok(FsWatch { dirpath, mod_times }),
        }
    }

    /// The watched root.
    pub fn dirpath(&self) -> (dirpath: &String)
        ensures
            dirpath@ == self@.dirpath,
    {
        &self.dirpath
    }

    /// The snapshot accepted last.
    pub fn mod_times(&self) -> (mod_times: &Snapshot)
        ensures
            mod_times@ == self@.mod_times,
    {
        &self.mod_times
    }

    /// One tick of the poller, given the snapshot just taken. When it
    /// differs from the accepted one, the change is announced and the new
    /// snapshot is accepted; otherwise nothing is announced, the new
    /// snapshot is dropped and the poller is left untouched.
    pub fn poll(&mut self, fresh: Snapshot) -> (signal: Option<Signal>)
        ensures
            final(self)@.dirpath == old(self)@.dirpath,
            (final(self)@.mod_times, signal is Some) == tick(old(self)@.mod_times, fresh@),
            signal is Some ==> signal == Some(Signal::FsMod),
            signal is None ==> *final(self) == *old(self),
    {
        if new_entries_or_modified(&self.mod_times, &fresh) {
            self.mod_times = fresh;
            Some(Signal::FsMod)
        } else {
            None
        }
    }
}

/// As long as every snapshot taken equals the accepted one, no change is
/// announced and the accepted snapshot stays what it was.
pub proof fn lemma_quiescence(accepted: Map<Seq<char>, i128>, fresh: Seq<Map<Seq<char>, i128>>)
    requires
        forall|i: int| 0 <= i < fresh.len() ==> fresh[i] == accepted,
    ensures
        ticks(accepted, fresh) == (accepted, 0nat),
    decreases fresh.len(),
{
    if fresh.len() > 0 {
        lemma_quiescence(accepted, fresh.drop_last());
    }
}

/// A file that appears under an established baseline is announced exactly
/// once, on the first tick that sees it, however many ticks follow while
/// the tree stays as it is.
pub proof fn lemma_new_file_announced_once(
    baseline: Map<Seq<char>, i128>,
    path: Seq<char>,
    modified: i128,
    fresh: Seq<Map<Seq<char>, i128>>,
)
    requires
        baseline.dom().finite(),
        !baseline.contains_key(path),
        fresh.len() > 0,
        forall|i: int| 0 <= i < fresh.len() ==> fresh[i] == baseline.insert(path, modified),
    ensures
        ticks(baseline, fresh) == (baseline.insert(path, modified), 1nat),
    decreases fresh.len(),
{
    let grown = baseline.insert(path, modified);
    if fresh.len() == 1 {
        assert(ticks(baseline, fresh.drop_last()) == (baseline, 0nat));
        lemma_new_file_detected(baseline, path, modified);
    } else {
        lemma_new_file_announced_once(baseline, path, modified, fresh.drop_last());
    }
}

} // verus!
