//! A point-in-time record of the files under the watched root, and the rule
//! by which two such records are told apart.

use vstd::hash_map::StringHashMap;
use vstd::prelude::*;
use vstd::seq_lib::seq_to_set_is_finite;
use vstd::set_lib::lemma_subset_equality;

verus! {

/// A regular file found under the watched root.
#[derive(Debug, Clone, PartialEq, Eq)]
pub struct FileStamp {
    /// Path of the file relative to the watched root.
    pub path: String,
    /// Time of the last modification, in nanoseconds since the Unix epoch
    /// (negative before it).
    pub modified: i128,
}

/// What a list of stamps says: each path with its time.
pub open spec fn entries_of(stamps: Seq<FileStamp>) -> Seq<(Seq<char>, i128)> {
    Seq::new(stamps.len(), |i: int| (stamps[i].path@, stamps[i].modified))
}

/// The mapping that results from recording `entries` one after the other:
/// where a path occurs more than once, its last time stands.
pub open spec fn recorded(entries: Seq<(Seq<char>, i128)>) -> Map<Seq<char>, i128>
    decreases entries.len(),
{
    if entries.len() == 0 {
        Map::empty()
    } else {
        recorded(entries.drop_last()).insert(entries.last().0, entries.last().1)
    }
}

/// The comparison rule of the poller: two mappings differ when their entry
/// counts differ, or when some path of the first is missing from the second
/// or stands there with another time.
pub open spec fn differs(a: Map<Seq<char>, i128>, b: Map<Seq<char>, i128>) -> bool {
    ||| a.len() != b.len()
    ||| exists|k: Seq<char>| #[trigger]
        a.contains_key(k) && (!b.contains_key(k) || a[k] != b[k])
}

/// No two entries carry the same path.
pub open spec fn distinct_paths(entries: Seq<(Seq<char>, i128)>) -> bool {
    forall|i: int, j: int| 0 <= i < j < entries.len() ==> entries[i].0 != entries[j].0
}

spec fn consistent(stamps: Seq<FileStamp>, index: Map<Seq<char>, usize>) -> bool {
    &&& forall|i: int|
        0 <= i < stamps.len() ==> index.contains_key(#[trigger] stamps[i].path@)
            && index[stamps[i].path@] == i
    &&& forall|k: Seq<char>| #[trigger]
        index.contains_key(k) ==> index[k] < stamps.len() && stamps[index[k] as int].path@ == k
}

spec fn model(stamps: Seq<FileStamp>, index: Map<Seq<char>, usize>) -> Map<Seq<char>, i128> {
    Map::new(|k: Seq<char>| index.contains_key(k), |k: Seq<char>| stamps[index[k] as int].modified)
}

proof fn lemma_model_len(stamps: Seq<FileStamp>, index: Map<Seq<char>, usize>)
    requires
        consistent(stamps, index),
    ensures
        model(stamps, index).dom().finite(),
        model(stamps, index).len() == stamps.len(),
{
    let keys = Seq::new(stamps.len(), |i: int| stamps[i].path@);
    assert(keys.no_duplicates()) by {
        assert forall|i: int, j: int|
            0 <= i < keys.len() && 0 <= j < keys.len() && i != j implies keys[i] != keys[j] by {
            assert(index[stamps[i].path@] == i);
            assert(index[stamps[j].path@] == j);
        }
    }
    let paths = model(stamps, index).dom();
    assert(keys.to_set() =~= paths) by {
        assert forall|k: Seq<char>| keys.to_set().contains(k) implies paths.contains(k) by {
            let i = choose|i: int| 0 <= i < keys.len() && keys[i] == k;
            assert(index.contains_key(stamps[i].path@));
        }
        assert forall|k: Seq<char>| paths.contains(k) implies keys.to_set().contains(k) by {
            assert(index.contains_key(k));
            assert(keys[index[k] as int] == k);
        }
    }
    keys.unique_seq_to_set();
    seq_to_set_is_finite(keys);
}

/// An immutable mapping from relative file path to modification time.
pub struct Snapshot {
    stamps: Vec<FileStamp>,
    index: StringHashMap<usize>,
}

impl View for Snapshot {
    type V = Map<Seq<char>, i128>;

    closed spec fn view(&self) -> Map<Seq<char>, i128> {
        model(self.stamps@, self.index@)
    }
}

impl Snapshot {
    #[verifier::type_invariant]
    spec fn well_formed(&self) -> bool {
        consistent(self.stamps@, self.index@)
    }

    /// The snapshot of a tree without files.
    pub fn new() -> (snapshot: Snapshot)
        ensures
            snapshot@ == Map::<Seq<char>, i128>::empty(),
    {
        let snapshot = Snapshot { stamps: Vec::new(), index: StringHashMap::new() };
        assert(snapshot@ =~= Map::<Seq<char>, i128>::empty());
        snapshot
    }

    /// This snapshot with `path` standing at `modified`, whether or not the
    /// path was in it before.
    pub fn record(self, path: String, modified: i128) -> (next: Snapshot)
        ensures
            next@ == self@.insert(path@, modified),
    {
        proof {
            use_type_invariant(&self);
        }
        let ghost before = self@;
        let Snapshot { mut stamps, mut index } = self;
        let found = match index.get(path.as_str()) {
            Some(position) => Some(*position),
            None => None,
        };
        match found {
            Some(position) => {
                stamps[position] = FileStamp { path, modified };
            },
            None => {
                let position = stamps.len();
                index.insert(path.clone(), position);
                stamps.push(FileStamp { path, modified });
            },
        }
        assert(consistent(stamps@, index@));
        assert(model(stamps@, index@) =~= before.insert(path@, modified));
        Snapshot { stamps, index }
    }

    /// The number of files in the snapshot.
    pub fn len(&self) -> (count: usize)
        ensures
            self@.dom().finite(),
            count == self@.len(),
    {
        proof {
            use_type_invariant(self);
            lemma_model_len(self.stamps@, self.index@);
        }
        self.stamps.len()
    }

    /// The modification time recorded for `path`, if the path is present.
    pub fn get(&self, path: &str) -> (time: Option<i128>)
        ensures
            time == (if self@.contains_key(path@) {
                Some(self@[path@])
            } else {
                None
            }),
    {
        proof {
            use_type_invariant(self);
        }
        match self.index.get(path) {
            Some(position) => Some(self.stamps[*position].modified),
            None => None,
        }
    }
}

/// Whether snapshot `b` differs from snapshot `a` under the poller's rule.
///
/// A path of `a` that is missing from `b` counts as a difference, so the
/// answer is `false` exactly when both hold the same paths with the same
/// times.
pub fn new_entries_or_modified(a: &Snapshot, b: &Snapshot) -> (changed: bool)
    ensures
        changed == differs(a@, b@),
        changed == (a@ != b@),
{
    proof {
        use_type_invariant(a);
        use_type_invariant(b);
        lemma_model_len(a.stamps@, a.index@);
        lemma_model_len(b.stamps@, b.index@);
        lemma_differs_iff_unequal(a@, b@);
    }
    if a.stamps.len() != b.stamps.len() {
        return true;
    }
    let mut i: usize = 0;
    while i < a.stamps.len()
        invariant
            i <= a.stamps.len(),
            consistent(a.stamps@, a.index@),
            consistent(b.stamps@, b.index@),
            forall|j: int|
                0 <= j < i ==> b@.contains_key(#[trigger] a.stamps[j].path@)
                    && b@[a.stamps[j].path@] == a.stamps[j].modified,
        decreases a.stamps.len() - i,
    {
        let stamp = &a.stamps[i];
        match b.index.get(stamp.path.as_str()) {
            None => {
                assert(a@.contains_key(stamp.path@) && !b@.contains_key(stamp.path@));
                return true;
            },
            Some(position) => {
                if b.stamps[*position].modified != stamp.modified {
                    assert(a@.contains_key(stamp.path@) && a@[stamp.path@] != b@[stamp.path@]);
                    return true;
                }
            },
        }
        i += 1;
    }
    assert(!differs(a@, b@)) by {
        assert forall|k: Seq<char>| a@.contains_key(k) implies b@.contains_key(k) && a@[k]
            == b@[k] by {
            let j = a.index@[k] as int;
            assert(a.stamps[j].path@ == k);
        }
    }
    false
}

/// Under the comparison rule two finite mappings differ exactly when they
/// are not the same mapping: with equal counts, a one-sided walk over the
/// paths of the first misses nothing.
pub proof fn lemma_differs_iff_unequal(a: Map<Seq<char>, i128>, b: Map<Seq<char>, i128>)
    requires
        a.dom().finite(),
        b.dom().finite(),
    ensures
        differs(a, b) <==> a != b,
{
    if !differs(a, b) {
        assert(a.dom().subset_of(b.dom())) by {
            assert forall|k: Seq<char>| a.dom().contains(k) implies b.dom().contains(k) by {
                assert(a.contains_key(k));
            }
        }
        lemma_subset_equality(a.dom(), b.dom());
        assert(a =~= b) by {
            assert forall|k: Seq<char>| a.dom().contains(k) implies a[k] == b[k] by {
                assert(a.contains_key(k));
            }
        }
    }
}

/// Every path of a recorded mapping stems from an entry, with the time that
/// the mapping gives it, and every entry's path is in the mapping.
proof fn lemma_recorded_members(entries: Seq<(Seq<char>, i128)>)
    ensures
        recorded(entries).dom().finite(),
        forall|k: Seq<char>| #[trigger]
            recorded(entries).contains_key(k) ==> exists|i: int|
                0 <= i < entries.len() && entries[i] == (k, recorded(entries)[k]),
        forall|i: int|
            0 <= i < entries.len() ==> recorded(entries).contains_key(#[trigger] entries[i].0),
    decreases entries.len(),
{
    if entries.len() > 0 {
        let front = entries.drop_last();
        lemma_recorded_members(front);
        assert forall|k: Seq<char>| #[trigger] recorded(entries).contains_key(k) implies exists|
            i: int,
        |
            0 <= i < entries.len() && entries[i] == (k, recorded(entries)[k]) by {
            if k == entries.last().0 {
                assert(entries[entries.len() - 1] == (k, recorded(entries)[k]));
            } else {
                assert(recorded(front).contains_key(k));
                let i = choose|i: int|
                    0 <= i < front.len() && front[i] == (k, recorded(front)[k]);
                assert(entries[i] == (k, recorded(entries)[k]));
            }
        }
        assert forall|i: int| 0 <= i < entries.len() implies recorded(entries).contains_key(
            #[trigger] entries[i].0,
        ) by {
            if i < front.len() {
                assert(front[i].0 == entries[i].0);
            }
        }
    }
}

/// Snapshot equality does not depend on the order of traversal: two
/// listings of the same files, each path once, in whatever order, record
/// the same mapping, and the comparison rule finds no difference.
pub proof fn lemma_traversal_order_irrelevant(
    first: Seq<(Seq<char>, i128)>,
    second: Seq<(Seq<char>, i128)>,
)
    requires
        distinct_paths(first),
        first.to_multiset() == second.to_multiset(),
    ensures
        recorded(first) == recorded(second),
        !differs(recorded(first), recorded(second)),
{
    first.to_multiset_ensures();
    second.to_multiset_ensures();
    lemma_recorded_members(first);
    lemma_recorded_members(second);
    let a = recorded(first);
    let b = recorded(second);
    assert forall|k: Seq<char>| a.contains_key(k) implies b.contains_key(k) by {
        let i = choose|i: int| 0 <= i < first.len() && first[i] == (k, a[k]);
        assert(first.contains(first[i]));
        assert(first.to_multiset().count(first[i]) > 0);
        assert(second.to_multiset().count(first[i]) > 0);
        assert(second.contains(first[i]));
        let j = choose|j: int| 0 <= j < second.len() && second[j] == first[i];
        assert(b.contains_key(second[j].0));
    }
    assert forall|k: Seq<char>| b.contains_key(k) implies a.contains_key(k) && a[k] == b[k] by {
        let j = choose|j: int| 0 <= j < second.len() && second[j] == (k, b[k]);
        assert(second.contains(second[j]));
        assert(second.to_multiset().count(second[j]) > 0);
        assert(first.to_multiset().count(second[j]) > 0);
        assert(first.contains(second[j]));
        let i = choose|i: int| 0 <= i < first.len() && first[i] == second[j];
        assert(a.contains_key(first[i].0));
        let h = choose|h: int| 0 <= h < first.len() && first[h] == (k, a[k]);
        assert(h == i);
    }
    assert(a =~= b);
    lemma_differs_iff_unequal(a, b);
}

/// Without a change on disk nothing is reported: a mapping never differs
/// from itself.
pub proof fn lemma_unchanged_is_quiet(a: Map<Seq<char>, i128>)
    ensures
        !differs(a, a),
{
}

/// A file that appears is noticed: a finite mapping differs from itself
/// with one new path added.
pub proof fn lemma_new_file_detected(a: Map<Seq<char>, i128>, path: Seq<char>, modified: i128)
    requires
        a.dom().finite(),
        !a.contains_key(path),
    ensures
        differs(a, a.insert(path, modified)),
{
    assert(a.insert(path, modified).contains_key(path));
    lemma_differs_iff_unequal(a, a.insert(path, modified));
}

/// A rename that keeps the entry count is noticed: when one path leaves and
/// another comes in its place, the counts agree and the rule still reports
/// a difference, because the path that left is looked up and not found.
pub proof fn lemma_rename_detected(
    a: Map<Seq<char>, i128>,
    gone: Seq<char>,
    come: Seq<char>,
    modified: i128,
)
    requires
        a.dom().finite(),
        a.contains_key(gone),
        !a.contains_key(come),
    ensures
        a.remove(gone).insert(come, modified).len() == a.len(),
        differs(a, a.remove(gone).insert(come, modified)),
{
    let b = a.remove(gone).insert(come, modified);
    assert(a.contains_key(gone) && !b.contains_key(gone));
}

} // verus!
