//! The traversal held against a model of the tree that it walks: run to its
//! end, it finds every file of the tree, and nothing else.

use crate::fswatch::{files_of, join_path, subdirs_of, DirItem};
use vstd::multiset::Multiset;
use vstd::prelude::*;
use vstd::seq_lib::lemma_multiset_commutative;

verus! {

/// A node of a directory tree: a file with its modification time, or a
/// directory with its named entries.
pub enum Tree {
    File(i128),
    Dir(Seq<(Seq<char>, Tree)>),
}

/// The listing that the file system gives of a directory with these
/// entries: one item for each entry, in order, with its name and its kind,
/// and for a file its time.
pub open spec fn listed(entries: Seq<(Seq<char>, Tree)>, listing: Seq<DirItem>) -> bool {
    &&& listing.len() == entries.len()
    &&& forall|i: int|
        0 <= i < entries.len() ==> (#[trigger] listing[i]).name@ == entries[i].0 && (
        match entries[i].1 {
            Tree::File(modified) => !listing[i].is_dir && listing[i].modified == modified,
            Tree::Dir(_) => listing[i].is_dir,
        })
}

/// The files that stand in the directory `dir` itself, in order.
pub open spec fn direct_files(dir: Seq<char>, entries: Seq<(Seq<char>, Tree)>) -> Seq<
    (Seq<char>, i128),
>
    decreases entries.len(),
{
    if entries.len() == 0 {
        Seq::empty()
    } else {
        match entries.last().1 {
            Tree::File(modified) => direct_files(dir, entries.drop_last()).push(
                (join_path(dir, entries.last().0), modified),
            ),
            Tree::Dir(_) => direct_files(dir, entries.drop_last()),
        }
    }
}

/// The directories that stand in the directory `dir` itself, in order, each
/// with its path and its entries.
pub open spec fn direct_dirs(dir: Seq<char>, entries: Seq<(Seq<char>, Tree)>) -> Seq<
    (Seq<char>, Seq<(Seq<char>, Tree)>),
>
    decreases entries.len(),
{
    if entries.len() == 0 {
        Seq::empty()
    } else {
        match entries.last().1 {
            Tree::File(_) => direct_dirs(dir, entries.drop_last()),
            Tree::Dir(inner) => direct_dirs(dir, entries.drop_last()).push(
                (join_path(dir, entries.last().0), inner),
            ),
        }
    }
}

/// The paths of a stack of directories.
pub open spec fn paths_of(stack: Seq<(Seq<char>, Seq<(Seq<char>, Tree)>)>) -> Seq<Seq<char>> {
    Seq::new(stack.len(), |i: int| stack[i].0)
}

/// Every file below the directory `dir`, at whatever depth, with its path
/// relative to the root and its time.
pub open spec fn files_in(dir: Seq<char>, entries: Seq<(Seq<char>, Tree)>) -> Multiset<
    (Seq<char>, i128),
>
    decreases entries,
{
    if entries.len() == 0 {
        Multiset::empty()
    } else {
        let path = join_path(dir, entries.last().0);
        files_in(dir, entries.drop_last()).add(
            match entries.last().1 {
                Tree::File(modified) => Multiset::singleton((path, modified)),
                Tree::Dir(inner) => files_in(path, inner),
            },
        )
    }
}

/// Every file below the directories of a stack.
pub open spec fn files_pending(stack: Seq<(Seq<char>, Seq<(Seq<char>, Tree)>)>) -> Multiset<
    (Seq<char>, i128),
>
    decreases stack.len(),
{
    if stack.len() == 0 {
        Multiset::empty()
    } else {
        files_pending(stack.drop_last()).add(files_in(stack.last().0, stack.last().1))
    }
}

/// The number of nodes below a directory.
pub open spec fn weight(entries: Seq<(Seq<char>, Tree)>) -> nat
    decreases entries,
{
    if entries.len() == 0 {
        0
    } else {
        weight(entries.drop_last()) + 1 + match entries.last().1 {
            Tree::File(_) => 0,
            Tree::Dir(inner) => weight(inner),
        }
    }
}

/// The number of nodes in and below the directories of a stack.
pub open spec fn stack_weight(stack: Seq<(Seq<char>, Seq<(Seq<char>, Tree)>)>) -> nat
    decreases stack.len(),
{
    if stack.len() == 0 {
        0
    } else {
        stack_weight(stack.drop_last()) + 1 + weight(stack.last().1)
    }
}

/// The traversal run to its end: as long as a directory waits, the last one
/// is listed, its files join the files found and its directories wait in
/// its place.
pub open spec fn traversal(
    stack: Seq<(Seq<char>, Seq<(Seq<char>, Tree)>)>,
    found: Seq<(Seq<char>, i128)>,
) -> Seq<(Seq<char>, i128)>
    decreases stack_weight(stack),
    via traversal_ends
{
    if stack.len() == 0 {
        found
    } else {
        let (dir, entries) = stack.last();
        traversal(
            stack.drop_last() + direct_dirs(dir, entries),
            found + direct_files(dir, entries),
        )
    }
}

#[via_fn]
proof fn traversal_ends(
    stack: Seq<(Seq<char>, Seq<(Seq<char>, Tree)>)>,
    found: Seq<(Seq<char>, i128)>,
) {
    if stack.len() > 0 {
        let (dir, entries) = stack.last();
        lemma_stack_add(stack.drop_last(), direct_dirs(dir, entries));
        lemma_dirs_weigh_less(dir, entries);
    }
}

proof fn lemma_stack_add(
    a: Seq<(Seq<char>, Seq<(Seq<char>, Tree)>)>,
    b: Seq<(Seq<char>, Seq<(Seq<char>, Tree)>)>,
)
    ensures
        stack_weight(a + b) == stack_weight(a) + stack_weight(b),
        files_pending(a + b) == files_pending(a).add(files_pending(b)),
    decreases b.len(),
{
    if b.len() == 0 {
        assert(a + b =~= a);
        assert(files_pending(a).add(Multiset::empty()) =~= files_pending(a));
    } else {
        lemma_stack_add(a, b.drop_last());
        assert((a + b).drop_last() =~= a + b.drop_last());
        assert((a + b).last() == b.last());
        let top = files_in(b.last().0, b.last().1);
        assert(files_pending(a).add(files_pending(b.drop_last())).add(top) =~= files_pending(
            a,
        ).add(files_pending(b.drop_last()).add(top)));
    }
}

proof fn lemma_dirs_weigh_less(dir: Seq<char>, entries: Seq<(Seq<char>, Tree)>)
    ensures
        stack_weight(direct_dirs(dir, entries)) <= weight(entries),
    decreases entries.len(),
{
    if entries.len() > 0 {
        lemma_dirs_weigh_less(dir, entries.drop_last());
        match entries.last().1 {
            Tree::File(_) => {},
            Tree::Dir(inner) => {
                let dirs = direct_dirs(dir, entries);
                assert(dirs.drop_last() =~= direct_dirs(dir, entries.drop_last()));
                assert(dirs.last().1 == inner);
            },
        }
    }
}

proof fn lemma_files_split(dir: Seq<char>, entries: Seq<(Seq<char>, Tree)>)
    ensures
        files_in(dir, entries) == direct_files(dir, entries).to_multiset().add(
            files_pending(direct_dirs(dir, entries)),
        ),
    decreases entries.len(),
{
    let files = direct_files(dir, entries);
    let dirs = direct_dirs(dir, entries);
    if entries.len() == 0 {
        files.to_multiset_ensures();
        assert(files.to_multiset() =~= Multiset::empty());
        assert(files_in(dir, entries) =~= files.to_multiset().add(files_pending(dirs)));
    } else {
        let front = entries.drop_last();
        lemma_files_split(dir, front);
        let front_files = direct_files(dir, front);
        let front_dirs = direct_dirs(dir, front);
        let path = join_path(dir, entries.last().0);
        match entries.last().1 {
            Tree::File(modified) => {
                front_files.to_multiset_ensures();
                assert(files.to_multiset() =~= front_files.to_multiset().insert(
                    (path, modified),
                ));
                assert(files_in(dir, entries) =~= files.to_multiset().add(files_pending(dirs)));
            },
            Tree::Dir(inner) => {
                assert(dirs.drop_last() =~= front_dirs);
                assert(dirs.last() == (path, inner));
                assert(files_in(dir, entries) =~= files.to_multiset().add(files_pending(dirs)));
            },
        }
    }
}

/// A listing of a directory tells the traversal what the tree holds there:
/// the files and the directories that the traversal takes from the listing
/// are the files and the directories that stand in the directory.
pub proof fn lemma_listing_agrees(
    dir: Seq<char>,
    entries: Seq<(Seq<char>, Tree)>,
    listing: Seq<DirItem>,
)
    requires
        listed(entries, listing),
    ensures
        files_of(dir, listing) == direct_files(dir, entries),
        subdirs_of(dir, listing) == paths_of(direct_dirs(dir, entries)),
    decreases entries.len(),
{
    if entries.len() == 0 {
        assert(subdirs_of(dir, listing) =~= paths_of(direct_dirs(dir, entries)));
    } else {
        let front = entries.drop_last();
        let rest = listing.drop_last();
        assert(listed(front, rest)) by {
            assert forall|i: int| 0 <= i < front.len() implies (#[trigger] rest[i]).name@
                == front[i].0 && (match front[i].1 {
                Tree::File(modified) => !rest[i].is_dir && rest[i].modified == modified,
                Tree::Dir(_) => rest[i].is_dir,
            }) by {
                assert(rest[i] == listing[i]);
                assert(front[i] == entries[i]);
            }
        }
        lemma_listing_agrees(dir, front, rest);
        let last = listing[listing.len() - 1];
        assert(last.name@ == entries.last().0);
        match entries.last().1 {
            Tree::File(_) => {},
            Tree::Dir(inner) => {
                assert(paths_of(direct_dirs(dir, entries)) =~= paths_of(
                    direct_dirs(dir, front),
                ).push(join_path(dir, entries.last().0)));
            },
        }
    }
}

/// One visit is one step of the traversal: where the directories that
/// wait are those of `stack`, and the listing handed in is that of the last
/// of them, the paths that wait and the files found after the visit are
/// those of the traversal one step on.
pub proof fn lemma_visit_is_a_step(
    stack: Seq<(Seq<char>, Seq<(Seq<char>, Tree)>)>,
    found: Seq<(Seq<char>, i128)>,
    listing: Seq<DirItem>,
)
    requires
        stack.len() > 0,
        listed(stack.last().1, listing),
    ensures
        ({
            let (dir, entries) = stack.last();
            let next = stack.drop_last() + direct_dirs(dir, entries);
            &&& paths_of(stack).last() == dir
            &&& paths_of(stack).drop_last() + subdirs_of(dir, listing) == paths_of(next)
            &&& traversal(stack, found) == traversal(next, found + files_of(dir, listing))
        }),
{
    let (dir, entries) = stack.last();
    lemma_listing_agrees(dir, entries, listing);
    assert(paths_of(stack).drop_last() + paths_of(direct_dirs(dir, entries)) =~= paths_of(
        stack.drop_last() + direct_dirs(dir, entries),
    ));
}

/// A traversal run to its end adds to the files found every file below the
/// directories that waited, each once, and nothing else.
pub proof fn lemma_traversal_finds_pending(
    stack: Seq<(Seq<char>, Seq<(Seq<char>, Tree)>)>,
    found: Seq<(Seq<char>, i128)>,
)
    ensures
        traversal(stack, found).to_multiset() == found.to_multiset().add(files_pending(stack)),
    decreases stack_weight(stack),
{
    if stack.len() == 0 {
        assert(found.to_multiset().add(Multiset::empty()) =~= found.to_multiset());
    } else {
        let (dir, entries) = stack.last();
        let files = direct_files(dir, entries);
        let dirs = direct_dirs(dir, entries);
        lemma_stack_add(stack.drop_last(), dirs);
        lemma_dirs_weigh_less(dir, entries);
        lemma_traversal_finds_pending(stack.drop_last() + dirs, found + files);
        lemma_files_split(dir, entries);
        lemma_multiset_commutative(found, files);
        let rest = files_pending(stack.drop_last());
        assert(found.to_multiset().add(files.to_multiset()).add(
            rest.add(files_pending(dirs)),
        ) =~= found.to_multiset().add(
            rest.add(files.to_multiset().add(files_pending(dirs))),
        ));
    }
}

/// The traversal of a tree from its root finds every file of the tree, at
/// whatever depth, each once with its path and its time, and no directory.
pub proof fn lemma_traversal_finds_every_file(entries: Seq<(Seq<char>, Tree)>)
    ensures
        traversal(seq![(Seq::empty(), entries)], Seq::empty()).to_multiset() == files_in(
            Seq::empty(),
            entries,
        ),
{
    let stack = seq![(Seq::<char>::empty(), entries)];
    let found = Seq::<(Seq<char>, i128)>::empty();
    lemma_traversal_finds_pending(stack, found);
    found.to_multiset_ensures();
    assert(found.to_multiset() =~= Multiset::empty());
    assert(stack.drop_last() =~= Seq::empty());
    assert(files_pending(stack.drop_last()) =~= Multiset::empty());
    assert(found.to_multiset().add(files_pending(stack)) =~= files_in(Seq::empty(), entries));
}

} // verus!
