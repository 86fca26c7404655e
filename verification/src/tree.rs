//! What a walk finds when it is run over a directory tree.
//!
//! The tree stands for what is on disk: each directory knows its entries, and
//! reading a directory yields their paths and kinds. Running the walk over the
//! tree means answering each directory it asks for with the listing of that
//! directory.

use crate::walk::{paths_of_kind, started, taken, visited, Listed, PathKind, WalkState};
use vstd::prelude::*;

verus! {

/// A file, a directory with its entries, or something that is neither.
pub ghost enum Tree {
    File { path: Seq<char> },
    Other { path: Seq<char> },
    Directory { path: Seq<char>, children: Seq<Tree> },
}

impl Tree {
    /// The path of the node.
    pub open spec fn path(self) -> Seq<char> {
        match self {
            Tree::File { path } => path,
            Tree::Other { path } => path,
            Tree::Directory { path, .. } => path,
        }
    }

    /// What the file system reports of the node.
    pub open spec fn kind(self) -> PathKind {
        match self {
            Tree::File { .. } => PathKind::File,
            Tree::Other { .. } => PathKind::Neither,
            Tree::Directory { .. } => PathKind::Directory,
        }
    }

    /// The entries of a directory; nothing for any other node.
    pub open spec fn children(self) -> Seq<Tree> {
        match self {
            Tree::Directory { children, .. } => children,
            _ => Seq::empty(),
        }
    }
}

/// What reading a directory with the given entries yields.
pub open spec fn listing_of(entries: Seq<Tree>) -> Seq<Listed> {
    Seq::new(entries.len(), |i: int| Listed { path: entries[i].path(), kind: entries[i].kind() })
}

/// The paths of the nodes, in order.
pub open spec fn paths_of(nodes: Seq<Tree>) -> Seq<Seq<char>> {
    Seq::new(nodes.len(), |i: int| nodes[i].path())
}

/// The directories among the nodes, in order.
pub open spec fn directories(nodes: Seq<Tree>) -> Seq<Tree>
    decreases nodes.len(),
{
    if nodes.len() == 0 {
        Seq::empty()
    } else if nodes.last() is Directory {
        directories(nodes.drop_last()).push(nodes.last())
    } else {
        directories(nodes.drop_last())
    }
}

/// Whether every node is a directory.
pub open spec fn all_directories(nodes: Seq<Tree>) -> bool {
    forall|i: int| 0 <= i < nodes.len() ==> #[trigger] nodes[i] is Directory
}

/// The paths of the regular files in the tree, at any depth.
pub open spec fn files_under(tree: Tree) -> Set<Seq<char>>
    decreases tree,
{
    match tree {
        Tree::File { path } => set![path],
        Tree::Other { .. } => Set::empty(),
        Tree::Directory { children, .. } => files_among(children),
    }
}

/// The paths of the regular files in any of the trees.
pub open spec fn files_among(trees: Seq<Tree>) -> Set<Seq<char>>
    decreases trees,
{
    if trees.len() == 0 {
        Set::empty()
    } else {
        files_among(trees.drop_last()).union(files_under(trees.last()))
    }
}

/// The number of nodes in the tree.
pub open spec fn weight(tree: Tree) -> nat
    decreases tree,
{
    match tree {
        Tree::Directory { children, .. } => 1 + total_weight(children),
        _ => 1,
    }
}

/// The number of nodes in all the trees.
pub open spec fn total_weight(trees: Seq<Tree>) -> nat
    decreases trees,
{
    if trees.len() == 0 {
        0
    } else {
        total_weight(trees.drop_last()) + weight(trees.last())
    }
}

proof fn lemma_total_weight_add(front: Seq<Tree>, back: Seq<Tree>)
    ensures
        total_weight(front + back) == total_weight(front) + total_weight(back),
    decreases back.len(),
{
    if back.len() == 0 {
        assert(front + back =~= front);
    } else {
        lemma_total_weight_add(front, back.drop_last());
        assert((front + back).drop_last() =~= front + back.drop_last());
        assert((front + back).last() == back.last());
    }
}

proof fn lemma_directories_weigh_less(nodes: Seq<Tree>)
    ensures
        total_weight(directories(nodes)) <= total_weight(nodes),
        all_directories(directories(nodes)),
    decreases nodes.len(),
{
    if nodes.len() > 0 {
        lemma_directories_weigh_less(nodes.drop_last());
        if nodes.last() is Directory {
            let kept = directories(nodes.drop_last()).push(nodes.last());
            assert(kept.drop_last() =~= directories(nodes.drop_last()));
            assert(kept.last() == nodes.last());
        }
    }
}

/// Taking the last directory off and putting its subdirectories on leaves
/// fewer nodes to go through.
proof fn lemma_descending_weighs_less(pending: Seq<Tree>)
    requires
        pending.len() > 0,
    ensures
        total_weight(pending.drop_last() + directories(pending.last().children())) < total_weight(
            pending,
        ),
{
    let dir = pending.last();
    lemma_total_weight_add(pending.drop_last(), directories(dir.children()));
    lemma_directories_weigh_less(dir.children());
    assert(total_weight(pending) == total_weight(pending.drop_last()) + weight(dir));
    assert(weight(dir) >= 1 + total_weight(dir.children())) by {
        if !(dir is Directory) {
            assert(total_weight(dir.children()) == 0);
        }
    }
}

/// The walk run over the trees in `pending`, from `state` on: the last tree is
/// taken off, its listing is handed to the walk, and its subdirectories are
/// gone through in their turn, until nothing is pending.
pub open spec fn walked(pending: Seq<Tree>, state: WalkState) -> WalkState
    decreases total_weight(pending),
    via walked_ends
{
    if pending.len() == 0 {
        state
    } else {
        let dir = pending.last();
        walked(
            pending.drop_last() + directories(dir.children()),
            visited(taken(state), listing_of(dir.children())),
        )
    }
}

#[via_fn]
proof fn walked_ends(pending: Seq<Tree>, state: WalkState) {
    if pending.len() > 0 {
        lemma_descending_weighs_less(pending);
    }
}

proof fn lemma_files_among_add(front: Seq<Tree>, back: Seq<Tree>)
    ensures
        files_among(front + back) == files_among(front).union(files_among(back)),
    decreases back.len(),
{
    if back.len() == 0 {
        assert(front + back =~= front);
        assert(files_among(front).union(files_among(back)) =~= files_among(front));
    } else {
        lemma_files_among_add(front, back.drop_last());
        assert((front + back).drop_last() =~= front + back.drop_last());
        assert((front + back).last() == back.last());
        assert(files_among(front + back) =~= files_among(front).union(files_among(back)));
    }
}

/// The directories that a listing names are the subdirectories, and the files
/// it names together with the files below the subdirectories are the files
/// below the entries.
proof fn lemma_listing_splits(entries: Seq<Tree>)
    ensures
        paths_of_kind(listing_of(entries), PathKind::Directory) == paths_of(directories(entries)),
        files_among(entries) == paths_of_kind(listing_of(entries), PathKind::File).to_set().union(
            files_among(directories(entries)),
        ),
    decreases entries.len(),
{
    let listing = listing_of(entries);
    let named = paths_of_kind(listing, PathKind::File);
    if entries.len() == 0 {
        assert(paths_of_kind(listing, PathKind::Directory) =~= paths_of(directories(entries)));
        assert(named.to_set() =~= Set::empty());
        assert(files_among(entries) =~= named.to_set().union(files_among(directories(entries))));
    } else {
        let front = entries.drop_last();
        let last = entries.last();
        lemma_listing_splits(front);
        assert(listing.drop_last() =~= listing_of(front));
        assert(listing.last() == Listed { path: last.path(), kind: last.kind() });
        let named_before = paths_of_kind(listing_of(front), PathKind::File);
        match last {
            Tree::Directory { path, children } => {
                let kept = directories(front).push(last);
                assert(kept.drop_last() =~= directories(front));
                assert(kept.last() == last);
                assert(paths_of(kept) =~= paths_of(directories(front)).push(path));
                assert(named == named_before);
                assert(files_among(kept) == files_among(directories(front)).union(
                    files_under(last),
                ));
            },
            Tree::File { path } => {
                assert(named == named_before.push(path));
                assert forall|p: Seq<char>| named.to_set().contains(p) <==> named_before.to_set().contains(
                    p,
                ) || p == path by {
                    if named.to_set().contains(p) {
                        let i = choose|i: int| 0 <= i < named.len() && named[i] == p;
                        if i < named_before.len() {
                            assert(named_before[i] == p);
                        }
                    }
                    if named_before.to_set().contains(p) {
                        let i = choose|i: int| 0 <= i < named_before.len() && named_before[i] == p;
                        assert(named[i] == p);
                    }
                    if p == path {
                        assert(named[named.len() - 1] == p);
                    }
                }
            },
            Tree::Other { path } => {
                assert(named == named_before);
            },
        }
        assert(files_among(entries) == files_among(front).union(files_under(last)));
        assert(files_among(entries) =~= named.to_set().union(files_among(directories(entries))));
    }
}

proof fn lemma_to_set_add(front: Seq<Seq<char>>, back: Seq<Seq<char>>)
    ensures
        (front + back).to_set() == front.to_set().union(back.to_set()),
{
    let whole = front + back;
    assert forall|p: Seq<char>| whole.to_set().contains(p) <==> front.to_set().contains(p)
        || back.to_set().contains(p) by {
        if whole.to_set().contains(p) {
            let i = choose|i: int| 0 <= i < whole.len() && whole[i] == p;
            if i < front.len() {
                assert(front[i] == p);
            } else {
                assert(back[i - front.len()] == p);
            }
        }
        if front.to_set().contains(p) {
            let i = choose|i: int| 0 <= i < front.len() && front[i] == p;
            assert(whole[i] == p);
        }
        if back.to_set().contains(p) {
            let i = choose|i: int| 0 <= i < back.len() && back[i] == p;
            assert(whole[front.len() + i] == p);
        }
    }
    assert(whole.to_set() =~= front.to_set().union(back.to_set()));
}

/// A walk that has the directories in `pending` to read, and asks for them by
/// their paths, reads every directory below them and ends with the files it
/// had, together with every regular file below the pending directories.
pub proof fn lemma_walk_finds_files_below(pending: Seq<Tree>, state: WalkState)
    requires
        all_directories(pending),
        state.pending == paths_of(pending),
    ensures
        walked(pending, state).pending.len() == 0,
        walked(pending, state).files.to_set() == state.files.to_set().union(files_among(pending)),
    decreases total_weight(pending),
{
    if pending.len() == 0 {
        assert(state.files.to_set().union(files_among(pending)) =~= state.files.to_set());
    } else {
        let dir = pending.last();
        let rest = pending.drop_last();
        let entries = dir.children();
        let below = rest + directories(entries);
        let next = visited(taken(state), listing_of(entries));
        lemma_descending_weighs_less(pending);
        lemma_directories_weigh_less(entries);
        lemma_listing_splits(entries);
        assert(all_directories(below)) by {
            assert forall|i: int| 0 <= i < below.len() implies #[trigger] below[i] is Directory by {
                if i < rest.len() {
                    assert(below[i] == pending[i]);
                } else {
                    assert(below[i] == directories(entries)[i - rest.len()]);
                }
            }
        }
        assert(next.pending =~= paths_of(below));
        lemma_walk_finds_files_below(below, next);
        lemma_files_among_add(rest, directories(entries));
        lemma_to_set_add(state.files, paths_of_kind(listing_of(entries), PathKind::File));
        assert(pending[pending.len() - 1] is Directory);
        assert(files_under(dir) == files_among(entries));
        assert(walked(pending, state) == walked(below, next));
        assert(walked(pending, state).files.to_set() =~= state.files.to_set().union(
            files_among(pending),
        ));
    }
}

/// Walking a directory finds every regular file that it contains, at any
/// depth, and nothing else: no directory and nothing that is neither file nor
/// directory is among the paths found.
pub proof fn lemma_walk_finds_every_file(root: Tree)
    requires
        root is Directory,
    ensures
        walked(seq![root], started(root.path())).pending.len() == 0,
        walked(seq![root], started(root.path())).files.to_set() == files_under(root),
{
    let pending = seq![root];
    let state = started(root.path());
    assert(state.pending =~= paths_of(pending));
    lemma_walk_finds_files_below(pending, state);
    assert(pending.drop_last() =~= Seq::empty());
    assert(files_among(pending.drop_last()) =~= Set::empty());
    assert(files_among(pending) =~= files_under(root));
    assert(state.files.to_set() =~= Set::empty());
    assert(state.files.to_set().union(files_among(pending)) =~= files_under(root));
}

} // verus!
