//! Expanding a directory into the regular files below it.
//!
//! Reading a directory is the caller's part. The walk keeps the directories
//! that are still to be read and the files found so far: it names the next
//! directory to read, takes its listing, and decides what to descend into.

use vstd::prelude::*;

verus! {

/// What a path on disk turned out to be.
#[derive(Clone, Copy, Debug, PartialEq, Eq, Structural)]
pub enum PathKind {
    /// A directory, or a link to one.
    Directory,
    /// A regular file, or a link to one.
    File,
    /// Nothing at all, or something that is neither of the two.
    Neither,
}

/// A path that is reported as a directory counts as one, whatever else is
/// reported of it.
pub open spec fn kind_of(is_dir: bool, is_file: bool) -> PathKind {
    if is_dir {
        PathKind::Directory
    } else if is_file {
        PathKind::File
    } else {
        PathKind::Neither
    }
}

/// Classifies a path by what the file system reports of it. Links are taken
/// for what they lead to, since that is what the two reports say.
pub fn path_kind(is_dir: bool, is_file: bool) -> (kind: PathKind)
    ensures
        kind == kind_of(is_dir, is_file),
{
    if is_dir {
        PathKind::Directory
    } else if is_file {
        PathKind::File
    } else {
        PathKind::Neither
    }
}

/// One entry of a directory listing.
#[derive(Debug)]
pub struct DirEntry {
    /// The path of the entry, the directory's own path included.
    pub path: String,
    /// What the entry is.
    pub kind: PathKind,
}

/// A [`DirEntry`] as the values it carries.
pub ghost struct Listed {
    pub path: Seq<char>,
    pub kind: PathKind,
}

impl View for DirEntry {
    type V = Listed;

    open spec fn view(&self) -> Listed {
        Listed { path: self.path@, kind: self.kind }
    }
}

/// The entries of a listing, in order.
pub open spec fn listed(listing: Seq<DirEntry>) -> Seq<Listed> {
    Seq::new(listing.len(), |i: int| listing[i]@)
}

/// The texts of a list of paths, in order.
pub open spec fn strings(paths: Seq<String>) -> Seq<Seq<char>> {
    Seq::new(paths.len(), |i: int| paths[i]@)
}

/// The paths of the entries of one kind, in the order of the listing.
pub open spec fn paths_of_kind(listing: Seq<Listed>, kind: PathKind) -> Seq<Seq<char>>
    decreases listing.len(),
{
    if listing.len() == 0 {
        Seq::empty()
    } else if listing.last().kind == kind {
        paths_of_kind(listing.drop_last(), kind).push(listing.last().path)
    } else {
        paths_of_kind(listing.drop_last(), kind)
    }
}

/// Where a walk stands: the directories still to be read, the one to be read
/// next at the end, and the regular files found so far.
pub ghost struct WalkState {
    pub pending: Seq<Seq<char>>,
    pub files: Seq<Seq<char>>,
}

/// A walk that has only its root to read.
pub open spec fn started(root: Seq<char>) -> WalkState {
    WalkState { pending: seq![root], files: Seq::empty() }
}

/// The walk once its next directory has been taken off.
pub open spec fn taken(state: WalkState) -> WalkState {
    WalkState { pending: state.pending.drop_last(), files: state.files }
}

/// The walk once a listing has been looked through: its directories are to be
/// read, its regular files are found, and the rest is passed over.
pub open spec fn visited(state: WalkState, listing: Seq<Listed>) -> WalkState {
    WalkState {
        pending: state.pending + paths_of_kind(listing, PathKind::Directory),
        files: state.files + paths_of_kind(listing, PathKind::File),
    }
}

/// A walk over a directory tree.
#[derive(Debug)]
pub struct Walk {
    pending: Vec<String>,
    files: Vec<String>,
}

impl View for Walk {
    type V = WalkState;

    closed spec fn view(&self) -> WalkState {
        WalkState { pending: strings(self.pending@), files: strings(self.files@) }
    }
}

/// Starts a walk that yields the regular files below the directory `root`.
pub fn walkdir(root: String) -> (walk: Walk)
    ensures
        walk@ == started(root@),
{
    let mut pending: Vec<String> = Vec::new();
    pending.push(root);
    let walk = Walk { pending, files: Vec::new() };
    assert(walk@.pending =~= seq![root@]);
    assert(walk@.files =~= Seq::empty());
    walk
}

impl Walk {
    /// Whether every directory has been read.
    pub fn is_done(&self) -> (done: bool)
        ensures
            done <==> self@.pending.len() == 0,
    {
        self.pending.len() == 0
    }

    /// The directory to read next, or `None` when the walk is over. The
    /// listing of the directory is to be handed to [`Walk::visit`].
    pub fn next_dir(&mut self) -> (next: Option<String>)
        ensures
            match next {
                Some(dir) => old(self)@.pending.len() > 0 && dir@ == old(self)@.pending.last()
                    && final(self)@ == taken(old(self)@),
                None => old(self)@.pending.len() == 0 && final(self)@ == old(self)@,
            },
    {
        let ghost before = self.pending@;
        let next = self.pending.pop();
        proof {
            if before.len() > 0 {
                assert(strings(self.pending@) =~= strings(before).drop_last());
            }
        }
        next
    }

    /// Takes the listing of a directory: the directories in it will be read
    /// in their turn, the regular files in it are found, and what is neither
    /// is passed over.
    pub fn visit(&mut self, listing: &Vec<DirEntry>)
        ensures
            final(self)@ == visited(old(self)@, listed(listing@)),
    {
        let ghost all = listed(listing@);
        let mut i: usize = 0;
        while i < listing.len()
            invariant
                i <= listing@.len(),
                all == listed(listing@),
                self@ == visited(old(self)@, all.take(i as int)),
            decreases listing@.len() - i,
        {
            let ghost seen = all.take(i as int);
            let ghost more = all.take(i + 1);
            let ghost pending = self.pending@;
            let ghost files = self.files@;
            proof {
                assert(more.drop_last() =~= seen);
                assert(more.last() == listing@[i as int]@);
            }
            match listing[i].kind {
                PathKind::Directory => {
                    self.pending.push(listing[i].path.clone());
                    assert(strings(self.pending@) =~= strings(pending).push(listing@[i as int].path@));
                },
                PathKind::File => {
                    self.files.push(listing[i].path.clone());
                    assert(strings(self.files@) =~= strings(files).push(listing@[i as int].path@));
                },
                PathKind::Neither => {},
            }
            assert(self@.pending =~= old(self)@.pending + paths_of_kind(more, PathKind::Directory));
            assert(self@.files =~= old(self)@.files + paths_of_kind(more, PathKind::File));
            i = i + 1;
        }
        assert(all.take(i as int) =~= all);
    }

    /// The regular files found, in the order in which they were found.
    pub fn into_files(self) -> (files: Vec<String>)
        ensures
            strings(files@) == self@.files,
    {
        self.files
    }
}

} // verus!
