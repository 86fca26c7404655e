//! The staging index: which digest each path was last staged with.

use crate::order::{
    before, lemma_before_irreflexive, lemma_before_total, lemma_before_transitive, order, Order,
};
use vstd::prelude::*;
use vstd::string::*;

verus! {

/// The texts of a list of (path, digest) pairs.
pub open spec fn texts(entries: Seq<(String, String)>) -> Seq<(Seq<char>, Seq<char>)> {
    Seq::new(entries.len(), |i: int| (entries[i].0@, entries[i].1@))
}

/// The mapping that a list of (path, digest) pairs stands for. Where a path
/// occurs more than once, the pair listed last counts.
pub open spec fn map_of(entries: Seq<(Seq<char>, Seq<char>)>) -> Map<Seq<char>, Seq<char>>
    decreases entries.len(),
{
    if entries.len() == 0 {
        Map::empty()
    } else {
        map_of(entries.drop_last()).insert(entries.last().0, entries.last().1)
    }
}

/// No path is listed twice.
pub open spec fn distinct_paths(entries: Seq<(Seq<char>, Seq<char>)>) -> bool {
    forall|i: int, j: int| 0 <= i < j < entries.len() ==> entries[i].0 != entries[j].0
}

/// The paths are listed in ascending order, each before all that follow it.
pub open spec fn ascending(entries: Seq<(Seq<char>, Seq<char>)>) -> bool {
    forall|i: int, j: int| 0 <= i < j < entries.len() ==> before(entries[i].0, entries[j].0)
}

/// Whether `path` is the path of some pair of the list.
pub open spec fn lists_path(entries: Seq<(Seq<char>, Seq<char>)>, path: Seq<char>) -> bool {
    exists|i: int| 0 <= i < entries.len() && #[trigger] entries[i].0 == path
}

/// The mapping of a list has exactly the listed paths as keys.
pub proof fn lemma_map_of_keys(entries: Seq<(Seq<char>, Seq<char>)>)
    ensures
        map_of(entries).dom().finite(),
        forall|path: Seq<char>| #[trigger]
            map_of(entries).contains_key(path) <==> lists_path(entries, path),
    decreases entries.len(),
{
    if entries.len() > 0 {
        let front = entries.drop_last();
        lemma_map_of_keys(front);
        assert forall|path: Seq<char>| #[trigger]
            map_of(entries).contains_key(path) <==> lists_path(entries, path) by {
            if lists_path(entries, path) {
                let i = choose|i: int| 0 <= i < entries.len() && #[trigger] entries[i].0 == path;
                if i < front.len() {
                    assert(front[i].0 == path);
                }
            }
            if lists_path(front, path) {
                let i = choose|i: int| 0 <= i < front.len() && #[trigger] front[i].0 == path;
                assert(entries[i].0 == path);
            }
            if path == entries.last().0 {
                assert(entries[entries.len() - 1].0 == path);
            }
        }
    }
}

/// Where no path is listed twice, every pair of the list is a pair of the
/// mapping, and the mapping has as many keys as the list has pairs.
pub proof fn lemma_map_of_distinct(entries: Seq<(Seq<char>, Seq<char>)>)
    requires
        distinct_paths(entries),
    ensures
        map_of(entries).dom().finite(),
        map_of(entries).len() == entries.len(),
        forall|i: int|
            0 <= i < entries.len() ==> map_of(entries).contains_key(#[trigger] entries[i].0)
                && map_of(entries)[entries[i].0] == entries[i].1,
    decreases entries.len(),
{
    lemma_map_of_keys(entries);
    if entries.len() > 0 {
        let front = entries.drop_last();
        let last = entries.last();
        lemma_map_of_distinct(front);
        lemma_map_of_keys(front);
        if lists_path(front, last.0) {
            let i = choose|i: int| 0 <= i < front.len() && #[trigger] front[i].0 == last.0;
            assert(entries[i].0 == entries[entries.len() - 1].0);
        }
        assert(!map_of(front).contains_key(last.0));
        assert forall|i: int| 0 <= i < entries.len() implies map_of(entries).contains_key(
            #[trigger] entries[i].0,
        ) && map_of(entries)[entries[i].0] == entries[i].1 by {
            if i < front.len() {
                assert(front[i] == entries[i]);
                assert(entries[i].0 != entries[entries.len() - 1].0);
            }
        }
    }
}

/// A list in ascending order names no path twice.
pub proof fn lemma_ascending_distinct(entries: Seq<(Seq<char>, Seq<char>)>)
    requires
        ascending(entries),
    ensures
        distinct_paths(entries),
{
    assert forall|i: int, j: int| 0 <= i < j < entries.len() implies entries[i].0
        != entries[j].0 by {
        lemma_before_irreflexive(entries[i].0);
    }
}

/// Two lists with the same keys and the same digest for each stand for the
/// same mapping.
proof fn lemma_same_pairs_same_map(
    entries: Seq<(Seq<char>, Seq<char>)>,
    want: Map<Seq<char>, Seq<char>>,
)
    requires
        distinct_paths(entries),
        forall|path: Seq<char>| #[trigger] want.contains_key(path) <==> lists_path(entries, path),
        forall|i: int| 0 <= i < entries.len() ==> want[(#[trigger] entries[i]).0] == entries[i].1,
    ensures
        map_of(entries) == want,
{
    lemma_map_of_keys(entries);
    lemma_map_of_distinct(entries);
    assert forall|path: Seq<char>| map_of(entries).contains_key(path) implies map_of(
        entries,
    )[path] == want[path] by {
        let i = choose|i: int| 0 <= i < entries.len() && #[trigger] entries[i].0 == path;
        assert(map_of(entries)[entries[i].0] == entries[i].1);
        assert(want[entries[i].0] == entries[i].1);
    }
    assert(map_of(entries) =~= want);
}

/// Replacing the digest of a listed path updates the mapping at that path and
/// leaves the order as it is.
proof fn lemma_replace(entries: Seq<(Seq<char>, Seq<char>)>, at: int, blob_id: Seq<char>)
    requires
        ascending(entries),
        0 <= at < entries.len(),
    ensures
        ascending(entries.update(at, (entries[at].0, blob_id))),
        map_of(entries.update(at, (entries[at].0, blob_id))) == map_of(entries).insert(
            entries[at].0,
            blob_id,
        ),
{
    let path = entries[at].0;
    let after = entries.update(at, (path, blob_id));
    let want = map_of(entries).insert(path, blob_id);
    assert forall|i: int, j: int| 0 <= i < j < after.len() implies before(
        after[i].0,
        after[j].0,
    ) by {
        assert(after[i].0 == entries[i].0);
        assert(after[j].0 == entries[j].0);
    }
    lemma_ascending_distinct(entries);
    lemma_ascending_distinct(after);
    lemma_map_of_keys(entries);
    lemma_map_of_distinct(entries);
    assert forall|p: Seq<char>| #[trigger] want.contains_key(p) <==> lists_path(after, p) by {
        if lists_path(after, p) {
            let i = choose|i: int| 0 <= i < after.len() && #[trigger] after[i].0 == p;
            assert(entries[i].0 == p);
        }
        if lists_path(entries, p) {
            let i = choose|i: int| 0 <= i < entries.len() && #[trigger] entries[i].0 == p;
            assert(after[i].0 == p);
        }
    }
    assert forall|i: int| 0 <= i < after.len() implies want[(#[trigger] after[i]).0]
        == after[i].1 by {
        if i != at {
            assert(after[i] == entries[i]);
            assert(map_of(entries)[entries[i].0] == entries[i].1);
            if i < at {
                assert(entries[i].0 != entries[at].0);
            } else {
                assert(entries[at].0 != entries[i].0);
            }
        }
    }
    lemma_same_pairs_same_map(after, want);
}

/// Entering a new path at its place in the order adds it to the mapping and
/// keeps the order.
proof fn lemma_insert(
    entries: Seq<(Seq<char>, Seq<char>)>,
    at: int,
    path: Seq<char>,
    blob_id: Seq<char>,
)
    requires
        ascending(entries),
        0 <= at <= entries.len(),
        forall|j: int| 0 <= j < at ==> before((#[trigger] entries[j]).0, path),
        forall|j: int| at <= j < entries.len() ==> before(path, (#[trigger] entries[j]).0),
    ensures
        ascending(entries.insert(at, (path, blob_id))),
        map_of(entries.insert(at, (path, blob_id))) == map_of(entries).insert(path, blob_id),
{
    let after = entries.insert(at, (path, blob_id));
    let want = map_of(entries).insert(path, blob_id);
    assert forall|i: int, j: int| 0 <= i < j < after.len() implies before(
        after[i].0,
        after[j].0,
    ) by {
        if j < at {
            assert(after[i] == entries[i] && after[j] == entries[j]);
        } else if j == at {
            assert(after[i] == entries[i]);
        } else if i < at {
            assert(after[i] == entries[i] && after[j] == entries[j - 1]);
        } else if i == at {
            assert(after[j] == entries[j - 1]);
        } else {
            assert(after[i] == entries[i - 1] && after[j] == entries[j - 1]);
        }
    }
    lemma_ascending_distinct(entries);
    lemma_ascending_distinct(after);
    lemma_map_of_keys(entries);
    lemma_map_of_distinct(entries);
    assert forall|p: Seq<char>| #[trigger] want.contains_key(p) <==> lists_path(after, p) by {
        if lists_path(after, p) {
            let i = choose|i: int| 0 <= i < after.len() && #[trigger] after[i].0 == p;
            if i < at {
                assert(entries[i].0 == p);
            } else if i > at {
                assert(entries[i - 1].0 == p);
            }
        }
        if lists_path(entries, p) {
            let i = choose|i: int| 0 <= i < entries.len() && #[trigger] entries[i].0 == p;
            if i < at {
                assert(after[i].0 == p);
            } else {
                assert(after[i + 1].0 == p);
            }
        }
        if p == path {
            assert(after[at].0 == p);
        }
    }
    assert forall|i: int| 0 <= i < after.len() implies want[(#[trigger] after[i]).0]
        == after[i].1 by {
        if i < at {
            assert(after[i] == entries[i]);
            assert(map_of(entries)[entries[i].0] == entries[i].1);
            lemma_before_irreflexive(path);
        } else if i > at {
            assert(after[i] == entries[i - 1]);
            assert(map_of(entries)[entries[i - 1].0] == entries[i - 1].1);
            lemma_before_irreflexive(path);
        }
    }
    lemma_same_pairs_same_map(after, want);
}

/// A mapping has one list in ascending order: two such lists that stand for
/// the same mapping are the same list.
pub proof fn lemma_ascending_unique(
    first: Seq<(Seq<char>, Seq<char>)>,
    second: Seq<(Seq<char>, Seq<char>)>,
)
    requires
        ascending(first),
        ascending(second),
        map_of(first) == map_of(second),
    ensures
        first == second,
    decreases first.len(),
{
    lemma_ascending_distinct(first);
    lemma_ascending_distinct(second);
    lemma_map_of_distinct(first);
    lemma_map_of_distinct(second);
    lemma_map_of_keys(first);
    lemma_map_of_keys(second);
    if first.len() == 0 {
        assert(first =~= second);
    } else {
        let n = first.len() - 1;
        let a = first[n];
        let b = second[n];
        assert(a.0 == b.0) by {
            assert(map_of(second).contains_key(first[n].0));
            let i = choose|i: int| 0 <= i < second.len() && #[trigger] second[i].0 == a.0;
            assert(map_of(first).contains_key(second[n].0));
            let j = choose|j: int| 0 <= j < first.len() && #[trigger] first[j].0 == b.0;
            if i < n && j < n {
                assert(before(second[i].0, second[n].0));
                assert(before(first[j].0, first[n].0));
                lemma_before_total(a.0, b.0);
            }
        }
        assert(a.1 == b.1) by {
            assert(map_of(first)[first[n].0] == first[n].1);
            assert(map_of(second)[second[n].0] == second[n].1);
        }
        let front = first.drop_last();
        let back = second.drop_last();
        assert(map_of(front) =~= map_of(back)) by {
            lemma_ascending_distinct(front);
            lemma_ascending_distinct(back);
            lemma_map_of_keys(front);
            lemma_map_of_keys(back);
            lemma_map_of_distinct(front);
            lemma_map_of_distinct(back);
            assert forall|p: Seq<char>| map_of(front).contains_key(p) implies map_of(
                back,
            ).contains_key(p) && map_of(front)[p] == map_of(back)[p] by {
                let i = choose|i: int| 0 <= i < front.len() && #[trigger] front[i].0 == p;
                assert(first[i].0 == p);
                assert(map_of(second).contains_key(first[i].0));
                let j = choose|j: int| 0 <= j < second.len() && #[trigger] second[j].0 == p;
                assert(first[i].0 != first[n].0);
                assert(back[j].0 == p);
                assert(map_of(front)[front[i].0] == front[i].1);
                assert(map_of(back)[back[j].0] == back[j].1);
                assert(map_of(first)[first[i].0] == first[i].1);
                assert(map_of(second)[second[j].0] == second[j].1);
            }
            assert forall|p: Seq<char>| map_of(back).contains_key(p) implies map_of(
                front,
            ).contains_key(p) by {
                let j = choose|j: int| 0 <= j < back.len() && #[trigger] back[j].0 == p;
                assert(second[j].0 == p);
                assert(map_of(first).contains_key(second[j].0));
                let i = choose|i: int| 0 <= i < first.len() && #[trigger] first[i].0 == p;
                assert(second[j].0 != second[n].0);
                assert(front[i].0 == p);
            }
        }
        lemma_ascending_unique(front, back);
        assert(first =~= front.push(a));
        assert(second =~= back.push(b));
    }
}

/// The staging index: a mapping from repository-relative paths to digests.
///
/// Each path has at most one entry. Staging a path again replaces the digest
/// it had. The entries are kept in ascending order of path, so a path is
/// found by halving the list, and the index has one form whatever the order
/// in which the paths were staged.
#[derive(Debug)]
pub struct Index {
    entries: Vec<(String, String)>,
}

impl View for Index {
    type V = Map<Seq<char>, Seq<char>>;

    open spec fn view(&self) -> Map<Seq<char>, Seq<char>> {
        map_of(self.listing())
    }
}

/// Where a path is in the list, or where it would have to go.
enum Place {
    At(usize),
    Missing(usize),
}

impl Index {
    /// The (path, digest) pairs of the index, in ascending order of path.
    pub closed spec fn listing(&self) -> Seq<(Seq<char>, Seq<char>)> {
        texts(self.entries@)
    }

    #[verifier::type_invariant]
    closed spec fn in_order(&self) -> bool {
        ascending(texts(self.entries@))
    }

    /// An index with no entries.
    pub fn new() -> (index: Index)
        ensures
            index.listing() == Seq::<(Seq<char>, Seq<char>)>::empty(),
            index@ == Map::<Seq<char>, Seq<char>>::empty(),
    {
        let index = Index { entries: Vec::new() };
        assert(texts(index.entries@) =~= Seq::empty());
        index
    }

    /// The number of staged paths.
    pub fn len(&self) -> (count: usize)
        ensures
            self@.dom().finite(),
            count == self@.len(),
            count == self.listing().len(),
    {
        proof {
            use_type_invariant(self);
            lemma_ascending_distinct(texts(self.entries@));
            lemma_map_of_distinct(texts(self.entries@));
        }
        self.entries.len()
    }

    /// Whether nothing is staged.
    pub fn is_empty(&self) -> (empty: bool)
        ensures
            empty <==> self@ == Map::<Seq<char>, Seq<char>>::empty(),
    {
        proof {
            use_type_invariant(self);
            lemma_ascending_distinct(texts(self.entries@));
            lemma_map_of_distinct(texts(self.entries@));
            if self.entries@.len() == 0 {
                assert(texts(self.entries@) =~= Seq::empty());
            } else {
                assert(self@.contains_key(texts(self.entries@)[0].0));
            }
        }
        self.entries.len() == 0
    }

    /// Finds `path` by halving the part of the list in which it can be.
    fn find(&self, path: &str) -> (place: Place)
        ensures
            match place {
                Place::At(i) => i < self.listing().len() && self.listing()[i as int].0 == path@,
                Place::Missing(i) => {
                    &&& i <= self.listing().len()
                    &&& !lists_path(self.listing(), path@)
                    &&& forall|j: int| 0 <= j < i ==> before((#[trigger] self.listing()[j]).0, path@)
                    &&& forall|j: int|
                        i <= j < self.listing().len() ==> before(
                            path@,
                            (#[trigger] self.listing()[j]).0,
                        )
                },
            },
    {
        proof {
            use_type_invariant(self);
        }
        let ghost listing = texts(self.entries@);
        let mut low: usize = 0;
        let mut high: usize = self.entries.len();
        while low < high
            invariant
                low <= high <= self.entries@.len(),
                listing == texts(self.entries@),
                ascending(listing),
                forall|j: int| 0 <= j < low ==> before((#[trigger] listing[j]).0, path@),
                forall|j: int| high <= j < listing.len() ==> before(path@, (#[trigger] listing[j]).0),
            decreases high - low,
        {
            let middle = low + (high - low) / 2;
            assert(listing[middle as int].0 == self.entries@[middle as int].0@);
            match order(self.entries[middle].0.as_str(), path) {
                Order::Same => {
                    return Place::At(middle);
                },
                Order::Before => {
                    assert forall|j: int| 0 <= j < middle + 1 implies before(
                        (#[trigger] listing[j]).0,
                        path@,
                    ) by {
                        if j < middle {
                            lemma_before_transitive(listing[j].0, listing[middle as int].0, path@);
                        }
                    }
                    low = middle + 1;
                },
                Order::After => {
                    assert forall|j: int| middle <= j < listing.len() implies before(
                        path@,
                        (#[trigger] listing[j]).0,
                    ) by {
                        if middle < j {
                            lemma_before_transitive(path@, listing[middle as int].0, listing[j].0);
                        }
                    }
                    high = middle;
                },
            }
        }
        proof {
            if lists_path(listing, path@) {
                let j = choose|j: int| 0 <= j < listing.len() && #[trigger] listing[j].0 == path@;
                lemma_before_irreflexive(path@);
                assert(before(listing[j].0, path@) || before(path@, listing[j].0));
            }
        }
        Place::Missing(low)
    }

    /// The digest staged for `path`, if the path is staged.
    pub fn get(&self, path: &str) -> (found: Option<String>)
        ensures
            match found {
                Some(blob_id) => self@.contains_key(path@) && self@[path@] == blob_id@,
                None => !self@.contains_key(path@),
            },
    {
        proof {
            use_type_invariant(self);
            lemma_ascending_distinct(texts(self.entries@));
            lemma_map_of_distinct(texts(self.entries@));
            lemma_map_of_keys(texts(self.entries@));
        }
        match self.find(path) {
            Place::At(i) => {
                assert(texts(self.entries@)[i as int].1 == self.entries@[i as int].1@);
                Some(self.entries[i].1.clone())
            },
            Place::Missing(_) => None,
        }
    }

    /// Whether `path` is staged.
    pub fn contains_key(&self, path: &str) -> (staged: bool)
        ensures
            staged == self@.contains_key(path@),
    {
        proof {
            lemma_map_of_keys(texts(self.entries@));
        }
        match self.find(path) {
            Place::At(i) => {
                assert(texts(self.entries@)[i as int].0 == path@);
                true
            },
            Place::Missing(_) => false,
        }
    }

    /// Records that `path` is staged with digest `blob_id`, in place of any
    /// digest it was staged with before, and hands that earlier digest back.
    pub fn insert(&mut self, path: String, blob_id: String) -> (previous: Option<String>)
        ensures
            final(self)@ == old(self)@.insert(path@, blob_id@),
            ascending(final(self).listing()),
            match previous {
                Some(earlier) => old(self)@.contains_key(path@) && old(self)@[path@] == earlier@,
                None => !old(self)@.contains_key(path@),
            },
    {
        let ghost before_it = texts(self.entries@);
        proof {
            use_type_invariant(&*self);
            lemma_ascending_distinct(before_it);
            lemma_map_of_distinct(before_it);
            lemma_map_of_keys(before_it);
        }
        let place = self.find(path.as_str());
        let mut entries: Vec<(String, String)> = Vec::new();
        std::mem::swap(&mut entries, &mut self.entries);
        let previous = match place {
            Place::At(i) => {
                let earlier = entries[i].1.clone();
                proof {
                    lemma_replace(before_it, i as int, blob_id@);
                    assert(texts(entries@.update(i as int, (path, blob_id))) =~= before_it.update(
                        i as int,
                        (path@, blob_id@),
                    ));
                }
                entries.set(i, (path, blob_id));
                Some(earlier)
            },
            Place::Missing(i) => {
                proof {
                    lemma_insert(before_it, i as int, path@, blob_id@);
                    assert(texts(entries@.insert(i as int, (path, blob_id))) =~= before_it.insert(
                        i as int,
                        (path@, blob_id@),
                    ));
                }
                entries.insert(i, (path, blob_id));
                None
            },
        };
        self.entries = entries;
        previous
    }

    /// The (path, digest) pairs of the index, one for each staged path, in
    /// ascending order of path.
    pub fn to_entries(&self) -> (entries: Vec<(String, String)>)
        ensures
            texts(entries@) == self.listing(),
            ascending(texts(entries@)),
    {
        proof {
            use_type_invariant(self);
        }
        let mut entries: Vec<(String, String)> = Vec::new();
        let mut i: usize = 0;
        while i < self.entries.len()
            invariant
                i <= self.entries@.len(),
                entries@.len() == i,
                texts(entries@) == texts(self.entries@).take(i as int),
            decreases self.entries@.len() - i,
        {
            let path = self.entries[i].0.clone();
            let blob_id = self.entries[i].1.clone();
            let ghost shorter = entries@;
            entries.push((path, blob_id));
            proof {
                let want = texts(self.entries@).take(i + 1);
                assert forall|j: int| 0 <= j < i + 1 implies texts(entries@)[j] == want[j] by {
                    if j < i {
                        assert(entries@[j] == shorter[j]);
                        assert(texts(shorter)[j] == texts(self.entries@).take(i as int)[j]);
                    }
                }
                assert(texts(entries@) =~= want);
            }
            i = i + 1;
        }
        assert(texts(self.entries@).take(i as int) =~= texts(self.entries@));
        entries
    }

    /// The index that a list of (path, digest) pairs stands for, in whatever
    /// order the pairs come. Where a path is listed more than once, the pair
    /// listed last counts.
    pub fn from_entries(entries: &Vec<(String, String)>) -> (index: Index)
        ensures
            index@ == map_of(texts(entries@)),
            ascending(index.listing()),
    {
        let mut index = Index::new();
        let mut i: usize = 0;
        while i < entries.len()
            invariant
                i <= entries@.len(),
                index@ == map_of(texts(entries@).take(i as int)),
            decreases entries@.len() - i,
        {
            let path = entries[i].0.clone();
            let blob_id = entries[i].1.clone();
            proof {
                let longer = texts(entries@).take(i + 1);
                assert(longer.drop_last() =~= texts(entries@).take(i as int));
                assert(longer.last() == (path@, blob_id@));
            }
            index.insert(path, blob_id);
            i = i + 1;
        }
        proof {
            assert(texts(entries@).take(i as int) =~= texts(entries@));
            use_type_invariant(&index);
        }
        index
    }
}

impl Clone for Index {
    fn clone(&self) -> (copy: Index)
        ensures
            copy.listing() == self.listing(),
            copy@ == self@,
    {
        let copy = Index::from_entries(&self.entries);
        proof {
            use_type_invariant(self);
            lemma_ascending_unique(copy.listing(), self.listing());
        }
        copy
    }
}

impl PartialEq for Index {
    /// Two indexes are equal when they stage the same paths with the same
    /// digests.
    fn eq(&self, other: &Index) -> (same: bool) {
        proof {
            use_type_invariant(self);
            use_type_invariant(other);
            if self@ == other@ {
                lemma_ascending_unique(self.listing(), other.listing());
            }
        }
        if self.entries.len() != other.entries.len() {
            return false;
        }
        let mut i: usize = 0;
        while i < self.entries.len()
            invariant
                i <= self.entries@.len(),
                self.entries@.len() == other.entries@.len(),
                self@ == other@ ==> self.listing() == other.listing(),
                forall|j: int| 0 <= j < i ==> texts(self.entries@)[j] == texts(other.entries@)[j],
            decreases self.entries@.len() - i,
        {
            let ghost mine = texts(self.entries@)[i as int];
            let ghost theirs = texts(other.entries@)[i as int];
            if !(self.entries[i].0 == other.entries[i].0) {
                assert(mine.0 != theirs.0);
                return false;
            }
            if !(self.entries[i].1 == other.entries[i].1) {
                assert(mine.1 != theirs.1);
                return false;
            }
            i = i + 1;
        }
        assert(texts(self.entries@) =~= texts(other.entries@));
        true
    }
}

impl vstd::std_specs::cmp::PartialEqSpecImpl for Index {
    open spec fn obeys_eq_spec() -> bool {
        true
    }

    open spec fn eq_spec(&self, other: &Index) -> bool {
        self@ == other@
    }
}

} // verus!
