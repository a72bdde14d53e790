//! Listings of a directory tree: the paths of a tree in sorted order, each
//! once.

use vstd::prelude::*;
use crate::text::append;
use crate::text::chars_of;
use crate::text::string_of;

verus! {

/// Whether `a` stands before `b` from character `i` on, the characters
/// before being the same: at the first place where they differ `a` has the
/// lesser character, or `a` ends there and `b` does not.
pub open spec fn precedes_from(a: Seq<char>, b: Seq<char>, i: int) -> bool
    decreases a.len() - i,
{
    if i < 0 || i >= b.len() {
        false
    } else if i >= a.len() {
        true
    } else if a[i] != b[i] {
        a[i] < b[i]
    } else {
        precedes_from(a, b, i + 1)
    }
}

/// Whether `a` stands before `b` in the order of a listing: the order of
/// their characters, place by place.
pub open spec fn precedes(a: Seq<char>, b: Seq<char>) -> bool {
    precedes_from(a, b, 0)
}

/// Whether the paths stand in ascending order, each once.
pub open spec fn ascending(paths: Seq<Seq<char>>) -> bool {
    forall|i: int, j: int| 0 <= i < j < paths.len() ==> precedes(#[trigger] paths[i], #[trigger] paths[j])
}

/// How two paths stand to each other.
#[derive(Clone, Copy, Debug, PartialEq, Eq, Structural)]
pub enum Standing {
    Before,
    Same,
    After,
}

/// What stands before a path that stands before another stands before the
/// other.
pub proof fn precedes_carries(a: Seq<char>, b: Seq<char>, c: Seq<char>, i: int)
    requires
        0 <= i,
        precedes_from(a, b, i),
        precedes_from(b, c, i),
    ensures
        precedes_from(a, c, i),
    decreases a.len() - i,
{
    if i < a.len() && a[i] == b[i] && b[i] == c[i] {
        precedes_carries(a, b, c, i + 1);
    }
}

/// No path stands before itself.
pub proof fn precedes_not_itself(a: Seq<char>, i: int)
    requires
        0 <= i,
    ensures
        !precedes_from(a, a, i),
    decreases a.len() - i,
{
    if i < a.len() {
        precedes_not_itself(a, i + 1);
    }
}

/// How `a` stands to `b`.
pub fn standing(a: &Vec<char>, b: &Vec<char>) -> (out: Standing)
    ensures
        out == Standing::Before <==> precedes(a@, b@),
        out == Standing::Same <==> a@ == b@,
        out == Standing::After <==> precedes(b@, a@),
{
    let mut i: usize = 0;
    while i < a.len() && i < b.len()
        invariant
            i <= a.len(),
            i <= b.len(),
            a@.take(i as int) == b@.take(i as int),
            precedes(a@, b@) == precedes_from(a@, b@, i as int),
            precedes(b@, a@) == precedes_from(b@, a@, i as int),
        decreases a.len() - i,
    {
        if a[i] != b[i] {
            proof {
                assert(a@ != b@);
            }
            if a[i] < b[i] {
                return Standing::Before;
            } else {
                return Standing::After;
            }
        }
        i += 1;
        assert(a@.take(i as int) =~= a@.take(i - 1).push(a@[i - 1]));
        assert(b@.take(i as int) =~= b@.take(i - 1).push(b@[i - 1]));
    }
    if i < b.len() {
        assert(a@.len() != b@.len());
        Standing::Before
    } else if i < a.len() {
        assert(a@.len() != b@.len());
        Standing::After
    } else {
        assert(a@ =~= a@.take(i as int));
        assert(b@ =~= b@.take(i as int));
        Standing::Same
    }
}

/// A copy of `paths` with `fresh` at place `at`.
fn with_entry(paths: &Vec<Vec<char>>, at: usize, fresh: Vec<char>) -> (out: Vec<Vec<char>>)
    requires
        at <= paths.len(),
    ensures
        out@.map_values(|path: Vec<char>| path@) == paths@.map_values(|path: Vec<char>| path@).insert(
            at as int,
            fresh@,
        ),
{
    let ghost texts = paths@.map_values(|path: Vec<char>| path@);
    let mut out: Vec<Vec<char>> = Vec::new();
    let mut i: usize = 0;
    while i < at
        invariant
            i <= at <= paths.len(),
            out.len() == i,
            forall|k: int| 0 <= k < i ==> (#[trigger] out@[k])@ == paths@[k]@,
        decreases at - i,
    {
        let mut copy: Vec<char> = Vec::new();
        append(&mut copy, &paths[i]);
        assert(copy@ =~= paths@[i as int]@);
        out.push(copy);
        i += 1;
    }
    let ghost added = fresh@;
    out.push(fresh);
    while i < paths.len()
        invariant
            at <= i <= paths.len(),
            out.len() == i + 1,
            out@[at as int]@ == added,
            forall|k: int| 0 <= k < at ==> (#[trigger] out@[k])@ == paths@[k]@,
            forall|k: int| at < k <= i ==> (#[trigger] out@[k])@ == paths@[k - 1]@,
        decreases paths.len() - i,
    {
        let mut copy: Vec<char> = Vec::new();
        append(&mut copy, &paths[i]);
        assert(copy@ =~= paths@[i as int]@);
        out.push(copy);
        i += 1;
    }
    assert(out@.map_values(|path: Vec<char>| path@) =~= texts.insert(at as int, added));
    out
}

/// The paths of a directory tree, directories and files alike, in ascending
/// order, each once.
pub struct DirectoryListing {
    paths: Vec<Vec<char>>,
}

impl View for DirectoryListing {
    type V = Seq<Seq<char>>;

    closed spec fn view(&self) -> Seq<Seq<char>> {
        self.paths@.map_values(|path: Vec<char>| path@)
    }
}

impl DirectoryListing {
    /// What holds of every listing: its paths ascend.
    #[verifier::type_invariant]
    pub closed spec fn well_formed(&self) -> bool {
        ascending(self@)
    }

    /// The listing of an empty tree.
    pub fn new() -> (listing: DirectoryListing)
        ensures
            listing@ == Seq::<Seq<char>>::empty(),
    {
        let listing = DirectoryListing { paths: Vec::new() };
        assert(listing@ =~= Seq::<Seq<char>>::empty());
        listing
    }

    /// How many paths the listing holds.
    pub fn len(&self) -> (n: usize)
        ensures
            n == self@.len(),
    {
        self.paths.len()
    }

    /// The path at place `i`.
    pub fn path(&self, i: usize) -> (path: String)
        requires
            i < self@.len(),
        ensures
            path@ == self@[i as int],
    {
        string_of(&self.paths[i])
    }

    /// Adds a path at its place in the order. A path that the listing holds
    /// already is not added again.
    pub fn insert(&mut self, path: &str)
        ensures
            final(self)@ == with_path(old(self)@, path@),
            ascending(final(self)@),
    {
        proof {
            use_type_invariant(&*self);
        }
        let fresh = chars_of(path);
        let ghost before = self@;
        let mut at: usize = 0;
        let mut passed = false;
        assert(before.skip(0) =~= before);
        while at < self.paths.len() && !passed
            invariant
                at <= self.paths.len(),
                self@ == before,
                ascending(before),
                fresh@ == path@,
                place_of(before, path@) == at + place_of(before.skip(at as int), path@),
                forall|k: int| 0 <= k < at ==> precedes(#[trigger] before[k], path@),
                passed ==> at < before.len() && precedes(path@, before[at as int]),
            decreases self.paths.len() - at, (if passed { 0int } else { 1int }),
        {
            assert(before[at as int] == self.paths@[at as int]@);
            assert(before.skip(at as int)[0] == before[at as int]);
            assert(before.skip(at as int).drop_first() =~= before.skip(at + 1));
            match standing(&self.paths[at], &fresh) {
                Standing::Before => {
                    at += 1;
                },
                Standing::Same => {
                    assert(holds(before, path@)) by {
                        assert(before[at as int] == path@);
                    }
                    return ;
                },
                Standing::After => {
                    passed = true;
                },
            }
        }
        proof {
            precedes_not_itself(path@, 0);
            assert(place_of(before, path@) == at) by {
                if at < before.len() {
                    assert(before.skip(at as int)[0] == before[at as int]);
                    if precedes(before[at as int], path@) {
                        precedes_carries(path@, before[at as int], path@, 0);
                    }
                } else {
                    assert(before.skip(at as int).len() == 0);
                }
            }
            assert(!holds(before, path@)) by {
                if holds(before, path@) {
                    let k = choose|k: int| 0 <= k < before.len() && before[k] == path@;
                    if k < at {
                        assert(precedes(before[k], path@));
                    } else if k > at {
                        precedes_carries(path@, before[at as int], before[k], 0);
                    }
                }
            }
        }
        let grown = with_entry(&self.paths, at, fresh);
        proof {
            let after = grown@.map_values(|entry: Vec<char>| entry@);
            assert(after =~= before.insert(at as int, path@));
            assert forall|m: int| at <= m < before.len() implies precedes(
                path@,
                #[trigger] before[m],
            ) by {
                if m > at {
                    precedes_carries(path@, before[at as int], before[m], 0);
                }
            }
            assert forall|i: int, j: int| 0 <= i < j < after.len() implies precedes(
                #[trigger] after[i],
                #[trigger] after[j],
            ) by {
                if j < at {
                    assert(after[i] == before[i] && after[j] == before[j]);
                } else if j == at {
                    assert(after[i] == before[i]);
                } else if i == at {
                    assert(after[j] == before[j - 1]);
                } else if i < at {
                    assert(after[i] == before[i]);
                    assert(after[j] == before[j - 1]);
                    precedes_carries(before[i], path@, before[j - 1], 0);
                } else {
                    assert(after[i] == before[i - 1]);
                    assert(after[j] == before[j - 1]);
                }
            }
        }
        self.paths = grown;
    }

    /// The listing of the paths given, in whatever order they come.
    pub fn from_paths(paths: &Vec<String>) -> (listing: DirectoryListing)
        ensures
            listing@ == with_paths(
                Seq::<Seq<char>>::empty(),
                paths@.map_values(|path: String| path@),
                0,
            ),
            ascending(listing@),
    {
        let ghost all = paths@.map_values(|path: String| path@);
        let mut listing = DirectoryListing::new();
        let mut i: usize = 0;
        while i < paths.len()
            invariant
                i <= paths.len(),
                ascending(listing@),
                all == paths@.map_values(|path: String| path@),
                with_paths(listing@, all, i as int) == with_paths(
                    Seq::<Seq<char>>::empty(),
                    all,
                    0,
                ),
            decreases paths.len() - i,
        {
            assert(all[i as int] == paths@[i as int]@);
            listing.insert(paths[i].as_str());
            i += 1;
        }
        listing
    }

    /// A copy of the paths, in their order.
    pub fn to_paths(&self) -> (out: Vec<String>)
        ensures
            out@.map_values(|path: String| path@) == self@,
            ascending(self@),
    {
        proof {
            use_type_invariant(self);
        }
        let mut out: Vec<String> = Vec::new();
        let mut i: usize = 0;
        while i < self.paths.len()
            invariant
                i <= self.paths.len(),
                out.len() == i,
                forall|k: int| 0 <= k < i ==> (#[trigger] out@[k])@ == self.paths@[k]@,
            decreases self.paths.len() - i,
        {
            out.push(string_of(&self.paths[i]));
            i += 1;
        }
        assert(out@.map_values(|path: String| path@) =~= self@);
        out
    }
}

/// Whether the paths hold `path`.
pub open spec fn holds(paths: Seq<Seq<char>>, path: Seq<char>) -> bool {
    exists|k: int| 0 <= k < paths.len() && paths[k] == path
}

/// How many of the paths at the start stand before `path`.
pub open spec fn place_of(paths: Seq<Seq<char>>, path: Seq<char>) -> nat
    decreases paths.len(),
{
    if paths.len() > 0 && precedes(paths[0], path) {
        1 + place_of(paths.drop_first(), path)
    } else {
        0
    }
}

/// The paths with `path` at its place in the order, unless they hold it
/// already.
pub open spec fn with_path(paths: Seq<Seq<char>>, path: Seq<char>) -> Seq<Seq<char>> {
    if holds(paths, path) {
        paths
    } else {
        paths.insert(place_of(paths, path) as int, path)
    }
}

/// The paths with those of `more` from `i` on added one after the other.
pub open spec fn with_paths(paths: Seq<Seq<char>>, more: Seq<Seq<char>>, i: int) -> Seq<
    Seq<char>,
>
    decreases more.len() - i,
{
    if i < 0 || i >= more.len() {
        paths
    } else {
        with_paths(with_path(paths, more[i]), more, i + 1)
    }
}

} // verus!
