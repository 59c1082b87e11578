//! Directory traversal as a state machine. The caller lists the directory that
//! the walker names next and hands the entries back; the walker decides which
//! subdirectories to descend into and which leaves become candidates.
use vstd::prelude::*;

verus! {

/// One entry of a directory listing.
pub struct EntryInfo {
    /// The final path segment.
    pub name: String,
    /// Whether the entry is a directory (every other kind is a leaf).
    pub is_dir: bool,
    /// The entry's size in bytes, where it was looked up and known.
    pub len: Option<u64>,
}

/// A file found by the walk: its path segments below the root, and its size
/// where it was looked up during the walk.
pub struct FileCandidate {
    pub path: Vec<String>,
    pub len: Option<u64>,
}

pub open spec fn names(v: Seq<String>) -> Seq<Seq<char>> {
    v.map_values(|s: String| s@)
}

impl View for FileCandidate {
    type V = (Seq<Seq<char>>, Option<u64>);

    open spec fn view(&self) -> (Seq<Seq<char>>, Option<u64>) {
        (names(self.path@), self.len)
    }
}

impl FileCandidate {
    pub open spec fn path_view(&self) -> Seq<Seq<char>> {
        names(self.path@)
    }

    /// A copy of the candidate.
    pub fn duplicate(&self) -> (r: FileCandidate)
        ensures
            r@ == self@,
    {
        FileCandidate { path: copy_path(&self.path), len: self.len }
    }

    /// The candidate's file name: its last path segment.
    pub fn file_name(&self) -> (r: &String)
        requires
            self.path@.len() > 0,
        ensures
            r@ == self.path_view().last(),
    {
        &self.path[self.path.len() - 1]
    }
}

/// No segment of the directory path `dir` is an excluded name.
pub open spec fn clean_dir(dir: Seq<Seq<char>>, excluded: Set<Seq<char>>) -> bool {
    forall|i: int| 0 <= i < dir.len() ==> !excluded.contains(#[trigger] dir[i])
}

/// Whether a leaf passes the size filter.
pub open spec fn passes_filter(len: Option<u64>, min_size: Option<u64>) -> bool {
    match min_size {
        None => true,
        Some(s) => match len {
            Some(l) => l >= s,
            None => false,
        },
    }
}

/// Whether an entry is a leaf that the walk keeps.
pub open spec fn leaf_kept(e: EntryInfo, min_size: Option<u64>) -> bool {
    !e.is_dir && passes_filter(e.len, min_size)
}

/// Whether an entry is a directory that the walk descends into.
pub open spec fn descended(e: EntryInfo, excluded: Set<Seq<char>>) -> bool {
    e.is_dir && !excluded.contains(e.name@)
}

/// The candidates (path, size) that a listing of directory `dir` adds.
pub open spec fn kept_leaves(dir: Seq<Seq<char>>, es: Seq<EntryInfo>, min_size: Option<u64>) -> Seq<(Seq<Seq<char>>, Option<u64>)>
    decreases es.len(),
{
    if es.len() == 0 {
        seq![]
    } else {
        let prev = kept_leaves(dir, es.drop_last(), min_size);
        let e = es.last();
        if leaf_kept(e, min_size) {
            prev.push((dir.push(e.name@), e.len))
        } else {
            prev
        }
    }
}

/// The subdirectories that a listing of directory `dir` adds to the pending ones.
pub open spec fn descended_dirs(dir: Seq<Seq<char>>, es: Seq<EntryInfo>, excluded: Set<Seq<char>>) -> Seq<Seq<Seq<char>>>
    decreases es.len(),
{
    if es.len() == 0 {
        seq![]
    } else {
        let prev = descended_dirs(dir, es.drop_last(), excluded);
        let e = es.last();
        if descended(e, excluded) {
            prev.push(dir.push(e.name@))
        } else {
            prev
        }
    }
}

/// What every candidate of a walk satisfies: no directory on its path is
/// excluded, and it passes the size filter.
pub open spec fn candidate_ok(path: Seq<Seq<char>>, len: Option<u64>, excluded: Set<Seq<char>>, min_size: Option<u64>) -> bool {
    path.len() >= 1 && clean_dir(path.drop_last(), excluded) && passes_filter(len, min_size)
}

pub struct Walker {
    exclude: Vec<String>,
    min_size: Option<u64>,
    pending: Vec<Vec<String>>,
    current: Vec<String>,
    found: Vec<FileCandidate>,
}

pub fn name_in(list: &Vec<String>, name: &String) -> (r: bool)
    ensures
        r == names(list@).contains(name@),
{
    let mut i: usize = 0;
    while i < list.len()
        invariant
            i <= list@.len(),
            forall|j: int| 0 <= j < i ==> names(list@)[j] != name@,
        decreases list@.len() - i,
    {
        if list[i] == *name {
            assert(names(list@)[i as int] == name@);
            return true;
        }
        i = i + 1;
    }
    false
}

fn copy_path(p: &Vec<String>) -> (r: Vec<String>)
    ensures
        names(r@) == names(p@),
{
    let mut r: Vec<String> = Vec::new();
    let mut i: usize = 0;
    while i < p.len()
        invariant
            i <= p@.len(),
            r@.len() == i,
            forall|j: int| 0 <= j < i ==> (#[trigger] r@[j])@ == p@[j]@,
        decreases p@.len() - i,
    {
        r.push(p[i].clone());
        i = i + 1;
    }
    assert(names(r@) =~= names(p@));
    r
}

fn child_path(dir: &Vec<String>, name: &String) -> (r: Vec<String>)
    ensures
        names(r@) == names(dir@).push(name@),
{
    let mut r = copy_path(dir);
    r.push(name.clone());
    assert(names(r@) =~= names(dir@).push(name@));
    r
}

impl Walker {
    pub closed spec fn excluded(&self) -> Set<Seq<char>> {
        names(self.exclude@).to_set()
    }

    pub closed spec fn min_size_spec(&self) -> Option<u64> {
        self.min_size
    }

    /// Directories still to list, the next one last.
    pub closed spec fn pending_dirs(&self) -> Seq<Seq<Seq<char>>> {
        self.pending@.map_values(|p: Vec<String>| names(p@))
    }

    /// The directory whose listing `visit` expects.
    pub closed spec fn current_dir(&self) -> Seq<Seq<char>> {
        names(self.current@)
    }

    pub closed spec fn found_view(&self) -> Seq<(Seq<Seq<char>>, Option<u64>)> {
        self.found@.map_values(|c: FileCandidate| (c.path_view(), c.len))
    }

    pub closed spec fn wf(&self) -> bool {
        &&& forall|i: int| 0 <= i < self.pending_dirs().len() ==> clean_dir(#[trigger] self.pending_dirs()[i], self.excluded())
        &&& clean_dir(self.current_dir(), self.excluded())
        &&& forall|i: int| 0 <= i < self.found_view().len() ==> candidate_ok(#[trigger] self.found_view()[i].0, self.found_view()[i].1, self.excluded(), self.min_size)
    }

    /// A walk from the root, skipping directories named in `exclude`, keeping
    /// only leaves of at least `min_size` bytes where that is given.
    pub fn new(exclude: Vec<String>, min_size: Option<u64>) -> (r: Walker)
        ensures
            r.wf(),
            r.excluded() == names(exclude@).to_set(),
            r.min_size_spec() == min_size,
            r.pending_dirs() == seq![Seq::<Seq<char>>::empty()],
            r.current_dir() == Seq::<Seq<char>>::empty(),
            r.found_view() == Seq::<(Seq<Seq<char>>, Option<u64>)>::empty(),
    {
        let mut pending: Vec<Vec<String>> = Vec::new();
        pending.push(Vec::new());
        let r = Walker { exclude, min_size, pending, current: Vec::new(), found: Vec::new() };
        assert(names(r.pending@[0]@) =~= Seq::<Seq<char>>::empty());
        assert(r.pending_dirs() =~= seq![Seq::<Seq<char>>::empty()]);
        assert(r.current_dir() =~= Seq::<Seq<char>>::empty());
        assert(r.found_view() =~= Seq::<(Seq<Seq<char>>, Option<u64>)>::empty());
        r
    }

    /// Whether the walk looks up leaf sizes while it walks.
    pub fn needs_sizes(&self) -> (r: bool)
        ensures
            r == self.min_size_spec() is Some,
    {
        self.min_size.is_some()
    }

    /// The next directory to list, as path segments below the root; `None`
    /// when the walk is done. It becomes the directory that `visit` expects.
    pub fn next_dir(&mut self) -> (r: Option<Vec<String>>)
        requires
            old(self).wf(),
        ensures
            final(self).wf(),
            final(self).excluded() == old(self).excluded(),
            final(self).min_size_spec() == old(self).min_size_spec(),
            final(self).found_view() == old(self).found_view(),
            old(self).pending_dirs().len() == 0 ==> r is None && final(self).pending_dirs() == old(self).pending_dirs(),
            old(self).pending_dirs().len() > 0 ==> r is Some
                && names(r->0@) == old(self).pending_dirs().last()
                && clean_dir(names(r->0@), final(self).excluded())
                && final(self).current_dir() == old(self).pending_dirs().last()
                && final(self).pending_dirs() == old(self).pending_dirs().drop_last(),
    {
        match self.pending.pop() {
            None => {
                assert(self.pending@ == old(self).pending@);
                None
            },
            Some(dir) => {
                let ghost last = old(self).pending_dirs().len() - 1;
                assert(clean_dir(old(self).pending_dirs()[last], self.excluded()));
                let out = copy_path(&dir);
                self.current = dir;
                assert(self.pending_dirs() =~= old(self).pending_dirs().drop_last());
                assert(self.current_dir() == old(self).pending_dirs().last());
                assert forall|i: int| 0 <= i < self.pending_dirs().len() implies clean_dir(#[trigger] self.pending_dirs()[i], self.excluded()) by {
                    assert(self.pending_dirs()[i] == old(self).pending_dirs()[i]);
                }
                assert(self.found_view() == old(self).found_view());
                assert(clean_dir(self.current_dir(), self.excluded()));
                assert(forall|i: int| 0 <= i < self.found_view().len() ==> candidate_ok(#[trigger] self.found_view()[i].0, self.found_view()[i].1, self.excluded(), self.min_size));
                Some(out)
            },
        }
    }

    /// Takes the listing of the current directory: each subdirectory not
    /// excluded by name is added to the pending ones, and each leaf that passes
    /// the size filter becomes a candidate. A leaf whose size is unknown fails
    /// the filter.
    pub fn visit(&mut self, entries: &Vec<EntryInfo>)
        requires
            old(self).wf(),
        ensures
            final(self).wf(),
            final(self).excluded() == old(self).excluded(),
            final(self).min_size_spec() == old(self).min_size_spec(),
            final(self).current_dir() == old(self).current_dir(),
            final(self).pending_dirs() == old(self).pending_dirs() + descended_dirs(old(self).current_dir(), entries@, old(self).excluded()),
            final(self).found_view() == old(self).found_view() + kept_leaves(old(self).current_dir(), entries@, old(self).min_size_spec()),
    {
        let ghost dir = self.current_dir();
        let ghost x = self.excluded();
        let ghost pend0 = self.pending_dirs();
        let ghost found0 = self.found_view();
        let mut i: usize = 0;
        while i < entries.len()
            invariant
                i <= entries@.len(),
                self.wf(),
                self.excluded() == x,
                self.min_size == old(self).min_size,
                self.exclude == old(self).exclude,
                self.current_dir() == dir,
                x == names(self.exclude@).to_set(),
                clean_dir(dir, x),
                self.pending_dirs() == pend0 + descended_dirs(dir, entries@.subrange(0, i as int), x),
                self.found_view() == found0 + kept_leaves(dir, entries@.subrange(0, i as int), self.min_size),
            decreases entries@.len() - i,
        {
            let e = &entries[i];
            let ghost pre = entries@.subrange(0, i as int);
            let ghost next = entries@.subrange(0, i as int + 1);
            assert(next.drop_last() =~= pre);
            assert(next.last() == *e);
            if e.is_dir {
                let skip = name_in(&self.exclude, &e.name);
                if !skip {
                    proof {
                        assert(!x.contains(e.name@)) by {
                            if x.contains(e.name@) {
                                assert(names(self.exclude@).contains(e.name@));
                            }
                        }
                    }
                    let child = child_path(&self.current, &e.name);
                    let ghost pend_before = self.pending_dirs();
                    self.pending.push(child);
                    assert(self.pending_dirs() =~= pend_before.push(dir.push(e.name@)));
                    assert(clean_dir(dir.push(e.name@), x)) by {
                        assert forall|k: int| 0 <= k < dir.push(e.name@).len() implies !x.contains(#[trigger] dir.push(e.name@)[k]) by {
                            if k < dir.len() {
                                assert(dir.push(e.name@)[k] == dir[k]);
                            }
                        }
                    }
                } else {
                    assert(x.contains(e.name@)) by {
                        let j = choose|j: int| 0 <= j < names(self.exclude@).len() && names(self.exclude@)[j] == e.name@;
                        assert(names(self.exclude@).to_set().contains(names(self.exclude@)[j]));
                    }
                }
                assert(kept_leaves(dir, next, self.min_size) == kept_leaves(dir, pre, self.min_size));
            } else {
                let keep = match self.min_size {
                    None => true,
                    Some(s) => match e.len {
                        Some(l) => l >= s,
                        None => false,
                    },
                };
                if keep {
                    let path = child_path(&self.current, &e.name);
                    let ghost found_before = self.found_view();
                    self.found.push(FileCandidate { path, len: e.len });
                    assert(self.found_view() =~= found_before.push((dir.push(e.name@), e.len)));
                    assert(dir.push(e.name@).drop_last() =~= dir);
                }
                assert(descended_dirs(dir, next, x) == descended_dirs(dir, pre, x));
            }
            i = i + 1;
        }
        assert(entries@.subrange(0, entries@.len() as int) =~= entries@);
    }

    /// The candidates found so far.
    pub fn into_candidates(self) -> (r: Vec<FileCandidate>)
        requires
            self.wf(),
        ensures
            r@.map_values(|c: FileCandidate| (c.path_view(), c.len)) == self.found_view(),
            forall|i: int| 0 <= i < r@.len() ==> candidate_ok(#[trigger] r@[i].path_view(), r@[i].len, self.excluded(), self.min_size_spec()),
    {
        proof {
            assert forall|i: int| 0 <= i < self.found@.len() implies candidate_ok(#[trigger] self.found@[i].path_view(), self.found@[i].len, self.excluded(), self.min_size_spec()) by {
                assert(self.found_view()[i] == (self.found@[i].path_view(), self.found@[i].len));
                assert(candidate_ok(self.found_view()[i].0, self.found_view()[i].1, self.excluded(), self.min_size));
            }
        }
        self.found
    }
}

} // verus!
