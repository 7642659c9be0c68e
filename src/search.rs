//! The decisions of a depth- and result-bounded recursive search. The caller
//! reads directories and metadata; this state machine says which directory to
//! read next, which children match or are queued, and which matches are kept.
use vstd::prelude::*;
use vstd::string::*;
use crate::entry::{FileEntry, is_listing_order, sort_entries};
use crate::pattern::{lower_of, lower_chars, matches_folded, pattern_matches, starts_with};

verus! {

pub const DEFAULT_MAX_DEPTH: u32 = 100;

pub const DEFAULT_MAX_RESULTS: usize = 500;

/// Matches are enriched in batches of this many concurrent tasks.
pub const MATCH_BATCH: usize = 50;

/// Subdirectories are searched in batches of this many concurrent walks.
pub const SUBDIR_BATCH: usize = 10;

/// Child counts of matched directories are read only while fewer results
/// than this have been kept.
pub const ITEM_COUNT_LIMIT: usize = 50;

/// A directory waiting to be read, at its depth below the search root.
pub struct PendingDir {
    pub path: String,
    pub depth: u32,
}

/// Names starting with a dot are never searched.
pub open spec fn is_hidden(name: Seq<char>) -> bool {
    starts_with(name, seq!['.'])
}

/// A child named `name` of a directory at `depth` is queued to be read.
pub open spec fn queues_child(max_depth: u32, depth: u32, name: Seq<char>, is_directory: bool) -> bool {
    !is_hidden(name) && is_directory && depth + 1 < max_depth
}

/// A child named `name` is reported as a match of the lowercased `query`.
pub open spec fn reports_child(query: Seq<char>, name: Seq<char>) -> bool {
    !is_hidden(name) && pattern_matches(lower_of(name), query)
}

pub open spec fn min_nat(a: nat, b: nat) -> nat {
    if a < b { a } else { b }
}

pub struct SearchWalk {
    query: Vec<char>,
    max_depth: u32,
    max_results: usize,
    pending: Vec<PendingDir>,
    found: Vec<FileEntry>,
    kept_paths: Vec<String>,
    accepted: usize,
    collect: bool,
    stopped: bool,
    offered: Ghost<nat>,
}

fn is_hidden_exec(name: &str) -> (r: bool)
    ensures
        r == is_hidden(name@),
{
    if name.unicode_len() == 0 {
        false
    } else {
        let c = name.get_char(0);
        assert(name@.subrange(0, 1) =~= seq![c]);
        if c != '.' {
            assert(seq![c][0] != seq!['.'][0]);
        }
        c == '.'
    }
}

/// A directory handed out to be read lies above the depth limit, so a child
/// of it lies at most at the limit, and whether it matches does not depend
/// on its depth: a match at the limit is reported. A queued child lies above
/// the limit, and a directory one level above the limit queues nothing.
pub proof fn lemma_depth_bound(
    w0: SearchWalk,
    w1: SearchWalk,
    dir: PendingDir,
    w2: SearchWalk,
    name: Seq<char>,
    path: String,
    is_directory: bool,
    hit: bool,
)
    requires
        w0.wf(),
        next_directory_step(w0, w1, Some(dir)),
        examine_step(w1, w2, dir.depth, name, path, is_directory, hit),
    ensures
        dir.depth < w0.max_depth(),
        dir.depth + 1 <= w0.max_depth(),
        hit == reports_child(w0.query(), name),
        w2.pending().len() > w1.pending().len() ==> w2.pending().last().depth == dir.depth + 1
            && w2.pending().last().depth < w0.max_depth(),
        dir.depth + 1 == w0.max_depth() ==> w2.pending() == w1.pending(),
{
}

impl SearchWalk {
    /// The lowercased query.
    pub closed spec fn query(&self) -> Seq<char> {
        self.query@
    }

    pub closed spec fn max_depth(&self) -> u32 {
        self.max_depth
    }

    pub closed spec fn max_results(&self) -> usize {
        self.max_results
    }

    /// Directories still to be read; the last is read first.
    pub closed spec fn pending(&self) -> Seq<PendingDir> {
        self.pending@
    }

    /// The kept matches, when the walk collects them.
    pub closed spec fn found(&self) -> Seq<FileEntry> {
        self.found@
    }

    /// How many matches were kept.
    pub closed spec fn accepted(&self) -> nat {
        self.accepted as nat
    }

    /// The paths of the kept matches, in the order they were kept.
    pub closed spec fn kept_paths(&self) -> Seq<String> {
        self.kept_paths@
    }

    /// A match at `p` was kept already.
    pub open spec fn has_kept(&self, p: Seq<char>) -> bool {
        exists|i: int| 0 <= i < self.kept_paths().len() && (#[trigger] self.kept_paths()[i])@ == p
    }

    /// How many acceptable matches were offered to be kept.
    pub closed spec fn offered(&self) -> nat {
        self.offered@
    }

    pub closed spec fn collects(&self) -> bool {
        self.collect
    }

    pub closed spec fn stopped(&self) -> bool {
        self.stopped
    }

    pub open spec fn wf(&self) -> bool {
        &&& self.accepted() <= self.max_results()
        &&& self.accepted() == min_nat(self.offered(), self.max_results() as nat)
        &&& self.kept_paths().len() == self.accepted()
        &&& forall|i: int, j: int|
            0 <= i < j < self.kept_paths().len() ==> (#[trigger] self.kept_paths()[i])@ != (#[trigger] self.kept_paths()[j])@
        &&& self.collects() ==> forall|i: int|
            0 <= i < self.found().len() ==> (#[trigger] self.found()[i]).path@ == self.kept_paths()[i]@
                && reports_child(self.query(), self.found()[i].name@)
        &&& self.stopped() ==> self.accepted() == self.max_results()
        &&& self.collects() ==> self.found().len() == self.accepted()
        &&& !self.collects() ==> self.found().len() == 0
        &&& forall|k: int|
            0 <= k < self.pending().len() ==> (#[trigger] self.pending()[k]).depth < self.max_depth()
                || self.pending()[k].depth == 0
    }

    /// A walk from `root` for `query`, with the limits defaulting to 100
    /// levels and 500 results. With `collect` the kept matches are gathered;
    /// without, only counted.
    pub fn new(
        root: String,
        query: &str,
        max_depth: Option<u32>,
        max_results: Option<usize>,
        collect: bool,
    ) -> (r: SearchWalk)
        ensures
            r.wf(),
            r.query() == lower_of(query@),
            r.max_depth() == (match max_depth { Some(d) => d, None => DEFAULT_MAX_DEPTH }),
            r.max_results() == (match max_results { Some(m) => m, None => DEFAULT_MAX_RESULTS }),
            r.pending().len() == 1,
            r.pending()[0].path == root,
            r.pending()[0].depth == 0,
            r.found().len() == 0,
            r.accepted() == 0,
            r.offered() == 0,
            r.kept_paths().len() == 0,
            r.collects() == collect,
            !r.stopped(),
    {
        let max_depth = match max_depth {
            Some(d) => d,
            None => DEFAULT_MAX_DEPTH,
        };
        let max_results = match max_results {
            Some(m) => m,
            None => DEFAULT_MAX_RESULTS,
        };
        let mut pending: Vec<PendingDir> = Vec::new();
        pending.push(PendingDir { path: root, depth: 0 });
        SearchWalk {
            query: lower_chars(query),
            max_depth,
            max_results,
            pending,
            found: Vec::new(),
            kept_paths: Vec::new(),
            accepted: 0,
            collect,
            stopped: false,
            offered: Ghost(0),
        }
    }

    pub fn is_stopped(&self) -> (r: bool)
        ensures
            r == self.stopped(),
    {
        self.stopped
    }

    pub fn accepted_count(&self) -> (r: usize)
        ensures
            r == self.accepted(),
    {
        self.accepted
    }

    pub open spec fn wants_item_count_spec(&self) -> bool {
        self.accepted() < ITEM_COUNT_LIMIT
    }

    /// Whether the child count of a matched directory is still worth reading.
    pub fn wants_item_count(&self) -> (r: bool)
        ensures
            r == self.wants_item_count_spec(),
    {
        self.accepted < ITEM_COUNT_LIMIT
    }

    /// The next directory to read. Directories at or past the depth limit
    /// are dropped unread. Once the walk is stopped, or a directory is due
    /// while the result limit is reached (which stops the walk), nothing more
    /// is read.
    pub fn next_directory(&mut self) -> (r: Option<PendingDir>)
        requires
            old(self).wf(),
        ensures
            final(self).wf(),
            next_directory_step(*old(self), *final(self), r),
    {
        if self.stopped {
            self.pending.clear();
            return None;
        }
        while self.pending.len() > 0
            invariant
                self.wf(),
                !self.stopped,
                !old(self).stopped(),
                self.query() == old(self).query(),
                self.max_depth() == old(self).max_depth(),
                self.max_results() == old(self).max_results(),
                self.found() == old(self).found(),
                self.accepted() == old(self).accepted(),
                self.offered() == old(self).offered(),
                self.kept_paths() == old(self).kept_paths(),
                self.collects() == old(self).collects(),
                self.pending().len() <= old(self).pending().len(),
                self.pending() == old(self).pending().subrange(0, self.pending().len() as int),
                forall|k: int| self.pending().len() <= k < old(self).pending().len()
                    ==> (#[trigger] old(self).pending()[k]).depth >= old(self).max_depth(),
            decreases self.pending().len(),
        {
            let ghost before = self.pending();
            let dir = self.pending.pop().unwrap();
            assert(dir == old(self).pending()[self.pending().len() as int]);
            if dir.depth < self.max_depth {
                if self.accepted >= self.max_results {
                    self.stopped = true;
                    self.pending.clear();
                    return None;
                }
                return Some(dir);
            }
        }
        None
    }

    /// Looks at one child of a directory at `depth`: queues it when it is a
    /// directory whose children still lie within the depth limit, and says
    /// whether it matches the query. Hidden names are neither queued nor
    /// matched.
    pub fn examine(&mut self, depth: u32, name: &str, path: String, is_directory: bool) -> (r: bool)
        requires
            old(self).wf(),
            depth < old(self).max_depth(),
        ensures
            final(self).wf(),
            examine_step(*old(self), *final(self), depth, name@, path, is_directory, r),
    {
        if is_hidden_exec(name) {
            return false;
        }
        let folded = lower_chars(name);
        let hit = matches_folded(&folded, &self.query);
        if is_directory && depth + 1 < self.max_depth {
            let ghost before = self.pending();
            self.pending.push(PendingDir { path, depth: depth + 1 });
            assert forall|k: int| 0 <= k < self.pending().len() implies (#[trigger] self.pending()[k]).depth
                < self.max_depth() || self.pending()[k].depth == 0 by {
                if k < before.len() {
                    assert(self.pending()[k] == before[k]);
                }
            }
        }
        hit
    }

    /// Offers a match to be kept. An entry whose name does not match, is
    /// hidden, or whose path was kept before is turned away with no effect.
    /// Otherwise it is kept while fewer than the result limit are; at the
    /// limit it is dropped and the walk stops.
    pub fn accept(&mut self, entry: &FileEntry) -> (r: bool)
        requires
            old(self).wf(),
        ensures
            final(self).wf(),
            accept_step(*old(self), *final(self), *entry, r),
    {
        if is_hidden_exec(entry.name.as_str()) {
            return false;
        }
        let folded = lower_chars(entry.name.as_str());
        if !matches_folded(&folded, &self.query) {
            return false;
        }
        assert(reports_child(self.query(), entry.name@));
        let mut i: usize = 0;
        while i < self.kept_paths.len()
            invariant
                *self == *old(self),
                self.wf(),
                reports_child(self.query(), entry.name@),
                i <= self.kept_paths().len(),
                forall|k: int| 0 <= k < i ==> (#[trigger] self.kept_paths()[k])@ != entry.path@,
            decreases self.kept_paths().len() - i,
        {
            if self.kept_paths[i] == entry.path {
                return false;
            }
            i = i + 1;
        }
        self.offered = Ghost(self.offered@ + 1);
        assert(self.pending() == old(self).pending());
        if self.accepted < self.max_results {
            let ghost before = *self;
            self.accepted = self.accepted + 1;
            self.kept_paths.push(entry.path.clone());
            if self.collect {
                self.found.push(entry.duplicate());
            }
            assert forall|a: int, b: int| 0 <= a < b < self.kept_paths().len() implies
                (#[trigger] self.kept_paths()[a])@ != (#[trigger] self.kept_paths()[b])@ by {
                assert(self.kept_paths()[a] == before.kept_paths()[a]);
                if b < before.kept_paths().len() {
                    assert(self.kept_paths()[b] == before.kept_paths()[b]);
                }
            }
            if self.collect {
                assert forall|k: int| 0 <= k < self.found().len() implies (#[trigger] self.found()[k]).path@
                    == self.kept_paths()[k]@ && reports_child(self.query(), self.found()[k].name@) by {
                    if k < before.found().len() {
                        assert(self.found()[k] == before.found()[k]);
                        assert(self.kept_paths()[k] == before.kept_paths()[k]);
                    }
                }
            }
            true
        } else {
            self.stopped = true;
            false
        }
    }

    /// The kept matches in listing order.
    pub fn into_results(self) -> (r: Vec<FileEntry>)
        requires
            self.wf(),
        ensures
            is_listing_order(r@),
            r@.to_multiset() == self.found().to_multiset(),
            r@.len() == self.found().len(),
            self.collects() ==> forall|i: int| 0 <= i < r@.len() ==> reports_child(self.query(), (#[trigger] r@[i]).name@),
    {
        let r = sort_entries(self.found);
        proof {
            vstd::seq_lib::to_multiset_len(r@);
            vstd::seq_lib::to_multiset_len(self.found@);
            assert forall|i: int| 0 <= i < r@.len() implies reports_child(self.query(), (#[trigger] r@[i]).name@) by {
                if self.collect {
                    let e = r@[i];
                    vstd::seq_lib::to_multiset_contains(r@, e);
                    vstd::seq_lib::to_multiset_contains(self.found@, e);
                    assert(r@.contains(e));
                    let j = choose|j: int| 0 <= j < self.found@.len() && self.found@[j] == e;
                    assert(self.found()[j] == e);
                }
            }
        }
        r
    }

    /// However many matches are offered, at most the result limit are kept,
    /// and exactly the limit when more than that were offered.
    pub proof fn lemma_result_bound(&self)
        requires
            self.wf(),
            self.collects(),
        ensures
            self.found().len() <= self.max_results(),
            self.offered() >= self.max_results() ==> self.found().len() == self.max_results(),
            self.offered() < self.max_results() ==> self.found().len() == self.offered(),
            self.stopped() ==> self.found().len() == self.max_results(),
            forall|i: int| 0 <= i < self.found().len() ==> reports_child(self.query(), (#[trigger] self.found()[i]).name@),
            forall|i: int, j: int|
                0 <= i < j < self.found().len() ==> (#[trigger] self.found()[i]).path@ != (#[trigger] self.found()[j]).path@,
    {
        assert forall|i: int, j: int|
            0 <= i < j < self.found().len() implies (#[trigger] self.found()[i]).path@ != (#[trigger] self.found()[j]).path@ by {
            assert(self.kept_paths()[i]@ != self.kept_paths()[j]@);
        }
    }
}

/// How one `next_directory` call changes the walk and what it returns.
pub open spec fn next_directory_step(pre: SearchWalk, post: SearchWalk, r: Option<PendingDir>) -> bool {
    &&& post.query() == pre.query()
    &&& post.max_depth() == pre.max_depth()
    &&& post.max_results() == pre.max_results()
    &&& post.found() == pre.found()
    &&& post.accepted() == pre.accepted()
    &&& post.offered() == pre.offered()
    &&& post.kept_paths() == pre.kept_paths()
    &&& post.collects() == pre.collects()
    &&& post.pending().len() <= pre.pending().len()
    &&& post.pending() =~= pre.pending().subrange(0, post.pending().len() as int)
    &&& post.stopped() == (pre.stopped() || (pre.accepted() >= pre.max_results()
            && exists|k: int| 0 <= k < pre.pending().len() && (#[trigger] pre.pending()[k]).depth < pre.max_depth()))
    &&& match r {
            Some(d) => {
                &&& !post.stopped()
                &&& post.pending().len() < pre.pending().len()
                &&& d.depth < post.max_depth()
                &&& d == pre.pending()[post.pending().len() as int]
                &&& forall|k: int| post.pending().len() < k < pre.pending().len()
                    ==> (#[trigger] pre.pending()[k]).depth >= pre.max_depth()
            },
            None => {
                &&& post.pending().len() == 0
                &&& !post.stopped() ==> forall|k: int| 0 <= k < pre.pending().len()
                    ==> (#[trigger] pre.pending()[k]).depth >= pre.max_depth()
            },
        }
}

/// How one `examine` call changes the walk and what it returns.
pub open spec fn examine_step(
    pre: SearchWalk,
    post: SearchWalk,
    depth: u32,
    name: Seq<char>,
    path: String,
    is_directory: bool,
    r: bool,
) -> bool {
    &&& r == reports_child(pre.query(), name)
    &&& post.pending() == (if queues_child(pre.max_depth(), depth, name, is_directory) {
            pre.pending().push(PendingDir { path, depth: (depth + 1) as u32 })
        } else {
            pre.pending()
        })
    &&& post.query() == pre.query()
    &&& post.max_depth() == pre.max_depth()
    &&& post.max_results() == pre.max_results()
    &&& post.found() == pre.found()
    &&& post.accepted() == pre.accepted()
    &&& post.offered() == pre.offered()
    &&& post.kept_paths() == pre.kept_paths()
    &&& post.collects() == pre.collects()
    &&& post.stopped() == pre.stopped()
}

/// How one `accept` call changes the walk and what it returns.
/// An offered entry may be kept: its name matches the query, it is not
/// hidden, and no match at its path was kept before.
pub open spec fn acceptable(w: SearchWalk, entry: FileEntry) -> bool {
    reports_child(w.query(), entry.name@) && !w.has_kept(entry.path@)
}

pub open spec fn accept_step(pre: SearchWalk, post: SearchWalk, entry: FileEntry, r: bool) -> bool {
    &&& r == (acceptable(pre, entry) && pre.accepted() < pre.max_results())
    &&& post.accepted() == (if r { pre.accepted() + 1 } else { pre.accepted() })
    &&& post.offered() == (if acceptable(pre, entry) { pre.offered() + 1 } else { pre.offered() })
    &&& post.kept_paths() == (if r { pre.kept_paths().push(entry.path) } else { pre.kept_paths() })
    &&& post.found() == (if r && pre.collects() {
            pre.found().push(entry)
        } else {
            pre.found()
        })
    &&& post.stopped() == (pre.stopped() || (acceptable(pre, entry) && !r))
    &&& post.pending() == pre.pending()
    &&& post.query() == pre.query()
    &&& post.max_depth() == pre.max_depth()
    &&& post.max_results() == pre.max_results()
    &&& post.collects() == pre.collects()
}

} // verus!
