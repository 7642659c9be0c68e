//! A short-lived cache of directory listings, keyed by path, on a clock that
//! the caller supplies in milliseconds.
use vstd::prelude::*;
use crate::entry::{DirectoryContents, FileEntry};

verus! {

/// How long a stored listing may be served, in milliseconds.
pub const CACHE_TTL_MS: u64 = 30000;

/// A record stored at `created_at` is still served at `now`. A clock that
/// appears to run backwards counts as no time elapsed.
pub open spec fn is_live(created_at: u64, now: u64) -> bool {
    now < created_at || now - created_at < CACHE_TTL_MS
}

pub struct CacheRecord {
    pub path: String,
    pub data: DirectoryContents,
    pub created_at: u64,
}

/// Listings by path; each path has at most one record.
pub struct DirectoryCache {
    records: Vec<CacheRecord>,
}

/// The cache a process shares between all listings: empty at first. The
/// caller keeps the one it gets behind a lock for the life of the process.
pub fn get_directory_cache() -> (r: DirectoryCache)
    ensures
        r.wf(),
        r.records().len() == 0,
{
    DirectoryCache::new()
}

fn live_exec(created_at: u64, now: u64) -> (r: bool)
    ensures
        r == is_live(created_at, now),
{
    now < created_at || now - created_at < CACHE_TTL_MS
}

/// Some live record in `s` for `p` at `now` holds `d`.
pub open spec fn seq_serves(s: Seq<CacheRecord>, p: Seq<char>, now: u64, d: (Seq<char>, Seq<FileEntry>)) -> bool {
    exists|i: int|
        0 <= i < s.len() && #[trigger] s[i].path@ == p && is_live(s[i].created_at, now) && s[i].data@ == d
}

/// Dropping a record changes nothing that it did not itself serve.
proof fn lemma_remove_keeps(s: Seq<CacheRecord>, i: int, p: Seq<char>, now: u64, d: (Seq<char>, Seq<FileEntry>))
    requires
        0 <= i < s.len(),
        !(s[i].path@ == p && is_live(s[i].created_at, now)),
    ensures
        seq_serves(s.remove(i), p, now, d) <==> seq_serves(s, p, now, d),
{
    let t = s.remove(i);
    if seq_serves(s, p, now, d) {
        let j = choose|j: int|
            0 <= j < s.len() && #[trigger] s[j].path@ == p && is_live(s[j].created_at, now) && s[j].data@ == d;
        if j < i {
            assert(t[j] == s[j]);
        } else {
            assert(t[j - 1] == s[j]);
        }
    }
    if seq_serves(t, p, now, d) {
        let j = choose|j: int|
            0 <= j < t.len() && #[trigger] t[j].path@ == p && is_live(t[j].created_at, now) && t[j].data@ == d;
        if j < i {
            assert(t[j] == s[j]);
        } else {
            assert(t[j] == s[j + 1]);
        }
    }
}

/// Dropping a record keeps paths unique.
proof fn lemma_remove_unique(s: Seq<CacheRecord>, i: int)
    requires
        0 <= i < s.len(),
        forall|a: int, b: int| 0 <= a < b < s.len() ==> s[a].path@ != s[b].path@,
    ensures
        forall|a: int, b: int| 0 <= a < b < s.remove(i).len() ==> s.remove(i)[a].path@ != s.remove(i)[b].path@,
{
    let t = s.remove(i);
    assert forall|a: int, b: int| 0 <= a < b < t.len() implies t[a].path@ != t[b].path@ by {
        let a0 = if a < i { a } else { a + 1 };
        let b0 = if b < i { b } else { b + 1 };
        assert(t[a] == s[a0]);
        assert(t[b] == s[b0]);
    }
}

impl DirectoryCache {
    pub closed spec fn records(&self) -> Seq<CacheRecord> {
        self.records@
    }

    /// No two records share a path.
    pub open spec fn wf(&self) -> bool {
        forall|i: int, j: int|
            0 <= i < j < self.records().len() ==> self.records()[i].path@ != self.records()[j].path@
    }

    /// Some live record for `p` at `now` holds `d`.
    pub open spec fn serves(&self, p: Seq<char>, now: u64, d: (Seq<char>, Seq<FileEntry>)) -> bool {
        seq_serves(self.records(), p, now, d)
    }

    /// A record for `p` holding `d` was stored at `at`.
    pub open spec fn holds_record(&self, p: Seq<char>, d: (Seq<char>, Seq<FileEntry>), at: u64) -> bool {
        exists|i: int|
            0 <= i < self.records().len() && #[trigger] self.records()[i].path@ == p
                && self.records()[i].data@ == d && self.records()[i].created_at == at
    }

    /// Some live record for `p` exists at `now`.
    pub open spec fn has_live(&self, p: Seq<char>, now: u64) -> bool {
        exists|i: int|
            0 <= i < self.records().len() && #[trigger] self.records()[i].path@ == p && is_live(
                self.records()[i].created_at,
                now,
            )
    }

    pub fn new() -> (r: DirectoryCache)
        ensures
            r.wf(),
            r.records().len() == 0,
    {
        DirectoryCache { records: Vec::new() }
    }

    /// A record for one path holds one listing.
    pub proof fn lemma_serves_unique(&self, p: Seq<char>, now: u64, d1: (Seq<char>, Seq<FileEntry>), d2: (Seq<char>, Seq<FileEntry>))
        requires
            self.wf(),
            self.serves(p, now, d1),
            self.serves(p, now, d2),
        ensures
            d1 == d2,
    {
        let i = choose|i: int|
            0 <= i < self.records().len() && #[trigger] self.records()[i].path@ == p && is_live(
                self.records()[i].created_at,
                now,
            ) && self.records()[i].data@ == d1;
        let j = choose|j: int|
            0 <= j < self.records().len() && #[trigger] self.records()[j].path@ == p && is_live(
                self.records()[j].created_at,
                now,
            ) && self.records()[j].data@ == d2;
        if i < j {
        } else if j < i {
        }
    }

    /// The listing stored for `path`, unless there is none or it is older
    /// than the time to live.
    pub fn lookup(&self, path: &str, now: u64) -> (r: Option<DirectoryContents>)
        requires
            self.wf(),
        ensures
            r is Some <==> self.has_live(path@, now),
            r is Some ==> self.serves(path@, now, r->0@),
    {
        let key = String::from_str(path);
        let mut i: usize = 0;
        while i < self.records.len()
            invariant
                key@ == path@,
                i <= self.records().len(),
                forall|k: int|
                    0 <= k < i ==> !(#[trigger] self.records()[k].path@ == path@ && is_live(
                        self.records()[k].created_at,
                        now,
                    )),
            decreases self.records().len() - i,
        {
            let rec = &self.records[i];
            if rec.path == key && live_exec(rec.created_at, now) {
                return Some(rec.data.duplicate());
            }
            i = i + 1;
        }
        None
    }

    /// Forgets whatever is stored for `path`.
    pub fn invalidate(&mut self, path: &str)
        requires
            old(self).wf(),
        ensures
            final(self).wf(),
            forall|t: u64| !#[trigger] final(self).has_live(path@, t),
            forall|p: Seq<char>, t: u64, d: (Seq<char>, Seq<FileEntry>)|
                p != path@ ==> (#[trigger] final(self).serves(p, t, d) <==> old(self).serves(p, t, d)),
    {
        let key = String::from_str(path);
        let mut i: usize = 0;
        while i < self.records.len()
            invariant
                key@ == path@,
                self.wf(),
                self.records() == old(self).records(),
                i <= self.records().len(),
                forall|k: int| 0 <= k < i ==> self.records()[k].path@ != path@,
            decreases self.records().len() - i,
        {
            if self.records[i].path == key {
                let ghost before = self.records();
                self.records.remove(i);
                proof {
                    assert(before[i as int].path@ == path@);
                    lemma_remove_unique(before, i as int);
                    assert forall|k: int| i <= k < self.records().len() implies self.records()[k].path@ != path@ by {
                        assert(self.records()[k] == before[k + 1]);
                        assert(before[i as int].path@ != before[k + 1].path@);
                    }
                    assert forall|p: Seq<char>, t: u64, d: (Seq<char>, Seq<FileEntry>)|
                        p != path@ implies (#[trigger] self.serves(p, t, d) <==> old(self).serves(p, t, d)) by {
                        lemma_remove_keeps(before, i as int, p, t, d);
                    }
                }
                return;
            }
            i = i + 1;
        }
    }

    /// Drops every record that is no longer live at `now`.
    pub fn evict_expired(&mut self, now: u64)
        requires
            old(self).wf(),
        ensures
            final(self).wf(),
            forall|i: int| 0 <= i < final(self).records().len() ==> is_live(#[trigger] final(self).records()[i].created_at, now),
            forall|p: Seq<char>, d: (Seq<char>, Seq<FileEntry>)|
                #[trigger] final(self).serves(p, now, d) <==> old(self).serves(p, now, d),
    {
        let mut i: usize = 0;
        while i < self.records.len()
            invariant
                self.wf(),
                i <= self.records().len(),
                forall|k: int| 0 <= k < i ==> is_live(#[trigger] self.records()[k].created_at, now),
                forall|p: Seq<char>, d: (Seq<char>, Seq<FileEntry>)|
                    #[trigger] self.serves(p, now, d) <==> old(self).serves(p, now, d),
            decreases self.records().len() - i,
        {
            if live_exec(self.records[i].created_at, now) {
                i = i + 1;
            } else {
                let ghost before = self.records();
                let ghost prev = *self;
                self.records.remove(i);
                proof {
                    lemma_remove_unique(before, i as int);
                    assert forall|k: int| 0 <= k < i implies is_live(#[trigger] self.records()[k].created_at, now) by {
                        assert(self.records()[k] == before[k]);
                    }
                    assert forall|p: Seq<char>, d: (Seq<char>, Seq<FileEntry>)|
                        #[trigger] self.serves(p, now, d) <==> old(self).serves(p, now, d) by {
                        lemma_remove_keeps(before, i as int, p, now, d);
                        assert(prev.serves(p, now, d) <==> old(self).serves(p, now, d));
                    }
                }
            }
        }
    }

    /// Stores the listing of `path` read at `now`, replacing any earlier one,
    /// and drops every record that is no longer live.
    pub fn store(&mut self, path: String, data: DirectoryContents, now: u64)
        requires
            old(self).wf(),
        ensures
            final(self).wf(),
            final(self).serves(path@, now, data@),
            final(self).holds_record(path@, data@, now),
            forall|d: (Seq<char>, Seq<FileEntry>)| #[trigger] final(self).serves(path@, now, d) ==> d == data@,
            forall|p: Seq<char>, d: (Seq<char>, Seq<FileEntry>)|
                p != path@ ==> (#[trigger] final(self).serves(p, now, d) <==> old(self).serves(p, now, d)),
            forall|i: int| 0 <= i < final(self).records().len() ==> is_live(#[trigger] final(self).records()[i].created_at, now),
    {
        self.invalidate(path.as_str());
        let ghost mid = *self;
        self.evict_expired(now);
        let ghost ev = *self;
        let ghost before = self.records();
        assert(forall|k: int| 0 <= k < before.len() ==> before[k].path@ != path@) by {
            assert forall|k: int| 0 <= k < before.len() implies before[k].path@ != path@ by {
                if before[k].path@ == path@ {
                    assert(is_live(before[k].created_at, now));
                    assert(self.serves(path@, now, before[k].data@));
                    assert(mid.serves(path@, now, before[k].data@));
                    let j = choose|j: int|
                        0 <= j < mid.records().len() && #[trigger] mid.records()[j].path@ == path@
                            && is_live(mid.records()[j].created_at, now) && mid.records()[j].data@ == before[k].data@;
                    assert(mid.has_live(path@, now));
                }
            }
        }
        let ghost key = path@;
        let ghost listing = data@;
        self.records.push(CacheRecord { path, data, created_at: now });
        proof {
            let s = self.records();
            let n = before.len() as int;
            assert(s[n].path@ == key);
            assert forall|a: int, b: int| 0 <= a < b < s.len() implies s[a].path@ != s[b].path@ by {
                assert(s[a] == before[a]);
                if b < n { assert(s[b] == before[b]); }
            }
            assert forall|p: Seq<char>, d: (Seq<char>, Seq<FileEntry>)|
                p != key implies (#[trigger] self.serves(p, now, d) <==> old(self).serves(p, now, d)) by {
                assert(ev.serves(p, now, d) <==> mid.serves(p, now, d));
                assert(mid.serves(p, now, d) <==> old(self).serves(p, now, d));
                if seq_serves(s, p, now, d) {
                    let j = choose|j: int|
                        0 <= j < s.len() && #[trigger] s[j].path@ == p && is_live(s[j].created_at, now) && s[j].data@ == d;
                    assert(s[j] == before[j]);
                }
                if seq_serves(before, p, now, d) {
                    let j = choose|j: int|
                        0 <= j < before.len() && #[trigger] before[j].path@ == p && is_live(before[j].created_at, now) && before[j].data@ == d;
                    assert(s[j] == before[j]);
                }
            }
            assert forall|d: (Seq<char>, Seq<FileEntry>)| #[trigger] self.serves(key, now, d) implies d == listing by {
                let j = choose|j: int|
                    0 <= j < s.len() && #[trigger] s[j].path@ == key && is_live(s[j].created_at, now) && s[j].data@ == d;
                if j < n { assert(s[j] == before[j]); }
            }
            assert(s[n].data@ == listing && s[n].created_at == now);
            assert forall|i: int| 0 <= i < s.len() implies is_live(#[trigger] s[i].created_at, now) by {
                if i < n { assert(s[i] == before[i]); }
            }
        }
    }

    /// A listing stored at `stored_at` is what a lookup of its path returns
    /// for as long as it is live, and a lookup returns nothing once it has
    /// expired.
    pub proof fn lemma_served_until_ttl(
        &self,
        p: Seq<char>,
        d: (Seq<char>, Seq<FileEntry>),
        stored_at: u64,
        later: u64,
    )
        requires
            self.wf(),
            self.holds_record(p, d, stored_at),
        ensures
            is_live(stored_at, later) ==> self.has_live(p, later) && self.serves(p, later, d),
            is_live(stored_at, later) ==> forall|e: (Seq<char>, Seq<FileEntry>)| #[trigger] self.serves(p, later, e) ==> e == d,
            !is_live(stored_at, later) ==> !self.has_live(p, later),
    {
        let i = choose|i: int|
            0 <= i < self.records().len() && #[trigger] self.records()[i].path@ == p
                && self.records()[i].data@ == d && self.records()[i].created_at == stored_at;
        if is_live(stored_at, later) {
            assert(self.serves(p, later, d));
            assert forall|e: (Seq<char>, Seq<FileEntry>)| #[trigger] self.serves(p, later, e) implies e == d by {
                self.lemma_serves_unique(p, later, d, e);
            }
        }
        if self.has_live(p, later) {
            let j = choose|j: int|
                0 <= j < self.records().len() && #[trigger] self.records()[j].path@ == p && is_live(
                    self.records()[j].created_at,
                    later,
                );
            if i < j {
            } else if j < i {
            }
        }
    }
}

} // verus!
