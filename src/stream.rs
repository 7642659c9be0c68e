//! A search that hands out each kept match as soon as it is found, framed by
//! one start notice and one completion notice.
use vstd::prelude::*;
use crate::entry::FileEntry;
use crate::pattern::lower_of;
use crate::search::{
    DEFAULT_MAX_DEPTH, DEFAULT_MAX_RESULTS, PendingDir, SearchWalk, accept_step, acceptable, reports_child, examine_step,
    next_directory_step,
};

verus! {

/// A message of a streaming search.
pub enum SearchNotice {
    Started,
    Found(FileEntry),
    Completed,
}

impl SearchNotice {
    /// The name of the event that carries this notice.
    pub fn event_name(&self) -> (r: String)
        ensures
            r@ == (match self {
                SearchNotice::Started => "search-started"@,
                SearchNotice::Found(_) => "search-result"@,
                SearchNotice::Completed => "search-completed"@,
            }),
    {
        match self {
            SearchNotice::Started => String::from_str("search-started"),
            SearchNotice::Found(_) => String::from_str("search-result"),
            SearchNotice::Completed => String::from_str("search-completed"),
        }
    }
}

#[derive(PartialEq, Eq, Structural, Clone, Copy)]
pub enum StreamPhase {
    Idle,
    Running,
    Done,
}

/// The notices handed out so far are: nothing while idle; a start notice and
/// then matches while running; and when done, those followed by one
/// completion notice.
pub open spec fn well_framed(log: Seq<SearchNotice>, phase: StreamPhase) -> bool {
    match phase {
        StreamPhase::Idle => log.len() == 0,
        StreamPhase::Running => {
            &&& log.len() >= 1
            &&& log[0] is Started
            &&& forall|k: int| 1 <= k < log.len() ==> (#[trigger] log[k]) is Found
        },
        StreamPhase::Done => {
            &&& log.len() >= 2
            &&& log[0] is Started
            &&& log[log.len() - 1] is Completed
            &&& forall|k: int| 1 <= k < log.len() - 1 ==> (#[trigger] log[k]) is Found
        },
    }
}

/// How many matches a log holds.
pub open spec fn found_count(log: Seq<SearchNotice>, phase: StreamPhase) -> nat {
    match phase {
        StreamPhase::Idle => 0,
        StreamPhase::Running => (log.len() - 1) as nat,
        StreamPhase::Done => (log.len() - 2) as nat,
    }
}

pub struct SearchStream {
    walk: SearchWalk,
    phase: StreamPhase,
    log: Ghost<Seq<SearchNotice>>,
}

impl SearchStream {
    pub closed spec fn walk(&self) -> SearchWalk {
        self.walk
    }

    pub closed spec fn phase(&self) -> StreamPhase {
        self.phase
    }

    /// Every notice handed out so far, in order.
    pub closed spec fn log(&self) -> Seq<SearchNotice> {
        self.log@
    }

    pub open spec fn wf(&self) -> bool {
        &&& self.walk().wf()
        &&& !self.walk().collects()
        &&& well_framed(self.log(), self.phase())
        &&& found_count(self.log(), self.phase()) == self.walk().accepted()
        &&& forall|k: int|
            1 <= k < self.log().len() && (#[trigger] self.log()[k]) is Found ==> self.log()[k]->0.path@
                == self.walk().kept_paths()[k - 1]@ && reports_child(self.walk().query(), self.log()[k]->0.name@)
    }

    /// A streaming search from `root`, with the limits defaulting to 100
    /// levels and 500 results.
    pub fn new(root: String, query: &str, max_depth: Option<u32>, max_results: Option<usize>) -> (r: SearchStream)
        ensures
            r.wf(),
            r.phase() == StreamPhase::Idle,
            r.walk().query() == lower_of(query@),
            r.walk().max_depth() == (match max_depth { Some(d) => d, None => DEFAULT_MAX_DEPTH }),
            r.walk().max_results() == (match max_results { Some(m) => m, None => DEFAULT_MAX_RESULTS }),
            r.walk().pending().len() == 1,
            r.walk().pending()[0].path == root,
            r.walk().pending()[0].depth == 0,
            r.walk().offered() == 0,
            !r.walk().stopped(),
    {
        SearchStream {
            walk: SearchWalk::new(root, query, max_depth, max_results, false),
            phase: StreamPhase::Idle,
            log: Ghost(Seq::empty()),
        }
    }

    /// The start notice, handed out once, before anything else.
    pub fn begin(&mut self) -> (r: Option<SearchNotice>)
        requires
            old(self).wf(),
        ensures
            final(self).wf(),
            final(self).walk() == old(self).walk(),
            old(self).phase() == StreamPhase::Idle ==> r == Some(SearchNotice::Started)
                && final(self).phase() == StreamPhase::Running
                && final(self).log() == old(self).log().push(SearchNotice::Started),
            old(self).phase() != StreamPhase::Idle ==> r is None && final(self).phase() == old(self).phase()
                && final(self).log() == old(self).log(),
    {
        if self.phase == StreamPhase::Idle {
            self.phase = StreamPhase::Running;
            self.log = Ghost(self.log@.push(SearchNotice::Started));
            assert(self.log@.len() == 1);
            Some(SearchNotice::Started)
        } else {
            None
        }
    }

    pub fn is_stopped(&self) -> (r: bool)
        ensures
            r == self.walk().stopped(),
    {
        self.walk.is_stopped()
    }

    pub fn wants_item_count(&self) -> (r: bool)
        ensures
            r == self.walk().wants_item_count_spec(),
    {
        self.walk.wants_item_count()
    }

    /// The next directory to read; see `SearchWalk::next_directory`.
    pub fn next_directory(&mut self) -> (r: Option<PendingDir>)
        requires
            old(self).wf(),
        ensures
            final(self).wf(),
            final(self).phase() == old(self).phase(),
            final(self).log() == old(self).log(),
            next_directory_step(old(self).walk(), final(self).walk(), r),
    {
        self.walk.next_directory()
    }

    /// Looks at one child of a directory at `depth`; see
    /// `SearchWalk::examine`.
    pub fn examine(&mut self, depth: u32, name: &str, path: String, is_directory: bool) -> (r: bool)
        requires
            old(self).wf(),
            depth < old(self).walk().max_depth(),
        ensures
            final(self).wf(),
            final(self).phase() == old(self).phase(),
            final(self).log() == old(self).log(),
            examine_step(old(self).walk(), final(self).walk(), depth, name@, path, is_directory, r),
    {
        self.walk.examine(depth, name, path, is_directory)
    }

    /// Offers a match. While running and below the result limit it is kept
    /// and handed back as a notice; at the limit it is dropped and the
    /// search stops.
    pub fn offer(&mut self, entry: FileEntry) -> (r: Option<SearchNotice>)
        requires
            old(self).wf(),
        ensures
            final(self).wf(),
            final(self).phase() == old(self).phase(),
            r is Some <==> (old(self).phase() == StreamPhase::Running && acceptable(old(self).walk(), entry)
                && old(self).walk().accepted() < old(self).walk().max_results()),
            old(self).phase() == StreamPhase::Running ==> accept_step(old(self).walk(), final(self).walk(), entry, r is Some),
            old(self).phase() != StreamPhase::Running ==> final(self).walk() == old(self).walk(),
            r is Some ==> r == Some(SearchNotice::Found(entry)) && final(self).log() == old(self).log().push(SearchNotice::Found(entry)),
            r is None ==> final(self).log() == old(self).log(),
    {
        if self.phase != StreamPhase::Running {
            return None;
        }
        if self.walk.accept(&entry) {
            self.log = Ghost(self.log@.push(SearchNotice::Found(entry)));
            assert forall|k: int| 1 <= k < self.log@.len() implies (#[trigger] self.log@[k]) is Found by {
                if k < old(self).log().len() {
                    assert(self.log@[k] == old(self).log()[k]);
                }
            }
            Some(SearchNotice::Found(entry))
        } else {
            None
        }
    }

    /// The completion notice, handed out once, after the start notice and
    /// every match.
    pub fn finish(&mut self) -> (r: Option<SearchNotice>)
        requires
            old(self).wf(),
        ensures
            final(self).wf(),
            final(self).walk() == old(self).walk(),
            old(self).phase() == StreamPhase::Running ==> r == Some(SearchNotice::Completed)
                && final(self).phase() == StreamPhase::Done
                && final(self).log() == old(self).log().push(SearchNotice::Completed),
            old(self).phase() != StreamPhase::Running ==> r is None && final(self).phase() == old(self).phase()
                && final(self).log() == old(self).log(),
    {
        if self.phase == StreamPhase::Running {
            self.phase = StreamPhase::Done;
            self.log = Ghost(self.log@.push(SearchNotice::Completed));
            assert forall|k: int| 1 <= k < self.log@.len() - 1 implies (#[trigger] self.log@[k]) is Found by {
                assert(self.log@[k] == old(self).log()[k]);
            }
            Some(SearchNotice::Completed)
        } else {
            None
        }
    }

    /// A finished stream handed out one start notice first, one completion
    /// notice last, and between them only matches of the query that are not
    /// hidden, each at its own path, no more than the result limit.
    pub proof fn lemma_framed(&self)
        requires
            self.wf(),
            self.phase() == StreamPhase::Done,
        ensures
            self.log()[0] is Started,
            self.log()[self.log().len() - 1] is Completed,
            forall|k: int| 0 <= k < self.log().len() && (#[trigger] self.log()[k]) is Started ==> k == 0,
            forall|k: int| 0 <= k < self.log().len() && (#[trigger] self.log()[k]) is Completed ==> k == self.log().len() - 1,
            self.log().len() - 2 <= self.walk().max_results(),
            forall|k: int|
                1 <= k < self.log().len() - 1 ==> reports_child(self.walk().query(), (#[trigger] self.log()[k])->0.name@),
            forall|k: int, m: int|
                1 <= k < m < self.log().len() - 1 ==> (#[trigger] self.log()[k])->0.path@ != (#[trigger] self.log()[m])->0.path@,
    {
        assert forall|k: int, m: int|
            1 <= k < m < self.log().len() - 1 implies (#[trigger] self.log()[k])->0.path@ != (#[trigger] self.log()[m])->0.path@ by {
            assert(self.log()[k] is Found);
            assert(self.log()[m] is Found);
            assert(self.walk().kept_paths()[k - 1]@ != self.walk().kept_paths()[m - 1]@);
        }
        assert forall|k: int| 1 <= k < self.log().len() - 1 implies reports_child(self.walk().query(), (#[trigger] self.log()[k])->0.name@) by {
            assert(self.log()[k] is Found);
        }
        assert forall|k: int| 0 <= k < self.log().len() && (#[trigger] self.log()[k]) is Started implies k == 0 by {
            if 1 <= k < self.log().len() - 1 {
                assert(self.log()[k] is Found);
            }
        }
        assert forall|k: int| 0 <= k < self.log().len() && (#[trigger] self.log()[k]) is Completed implies k == self.log().len() - 1 by {
            if 1 <= k < self.log().len() - 1 {
                assert(self.log()[k] is Found);
            }
        }
    }
}

} // verus!
