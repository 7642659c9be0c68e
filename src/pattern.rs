//! Case-insensitive filename matching against a search query.
use vstd::prelude::*;

verus! {

/// What `str::to_lowercase` makes of a character sequence.
pub uninterp spec fn lower_of(s: Seq<char>) -> Seq<char>;

/// Relies on `str::to_lowercase`: the lowercase form depends on the characters
/// alone, and the empty string stays empty.
#[verifier::external_body]
pub(crate) fn lower_chars(s: &str) -> (r: Vec<char>)
    ensures
        r@ == lower_of(s@),
        s@.len() == 0 ==> r@.len() == 0,
{
    s.to_lowercase().chars().collect()
}

pub open spec fn starts_with(s: Seq<char>, prefix: Seq<char>) -> bool {
    prefix.len() <= s.len() && s.subrange(0, prefix.len() as int) == prefix
}

pub open spec fn ends_with(s: Seq<char>, suffix: Seq<char>) -> bool {
    suffix.len() <= s.len() && s.subrange(s.len() - suffix.len(), s.len() as int) == suffix
}

pub open spec fn occurs_at(s: Seq<char>, part: Seq<char>, i: int) -> bool {
    0 <= i && i + part.len() <= s.len() && s.subrange(i, i + part.len()) == part
}

pub open spec fn contains(s: Seq<char>, part: Seq<char>) -> bool {
    exists|i: int| occurs_at(s, part, i)
}

/// The rule on already lowercased text: `*.ext` matches names ending in
/// `.ext`; a dotted query without spaces matches names ending in it; any
/// other query matches names that contain it.
pub open spec fn pattern_matches(name: Seq<char>, query: Seq<char>) -> bool {
    if starts_with(query, seq!['*', '.']) {
        ends_with(name, query.subrange(1, query.len() as int))
    } else if starts_with(query, seq!['.']) && !query.contains(' ') {
        ends_with(name, query)
    } else {
        contains(name, query)
    }
}

/// Whether `part` occurs in `s` starting at position `at`.
fn occurs_at_exec(s: &Vec<char>, part: &Vec<char>, at: usize) -> (r: bool)
    requires
        at <= s@.len(),
    ensures
        r == occurs_at(s@, part@, at as int),
{
    if part.len() > s.len() - at {
        return false;
    }
    let mut k: usize = 0;
    while k < part.len()
        invariant
            at + part@.len() <= s@.len(),
            s@.len() <= usize::MAX,
            k <= part@.len(),
            forall|j: int| 0 <= j < k ==> s@[at + j] == part@[j],
        decreases part@.len() - k,
    {
        if s[at + k] != part[k] {
            assert(s@.subrange(at as int, at + part@.len())[k as int] != part@[k as int]);
            return false;
        }
        k = k + 1;
    }
    assert(s@.subrange(at as int, at + part@.len()) =~= part@);
    true
}

fn starts_with_exec(s: &Vec<char>, prefix: &Vec<char>) -> (r: bool)
    ensures
        r == starts_with(s@, prefix@),
{
    occurs_at_exec(s, prefix, 0)
}

fn ends_with_exec(s: &Vec<char>, suffix: &Vec<char>) -> (r: bool)
    ensures
        r == ends_with(s@, suffix@),
{
    if suffix.len() > s.len() {
        return false;
    }
    occurs_at_exec(s, suffix, s.len() - suffix.len())
}

fn contains_exec(s: &Vec<char>, part: &Vec<char>) -> (r: bool)
    ensures
        r == contains(s@, part@),
{
    if part.len() == 0 {
        assert(s@.subrange(0, 0) =~= part@);
        assert(occurs_at(s@, part@, 0));
        return true;
    }
    if part.len() > s.len() {
        return false;
    }
    let last = s.len() - part.len();
    let mut i: usize = 0;
    while i <= last
        invariant
            last < s@.len(),
            s@.len() <= usize::MAX,
            last == s@.len() - part@.len(),
            i <= last + 1,
            forall|j: int| 0 <= j < i ==> !occurs_at(s@, part@, j),
        decreases last + 1 - i,
    {
        if occurs_at_exec(s, part, i) {
            return true;
        }
        i = i + 1;
    }
    assert forall|j: int| !occurs_at(s@, part@, j) by {
        if 0 <= j && j < i {
        }
    }
    false
}

fn has_char(s: &Vec<char>, c: char) -> (r: bool)
    ensures
        r == s@.contains(c),
{
    let mut i: usize = 0;
    while i < s.len()
        invariant
            i <= s@.len(),
            forall|j: int| 0 <= j < i ==> s@[j] != c,
        decreases s@.len() - i,
    {
        if s[i] == c {
            return true;
        }
        i = i + 1;
    }
    false
}

/// Decides the rule on a lowercased name and a lowercased query.
pub fn matches_folded(name: &Vec<char>, query: &Vec<char>) -> (r: bool)
    ensures
        r == pattern_matches(name@, query@),
{
    let star_dot: Vec<char> = vec!['*', '.'];
    let dot: Vec<char> = vec!['.'];
    assert(star_dot@ =~= seq!['*', '.']);
    assert(dot@ =~= seq!['.']);
    if starts_with_exec(query, &star_dot) {
        let mut suffix: Vec<char> = Vec::new();
        let mut i: usize = 1;
        while i < query.len()
            invariant
                1 <= i <= query@.len(),
                suffix@ =~= query@.subrange(1, i as int),
            decreases query@.len() - i,
        {
            suffix.push(query[i]);
            i = i + 1;
        }
        ends_with_exec(name, &suffix)
    } else if starts_with_exec(query, &dot) && !has_char(query, ' ') {
        ends_with_exec(name, query)
    } else {
        contains_exec(name, query)
    }
}

/// Whether `filename` matches `query`, ignoring case.
pub fn matches_pattern(filename: &str, query: &str) -> (r: bool)
    ensures
        r == pattern_matches(lower_of(filename@), lower_of(query@)),
{
    let name = lower_chars(filename);
    let q = lower_chars(query);
    matches_folded(&name, &q)
}

} // verus!
