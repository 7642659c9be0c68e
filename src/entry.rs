//! Entries of a listing, their order, and how they are assembled from the
//! facts read off the filesystem.
use vstd::prelude::*;
use crate::pattern::{lower_of, lower_chars};

verus! {

/// One child of a directory, with the metadata that could be read for it.
#[derive(Debug, Clone)]
pub struct FileEntry {
    pub name: String,
    pub path: String,
    pub is_directory: bool,
    /// Size in bytes; only for non-directories.
    pub size: Option<u64>,
    /// Modification time as decimal seconds since the epoch.
    pub modified: Option<String>,
    /// Number of direct children; only for directories.
    pub item_count: Option<u32>,
}

/// The sorted children of one directory.
#[derive(Debug, Clone)]
pub struct DirectoryContents {
    pub current_path: String,
    pub entries: Vec<FileEntry>,
}

impl FileEntry {
    /// A field-by-field copy.
    pub fn duplicate(&self) -> (r: FileEntry)
        ensures
            r == *self,
    {
        let modified = match &self.modified {
            Some(m) => Some(m.clone()),
            None => None,
        };
        FileEntry {
            name: self.name.clone(),
            path: self.path.clone(),
            is_directory: self.is_directory,
            size: self.size,
            modified,
            item_count: self.item_count,
        }
    }

    /// Assembles an entry from what was read for it: the size is kept only
    /// for a non-directory, the child count only for a directory, and the
    /// modification time is written as decimal seconds.
    pub fn from_probe(
        name: String,
        path: String,
        is_directory: bool,
        size: Option<u64>,
        modified_secs: Option<u64>,
        item_count: Option<u32>,
    ) -> (r: FileEntry)
        ensures
            r.name == name,
            r.path == path,
            r.is_directory == is_directory,
            r.size == (if is_directory { None } else { size }),
            r.item_count == (if is_directory { item_count } else { None }),
            match modified_secs {
                Some(t) => r.modified is Some && r.modified->0@ == decimal_text(t as nat),
                None => r.modified is None,
            },
    {
        let modified = match modified_secs {
            Some(t) => Some(decimal_string(t)),
            None => None,
        };
        let size = if is_directory { None } else { size };
        let item_count = if is_directory { item_count } else { None };
        FileEntry { name, path, is_directory, size, modified, item_count }
    }
}

impl View for DirectoryContents {
    type V = (Seq<char>, Seq<FileEntry>);

    open spec fn view(&self) -> (Seq<char>, Seq<FileEntry>) {
        (self.current_path@, self.entries@)
    }
}

impl DirectoryContents {
    /// A copy that holds the same entries.
    pub fn duplicate(&self) -> (r: DirectoryContents)
        ensures
            r@ == self@,
    {
        let mut entries: Vec<FileEntry> = Vec::new();
        let mut i: usize = 0;
        while i < self.entries.len()
            invariant
                i <= self.entries@.len(),
                entries@ =~= self.entries@.subrange(0, i as int),
            decreases self.entries@.len() - i,
        {
            entries.push(self.entries[i].duplicate());
            i = i + 1;
        }
        assert(entries@ =~= self.entries@);
        DirectoryContents { current_path: self.current_path.clone(), entries }
    }

    /// The listing of `path` made of `entries`, put in listing order.
    pub fn from_entries(path: String, entries: Vec<FileEntry>) -> (r: DirectoryContents)
        ensures
            r.current_path == path,
            is_listing_order(r.entries@),
            r.entries@.to_multiset() == entries@.to_multiset(),
    {
        DirectoryContents { current_path: path, entries: sort_entries(entries) }
    }
}

pub open spec fn digit_char(d: nat) -> char {
    if d == 0 { '0' } else if d == 1 { '1' } else if d == 2 { '2' } else if d == 3 { '3' }
    else if d == 4 { '4' } else if d == 5 { '5' } else if d == 6 { '6' } else if d == 7 { '7' }
    else if d == 8 { '8' } else { '9' }
}

/// The decimal digits of `n`, most significant first, without leading zeros.
pub open spec fn decimal_text(n: nat) -> Seq<char>
    decreases n,
{
    if n < 10 {
        seq![digit_char(n)]
    } else {
        decimal_text(n / 10).push(digit_char(n % 10))
    }
}

/// Relies on `u64::to_string` (its `Display`): the decimal digits of `n`.
#[verifier::external_body]
fn decimal_string(n: u64) -> (r: String)
    ensures
        r@ == decimal_text(n as nat),
{
    n.to_string()
}

/// Strict lexicographic order on character sequences, by code point.
pub open spec fn text_lt(a: Seq<char>, b: Seq<char>) -> bool
    decreases a.len(),
{
    if a.len() == 0 {
        b.len() > 0
    } else if b.len() == 0 {
        false
    } else if a[0] != b[0] {
        (a[0] as u32) < (b[0] as u32)
    } else {
        text_lt(a.drop_first(), b.drop_first())
    }
}

/// `a` is listed strictly before `b`: directories first, then by lowercased
/// name.
pub open spec fn listed_before(a: FileEntry, b: FileEntry) -> bool {
    (a.is_directory && !b.is_directory) || (a.is_directory == b.is_directory && text_lt(
        lower_of(a.name@),
        lower_of(b.name@),
    ))
}

/// No entry is listed strictly before one that precedes it.
pub open spec fn is_listing_order(s: Seq<FileEntry>) -> bool {
    forall|i: int, j: int| 0 <= i < j < s.len() ==> !listed_before(s[j], s[i])
}

pub proof fn lemma_text_lt_irreflexive(a: Seq<char>)
    ensures
        !text_lt(a, a),
    decreases a.len(),
{
    if a.len() > 0 {
        lemma_text_lt_irreflexive(a.drop_first());
    }
}

pub proof fn lemma_text_lt_transitive(a: Seq<char>, b: Seq<char>, c: Seq<char>)
    requires
        text_lt(a, b),
        text_lt(b, c),
    ensures
        text_lt(a, c),
    decreases a.len(),
{
    if a.len() > 0 && b.len() > 0 && c.len() > 0 && a[0] == b[0] && b[0] == c[0] {
        lemma_text_lt_transitive(a.drop_first(), b.drop_first(), c.drop_first());
    }
}

pub proof fn lemma_listed_before_strict(a: FileEntry, b: FileEntry, c: FileEntry)
    ensures
        !listed_before(a, a),
        listed_before(a, b) && listed_before(b, c) ==> listed_before(a, c),
{
    lemma_text_lt_irreflexive(lower_of(a.name@));
    if listed_before(a, b) && listed_before(b, c) && a.is_directory == b.is_directory
        && b.is_directory == c.is_directory {
        lemma_text_lt_transitive(lower_of(a.name@), lower_of(b.name@), lower_of(c.name@));
    }
}

pub proof fn lemma_text_lt_total(a: Seq<char>, b: Seq<char>)
    requires
        a != b,
    ensures
        text_lt(a, b) || text_lt(b, a),
    decreases a.len(),
{
    if a.len() > 0 && b.len() > 0 {
        if a[0] == b[0] {
            if a.drop_first() == b.drop_first() {
                assert(a =~= seq![a[0]] + a.drop_first());
                assert(b =~= seq![b[0]] + b.drop_first());
            }
            lemma_text_lt_total(a.drop_first(), b.drop_first());
        } else {
            vstd::utf8::char_u32_cast(a[0], a[0] as u32);
            vstd::utf8::char_u32_cast(b[0], b[0] as u32);
        }
    } else if a.len() == 0 && b.len() == 0 {
        assert(a =~= b);
    }
}

/// What listing order compares of an entry.
pub open spec fn listing_key(e: FileEntry) -> (bool, Seq<char>) {
    (e.is_directory, lower_of(e.name@))
}

/// Two entries either compare strictly or share a key.
pub proof fn lemma_listed_before_total(a: FileEntry, b: FileEntry)
    ensures
        listed_before(a, b) || listed_before(b, a) || listing_key(a) == listing_key(b),
{
    if a.is_directory == b.is_directory && lower_of(a.name@) != lower_of(b.name@) {
        lemma_text_lt_total(lower_of(a.name@), lower_of(b.name@));
    }
}

proof fn lemma_remove_keeps_order(s: Seq<FileEntry>, k: int)
    requires
        is_listing_order(s),
        0 <= k < s.len(),
    ensures
        is_listing_order(s.remove(k)),
{
    let t = s.remove(k);
    assert forall|i: int, j: int| 0 <= i < j < t.len() implies !listed_before(t[j], t[i]) by {
        let i0 = if i < k { i } else { i + 1 };
        let j0 = if j < k { j } else { j + 1 };
        assert(t[i] == s[i0]);
        assert(t[j] == s[j0]);
    }
}

/// Any two listing-ordered arrangements of the same entries agree on the key
/// at every position: sorting a collection of entries, however they were
/// gathered, gives one sequence of kinds and lowercased names.
pub proof fn lemma_listing_order_unique(a: Seq<FileEntry>, b: Seq<FileEntry>)
    requires
        is_listing_order(a),
        is_listing_order(b),
        a.to_multiset() == b.to_multiset(),
    ensures
        a.len() == b.len(),
        forall|i: int| 0 <= i < a.len() ==> listing_key(#[trigger] a[i]) == listing_key(b[i]),
    decreases a.len(),
{
    broadcast use vstd::seq_lib::group_to_multiset_ensures;

    assert(a.to_multiset().len() == a.len());
    assert(b.to_multiset().len() == b.len());
    if a.len() == 0 {
        return;
    }
    let n = a.len() - 1;
    let x = a[n];
    assert(a.contains(x));
    assert(a.to_multiset().count(x) > 0);
    assert(b.contains(x));
    let k = choose|k: int| 0 <= k < b.len() && b[k] == x;
    let y = b[b.len() - 1];
    assert(b.contains(y));
    assert(b.to_multiset().count(y) > 0);
    assert(a.contains(y));
    let ia = choose|i: int| 0 <= i < a.len() && a[i] == y;
    // the last entries of both share a key
    lemma_listed_before_strict(x, x, x);
    lemma_listed_before_strict(y, y, y);
    if ia < n {
        assert(!listed_before(a[n], a[ia]));
    }
    if k < b.len() - 1 {
        assert(!listed_before(b[b.len() - 1], b[k]));
    }
    lemma_listed_before_total(x, y);
    assert(listing_key(x) == listing_key(y));
    // every entry of b from k on shares that key
    assert forall|m: int| k <= m < b.len() implies listing_key(#[trigger] b[m]) == listing_key(x) by {
        if k < m && m < b.len() - 1 {
            assert(!listed_before(b[m], b[k]));
            assert(!listed_before(b[b.len() - 1], b[m]));
            lemma_listed_before_total(b[k], b[m]);
        }
    }
    let a1 = a.drop_last();
    let b1 = b.remove(k);
    assert(a1 == a.remove(n));
    lemma_remove_keeps_order(a, n);
    lemma_remove_keeps_order(b, k);
    assert(a1.to_multiset() == b1.to_multiset());
    lemma_listing_order_unique(a1, b1);
    assert forall|i: int| 0 <= i < a.len() implies listing_key(#[trigger] a[i]) == listing_key(b[i]) by {
        if i < n {
            assert(a[i] == a1[i]);
            assert(listing_key(a1[i]) == listing_key(b1[i]));
            if i >= k {
                assert(b1[i] == b[i + 1]);
                assert(listing_key(b[i + 1]) == listing_key(x));
                assert(listing_key(b[i]) == listing_key(x));
            } else {
                assert(b1[i] == b[i]);
            }
        }
    }
}

/// Whether lowercased text `a` sorts strictly before lowercased text `b`.
pub fn folded_before(a: &Vec<char>, b: &Vec<char>) -> (r: bool)
    ensures
        r == text_lt(a@, b@),
{
    let mut i: usize = 0;
    assert(a@.subrange(0, a@.len() as int) =~= a@);
    assert(b@.subrange(0, b@.len() as int) =~= b@);
    while i < a.len() && i < b.len() && a[i] == b[i]
        invariant
            i <= a@.len(),
            i <= b@.len(),
            text_lt(a@, b@) == text_lt(a@.subrange(i as int, a@.len() as int), b@.subrange(i as int, b@.len() as int)),
        decreases a@.len() - i,
    {
        assert(a@.subrange(i as int, a@.len() as int).drop_first() =~= a@.subrange(i + 1, a@.len() as int));
        assert(b@.subrange(i as int, b@.len() as int).drop_first() =~= b@.subrange(i + 1, b@.len() as int));
        i = i + 1;
    }
    if i == a.len() {
        i < b.len()
    } else if i == b.len() {
        false
    } else {
        (a[i] as u32) < (b[i] as u32)
    }
}

/// Whether `a` is listed strictly before `b`.
pub fn entry_before(a: &FileEntry, b: &FileEntry) -> (r: bool)
    ensures
        r == listed_before(*a, *b),
{
    if a.is_directory != b.is_directory {
        a.is_directory
    } else {
        let la = lower_chars(a.name.as_str());
        let lb = lower_chars(b.name.as_str());
        folded_before(&la, &lb)
    }
}

/// Sorts entries into listing order: directories first, then by lowercased
/// name.
pub fn sort_entries(v: Vec<FileEntry>) -> (r: Vec<FileEntry>)
    ensures
        is_listing_order(r@),
        r@.to_multiset() == v@.to_multiset(),
{
    broadcast use vstd::seq_lib::group_to_multiset_ensures, vstd::multiset::group_multiset_axioms;

    let mut rest = v;
    let mut out: Vec<FileEntry> = Vec::new();
    assert(out@.to_multiset() =~= vstd::multiset::Multiset::empty());
    while rest.len() > 0
        invariant
            is_listing_order(out@),
            out@.to_multiset().add(rest@.to_multiset()) == v@.to_multiset(),
        decreases rest@.len(),
    {
        let ghost before = rest@;
        let x = rest.remove(0);
        let mut p: usize = 0;
        while p < out.len() && !entry_before(&x, &out[p])
            invariant
                p <= out@.len(),
                forall|j: int| 0 <= j < p ==> !listed_before(x, out@[j]),
            decreases out@.len() - p,
        {
            p = p + 1;
        }
        let ghost old_out = out@;
        out.insert(p, x);
        assert forall|i: int, j: int| 0 <= i < j < out@.len() implies !listed_before(
            out@[j],
            out@[i],
        ) by {
            if i < p as int && j == p as int {
            } else if i == p as int && j > p as int {
                lemma_listed_before_strict(old_out[j - 1], x, old_out[p as int]);
                lemma_listed_before_strict(x, old_out[j - 1], old_out[p as int]);
                lemma_listed_before_strict(old_out[j - 1], old_out[p as int], x);
            } else if i < p as int && j > p as int {
            } else if i > p as int {
            }
        }
        assert(before.to_multiset() =~= rest@.to_multiset().insert(x)) by {
            assert(before.remove(0) == rest@);
            assert(before.contains(x)) by { assert(before[0] == x); }
            vstd::seq_lib::to_multiset_contains(before, x);
            vstd::seq_lib::to_multiset_remove(before, 0);
        }
        proof { vstd::seq_lib::to_multiset_insert(old_out, p as int, x); }
        assert(out@.to_multiset().add(rest@.to_multiset()) =~= v@.to_multiset());
    }
    out
}

} // verus!
