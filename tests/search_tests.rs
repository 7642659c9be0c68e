use file_browser::search::{SearchWalk, DEFAULT_MAX_DEPTH, DEFAULT_MAX_RESULTS};
use file_browser::stream::{SearchNotice, SearchStream};
use file_browser::FileEntry;
use std::collections::BTreeMap;

type Tree = BTreeMap<String, Vec<(String, bool)>>;

fn tree(dirs: &[(&str, &[(&str, bool)])]) -> Tree {
    dirs.iter()
        .map(|(p, kids)| (p.to_string(), kids.iter().map(|(n, d)| (n.to_string(), *d)).collect()))
        .collect()
}

fn entry(name: &str, path: &str, is_dir: bool) -> FileEntry {
    FileEntry::from_probe(name.to_string(), path.to_string(), is_dir, Some(1), Some(7), None)
}

fn run(t: &Tree, query: &str, max_depth: Option<u32>, max_results: Option<usize>) -> Vec<FileEntry> {
    let mut walk = SearchWalk::new("/root".to_string(), query, max_depth, max_results, true);
    while let Some(dir) = walk.next_directory() {
        let Some(kids) = t.get(&dir.path) else { continue };
        let mut hits = Vec::new();
        for (name, is_dir) in kids {
            let path = format!("{}/{}", dir.path, name);
            if walk.examine(dir.depth, name, path.clone(), *is_dir) {
                hits.push(entry(name, &path, *is_dir));
            }
        }
        for e in hits {
            if walk.is_stopped() {
                break;
            }
            walk.accept(&e);
        }
    }
    walk.into_results()
}

fn paths(v: &[FileEntry]) -> Vec<String> {
    v.iter().map(|e| e.path.clone()).collect()
}

#[test]
fn finds_text_files_in_root_and_subdirectory() {
    let t = tree(&[
        ("/root", &[("a.txt", false), ("b.log", false), ("sub", true)]),
        ("/root/sub", &[("c.txt", false)]),
    ]);
    let found = run(&t, "*.txt", None, None);
    assert_eq!(paths(&found), vec!["/root/a.txt", "/root/sub/c.txt"]);
    assert!(found.iter().all(|e| !e.is_directory));
}

#[test]
fn results_are_sorted_directories_first() {
    let t = tree(&[
        ("/root", &[("zz_doc", false), ("Doc", true), ("adoc", false)]),
        ("/root/Doc", &[]),
    ]);
    let found = run(&t, "doc", None, None);
    assert_eq!(paths(&found), vec!["/root/Doc", "/root/adoc", "/root/zz_doc"]);
}

#[test]
fn result_count_never_exceeds_limit() {
    let t = tree(&[
        ("/root", &[("a1", false), ("a2", false), ("a3", false), ("s", true)]),
        ("/root/s", &[("a4", false), ("a5", false)]),
    ]);
    assert_eq!(run(&t, "a", None, Some(2)).len(), 2);
    assert_eq!(run(&t, "a", None, Some(4)).len(), 4);
    assert_eq!(run(&t, "a", None, Some(10)).len(), 5);
    assert_eq!(run(&t, "a", None, Some(0)).len(), 0);
}

#[test]
fn accept_stops_at_limit() {
    let mut walk = SearchWalk::new("/r".to_string(), "x", None, Some(1), true);
    assert!(walk.accept(&entry("x", "/r/x", false)));
    assert!(!walk.is_stopped());
    assert!(!walk.accept(&entry("x2", "/r/x2", false)));
    assert!(walk.is_stopped());
    assert_eq!(walk.accepted_count(), 1);
    assert!(walk.next_directory().is_none());
    assert_eq!(walk.into_results().len(), 1);
}

#[test]
fn match_at_depth_limit_is_included_but_not_deeper() {
    let t = tree(&[
        ("/root", &[("m0", false), ("d1", true)]),
        ("/root/d1", &[("m1", false), ("d2", true)]),
        ("/root/d1/d2", &[("m2", false)]),
    ]);
    let found = run(&t, "m", Some(2), None);
    assert_eq!(paths(&found), vec!["/root/m0", "/root/d1/m1"]);
    let shallow = run(&t, "m", Some(1), None);
    assert_eq!(paths(&shallow), vec!["/root/m0"]);
    assert!(run(&t, "m", Some(0), None).is_empty());
}

#[test]
fn directory_one_above_limit_is_not_queued() {
    let mut walk = SearchWalk::new("/r".to_string(), "q", Some(2), None, true);
    let root = walk.next_directory().unwrap();
    assert_eq!(root.depth, 0);
    walk.examine(0, "sub", "/r/sub".to_string(), true);
    let sub = walk.next_directory().unwrap();
    assert_eq!(sub.depth, 1);
    walk.examine(1, "deeper", "/r/sub/deeper".to_string(), true);
    assert!(walk.next_directory().is_none());
}

#[test]
fn repeated_search_gives_same_sequence() {
    let t = tree(&[
        ("/root", &[("a.txt", false), ("s", true), ("t", true)]),
        ("/root/s", &[("b.txt", false), ("A.TXT", false)]),
        ("/root/t", &[("c.txt", false)]),
    ]);
    let first = run(&t, "*.txt", None, None);
    let second = run(&t, "*.txt", None, None);
    assert_eq!(paths(&first), paths(&second));
    assert_eq!(first.len(), 4);
}

#[test]
fn unreadable_subdirectory_is_skipped() {
    let t = tree(&[("/root", &[("gone", true), ("ok.txt", false)])]);
    assert_eq!(paths(&run(&t, "o", None, None)), vec!["/root/gone", "/root/ok.txt"]);
}

#[test]
fn defaults_apply_when_limits_absent() {
    assert_eq!(DEFAULT_MAX_DEPTH, 100);
    assert_eq!(DEFAULT_MAX_RESULTS, 500);
    let mut walk = SearchWalk::new("/r".to_string(), "q", None, None, true);
    for i in 0..500 {
        assert!(walk.accept(&entry("q", &format!("/r/q{}", i), false)));
    }
    assert!(!walk.accept(&entry("q", "/r/last", false)));
}

#[test]
fn item_counts_wanted_only_below_fifty_results() {
    let mut walk = SearchWalk::new("/r".to_string(), "q", None, None, false);
    for i in 0..49 {
        walk.accept(&entry("q", &format!("/r/q{}", i), false));
    }
    assert!(walk.wants_item_count());
    walk.accept(&entry("q", "/r/q49", false));
    assert!(!walk.wants_item_count());
}

#[test]
fn stream_frames_results_with_start_and_completion() {
    let mut s = SearchStream::new("/r".to_string(), "*.txt", None, Some(2));
    let mut events = Vec::new();
    assert!(s.offer(entry("early.txt", "/r/early.txt", false)).is_none());
    events.push(s.begin().unwrap().event_name());
    assert!(s.begin().is_none());
    let dir = s.next_directory().unwrap();
    for name in ["a.txt", "b.txt", "c.txt", "d.log"] {
        if s.examine(dir.depth, name, format!("/r/{}", name), false) {
            if let Some(n) = s.offer(entry(name, &format!("/r/{}", name), false)) {
                if let SearchNotice::Found(e) = &n {
                    assert!(e.name.ends_with(".txt"));
                }
                events.push(n.event_name());
            }
        }
    }
    assert!(s.is_stopped());
    events.push(s.finish().unwrap().event_name());
    assert!(s.finish().is_none());
    assert_eq!(events, vec!["search-started", "search-result", "search-result", "search-completed"]);
}

#[test]
fn stream_with_no_matches_still_completes() {
    let mut s = SearchStream::new("/r".to_string(), "zzz", None, None);
    let start = s.begin().unwrap();
    assert!(matches!(start, SearchNotice::Started));
    let dir = s.next_directory().unwrap();
    assert!(!s.examine(dir.depth, "a.txt", "/r/a.txt".to_string(), false));
    assert!(s.wants_item_count());
    assert!(s.next_directory().is_none());
    assert!(matches!(s.finish(), Some(SearchNotice::Completed)));
}

#[test]
fn accept_turns_away_non_matches_hidden_and_repeats() {
    let mut walk = SearchWalk::new("/r".to_string(), "*.txt", None, Some(5), true);
    assert!(!walk.accept(&entry("a.log", "/r/a.log", false)));
    assert!(!walk.accept(&entry(".b.txt", "/r/.b.txt", false)));
    assert!(walk.accept(&entry("c.txt", "/r/c.txt", false)));
    assert!(!walk.accept(&entry("c.txt", "/r/c.txt", false)));
    assert!(!walk.is_stopped());
    assert_eq!(walk.accepted_count(), 1);
    assert_eq!(paths(&walk.into_results()), vec!["/r/c.txt"]);
}
