use file_browser::cache::CACHE_TTL_MS;
use file_browser::{get_directory_cache, DirectoryContents, FileEntry};

fn listing(path: &str, names: &[&str]) -> DirectoryContents {
    let entries = names
        .iter()
        .map(|n| FileEntry::from_probe(n.to_string(), format!("{}/{}", path, n), false, Some(1), None, None))
        .collect();
    DirectoryContents::from_entries(path.to_string(), entries)
}

fn names(d: &DirectoryContents) -> Vec<String> {
    d.entries.iter().map(|e| e.name.clone()).collect()
}

#[test]
fn empty_cache_serves_nothing() {
    let cache = get_directory_cache();
    assert!(cache.lookup("/root", 0).is_none());
}

#[test]
fn stored_listing_is_served_within_ttl() {
    let mut cache = get_directory_cache();
    cache.store("/root".to_string(), listing("/root", &["b", "a"]), 1000);
    let hit = cache.lookup("/root", 1000 + CACHE_TTL_MS - 1).unwrap();
    assert_eq!(hit.current_path, "/root");
    assert_eq!(names(&hit), vec!["a", "b"]);
    let again = cache.lookup("/root", 1500).unwrap();
    assert_eq!(names(&again), names(&hit));
    assert!(cache.lookup("/other", 1000).is_none());
}

#[test]
fn expired_listing_is_not_served() {
    let mut cache = get_directory_cache();
    cache.store("/root".to_string(), listing("/root", &["a"]), 1000);
    assert!(cache.lookup("/root", 1000 + CACHE_TTL_MS).is_none());
    cache.store("/root".to_string(), listing("/root", &["a", "c"]), 1000 + CACHE_TTL_MS);
    let fresh = cache.lookup("/root", 1000 + CACHE_TTL_MS).unwrap();
    assert_eq!(names(&fresh), vec!["a", "c"]);
}

#[test]
fn clock_running_backwards_counts_as_fresh() {
    let mut cache = get_directory_cache();
    cache.store("/root".to_string(), listing("/root", &["a"]), 5000);
    assert!(cache.lookup("/root", 10).is_some());
}

#[test]
fn store_replaces_and_evicts_expired() {
    let mut cache = get_directory_cache();
    cache.store("/old".to_string(), listing("/old", &["x"]), 0);
    cache.store("/root".to_string(), listing("/root", &["a"]), 10);
    cache.store("/root".to_string(), listing("/root", &["b"]), 20);
    assert_eq!(names(&cache.lookup("/root", 20).unwrap()), vec!["b"]);
    cache.store("/new".to_string(), listing("/new", &["y"]), CACHE_TTL_MS + 5);
    assert!(cache.lookup("/old", 0).is_none());
    assert!(cache.lookup("/root", 20).is_some());
}

#[test]
fn evict_drops_only_expired() {
    let mut cache = get_directory_cache();
    cache.store("/a".to_string(), listing("/a", &["x"]), 0);
    cache.store("/b".to_string(), listing("/b", &["y"]), 20000);
    cache.evict_expired(CACHE_TTL_MS);
    assert!(cache.lookup("/a", 0).is_none());
    assert!(cache.lookup("/b", 20000).is_some());
}

#[test]
fn create_then_delete_leaves_listing_without_new_after_invalidation() {
    let mut cache = get_directory_cache();
    cache.store("/root".to_string(), listing("/root", &["a.txt", "new"]), 100);
    cache.invalidate("/root");
    assert!(cache.lookup("/root", 100).is_none());
    cache.store("/root".to_string(), listing("/root", &["a.txt"]), 200);
    let after = cache.lookup("/root", 200).unwrap();
    assert_eq!(names(&after), vec!["a.txt"]);
}

#[test]
fn invalidate_keeps_other_paths() {
    let mut cache = get_directory_cache();
    cache.store("/a".to_string(), listing("/a", &["x"]), 0);
    cache.store("/b".to_string(), listing("/b", &["y"]), 0);
    cache.invalidate("/a");
    cache.invalidate("/missing");
    assert!(cache.lookup("/a", 0).is_none());
    assert_eq!(names(&cache.lookup("/b", 0).unwrap()), vec!["y"]);
}
