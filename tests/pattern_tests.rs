use file_browser::matches_pattern;
use file_browser::pattern::matches_folded;
use file_browser::search::SearchWalk;

fn chars(s: &str) -> Vec<char> {
    s.chars().collect()
}

#[test]
fn extension_query_ignores_case() {
    assert!(matches_pattern("Report.PDF", "*.pdf"));
    assert!(matches_pattern("report.pdf", "*.PDF"));
}

#[test]
fn extension_query_rejects_other_names() {
    assert!(!matches_pattern("readme", "*.pdf"));
    assert!(!matches_pattern("pdf", "*.pdf"));
}

#[test]
fn dotted_query_matches_suffix() {
    assert!(matches_pattern("notes.txt", ".txt"));
    assert!(!matches_pattern("notes.txt.bak", ".txt"));
}

#[test]
fn plain_query_matches_substring() {
    assert!(matches_pattern("archive.tar.gz", "tar"));
    assert!(matches_pattern("ARCHIVE.tar.gz", "Chive"));
    assert!(!matches_pattern("archive.zip", "tar"));
}

#[test]
fn dotted_query_with_space_is_substring() {
    assert!(matches_pattern("my .note file", ".note f"));
    assert!(!matches_pattern("x.note", ".note f"));
}

#[test]
fn star_elsewhere_is_literal() {
    assert!(!matches_pattern("abc", "a*c"));
    assert!(matches_pattern("a*c.txt", "a*c"));
}

#[test]
fn empty_query_matches_everything() {
    assert!(matches_pattern("anything", ""));
    assert!(matches_pattern("", ""));
}

#[test]
fn hidden_name_matches_but_is_not_searched() {
    assert!(matches_pattern(".hidden", ".hidden"));
    let mut walk = SearchWalk::new("/root".to_string(), ".hidden", None, None, true);
    let dir = walk.next_directory().unwrap();
    assert!(!walk.examine(dir.depth, ".hidden", "/root/.hidden".to_string(), false));
    assert!(!walk.examine(dir.depth, ".git", "/root/.git".to_string(), true));
    assert!(walk.next_directory().is_none());
}

#[test]
fn folded_rule_on_lowercased_text() {
    assert!(matches_folded(&chars("report.pdf"), &chars("*.pdf")));
    assert!(!matches_folded(&chars("report.pdfx"), &chars("*.pdf")));
    assert!(matches_folded(&chars("a.b"), &chars("*.b")));
    assert!(!matches_folded(&chars("Report.PDF"), &chars("*.pdf")));
}
