use file_searcher::{is_match, is_zip_candidate};

#[test]
fn match_is_case_insensitive() {
    assert!(is_match("Report_final.txt", "report"));
    assert!(is_match("REPORT.TXT", "report"));
    assert!(is_match("report.txt", "REPORT"));
    assert!(is_match("some_Report_here", "rEpOrT"));
}

#[test]
fn match_is_substring_containment() {
    assert!(is_match("notes.md", "otes"));
    assert!(is_match("notes.md", "notes.md"));
    assert!(!is_match("notes.md", "report"));
    assert!(!is_match("notes.md", "notes.mdx"));
}

#[test]
fn empty_query_matches_everything() {
    assert!(is_match("anything", ""));
    assert!(is_match("", ""));
    assert!(is_match("a.zip", ""));
}

#[test]
fn empty_name_matches_only_empty_query() {
    assert!(!is_match("", "a"));
    assert!(is_match("", ""));
}

#[test]
fn match_folds_unicode_case() {
    assert!(is_match("STRASSE.TXT", "strasse"));
    assert!(is_match("\u{dc}ber.txt", "\u{fc}ber"));
}

#[test]
fn zip_candidate_needs_zip_suffix_and_stem() {
    assert!(is_zip_candidate("data.zip"));
    assert!(is_zip_candidate("a.zip"));
    assert!(is_zip_candidate("nested.tar.zip"));
    assert!(!is_zip_candidate(".zip"));
    assert!(!is_zip_candidate("zip"));
    assert!(!is_zip_candidate("data.ZIP"));
    assert!(!is_zip_candidate("archive.zip.bak"));
    assert!(!is_zip_candidate("plain.txt"));
}
