use std::io::{Cursor, Write};

use file_searcher::{run_search, EntryRecord, Hit, Phase, Session};
use zip::write::{SimpleFileOptions, ZipWriter};

fn plain_entry(path: &str, name: &str) -> EntryRecord {
    EntryRecord { path: path.to_string(), name: name.to_string(), zip_bytes: None }
}

fn zip_bytes(entries: &[(&str, &[u8])]) -> Vec<u8> {
    let mut writer = ZipWriter::new(Cursor::new(Vec::new()));
    let options =
        SimpleFileOptions::default().compression_method(zip::CompressionMethod::Stored);
    for (name, data) in entries {
        writer.start_file(*name, options).unwrap();
        writer.write_all(data).unwrap();
    }
    writer.finish().unwrap().into_inner()
}

#[test]
fn scenario_plain_directory() {
    let entries = vec![
        plain_entry("d/report.txt", "report.txt"),
        plain_entry("d/Report_final.txt", "Report_final.txt"),
        plain_entry("d/notes.md", "notes.md"),
    ];
    let s = run_search("d", "report", entries, 7);
    let stats = s.poll_stats().unwrap();
    assert_eq!(stats.total_files, 3);
    assert_eq!(stats.matched_files, 2);
    assert_eq!(stats.elapsed_ms, 7);
    let hits = s.poll_results();
    assert_eq!(hits.len(), 2);
    match (&hits[0], &hits[1]) {
        (Hit::Filesystem { display_path: a }, Hit::Filesystem { display_path: b }) => {
            assert_eq!(a.as_str(), "d/report.txt");
            assert_eq!(b.as_str(), "d/Report_final.txt");
        }
        _ => panic!("expected two filesystem hits"),
    }
}

#[test]
fn scenario_zip_directory() {
    let bytes = zip_bytes(&[("config.yaml", b"k: v"), ("readme.txt", b"text")]);
    let entries = vec![EntryRecord {
        path: "d/data.zip".to_string(),
        name: "data.zip".to_string(),
        zip_bytes: Some(bytes),
    }];
    let s = run_search("d", "readme", entries, 1);
    let stats = s.poll_stats().unwrap();
    assert_eq!(stats.total_files, 1);
    assert_eq!(stats.matched_files, 1);
    let hits = s.poll_results();
    match &hits[0] {
        Hit::Archive { display_label, archive_path, internal_name } => {
            assert_eq!(display_label.as_str(), "d/data.zip: readme.txt");
            assert_eq!(archive_path.as_str(), "d/data.zip");
            assert_eq!(internal_name.as_str(), "readme.txt");
        }
        other => panic!("expected an archive hit, got {:?}", other),
    }
}

#[test]
fn same_search_twice_reports_same_count() {
    let make_entries = || {
        vec![
            plain_entry("d/report.txt", "report.txt"),
            plain_entry("d/Report_final.txt", "Report_final.txt"),
            plain_entry("d/notes.md", "notes.md"),
        ]
    };
    let first = run_search("d", "report", make_entries(), 1);
    let second = run_search("d", "report", make_entries(), 2);
    assert_eq!(
        first.poll_stats().unwrap().matched_files,
        second.poll_stats().unwrap().matched_files
    );
}

#[test]
fn second_start_is_a_noop() {
    let mut s = Session::new();
    assert!(s.start_search("first_root", "first_query"));
    assert!(s.searching());
    let started_again = s.start_search("other_root", "other");
    assert!(!started_again);
    let progress = s.poll_progress();
    assert_eq!(progress.phase, Phase::Counting);
    assert_eq!(progress.status_text, "Counting items in first_root...");
    assert_eq!(s.query.as_str(), "first_query");
}

#[test]
fn empty_root_falls_back_to_default() {
    let s = run_search("", "q", vec![], 0);
    assert_eq!(s.root.as_str(), "C:/");
    assert_eq!(s.poll_stats().unwrap().total_files, 0);
}

#[test]
fn progress_is_monotone_and_bounded() {
    let mut s = Session::new();
    assert!(s.start_search("r", "a"));
    for _ in 0..3 {
        s.count_entry();
    }
    s.finish_counting();
    let mut last = s.poll_progress().processed_entries;
    assert_eq!(last, 0);
    for i in 0..5 {
        s.process_entry(&format!("r/f{}", i), &format!("f{}", i), None);
        let p = s.poll_progress();
        assert!(p.processed_entries >= last);
        assert!(p.processed_entries <= p.total_entries);
        last = p.processed_entries;
    }
    assert_eq!(last, 3);
    s.finish_search(11);
    let p = s.poll_progress();
    assert_eq!(p.phase, Phase::Done);
    assert_eq!(p.processed_entries, p.total_entries);
    assert_eq!(p.status_text, "Search completed.");
}

#[test]
fn status_reports_every_thousandth_entry() {
    let mut s = Session::new();
    assert!(s.start_search("r", "nomatch"));
    for _ in 0..1500 {
        s.count_entry();
    }
    s.finish_counting();
    assert_eq!(s.poll_progress().status_text, "Processing items...");
    for i in 0..1000 {
        s.process_entry(&format!("r/f{}", i), &format!("f{}", i), None);
    }
    assert_eq!(
        s.poll_progress().status_text,
        "Processing items: 1000/1500 processed. Please wait..."
    );
    s.process_entry("r/one_more", "one_more", None);
    assert_eq!(
        s.poll_progress().status_text,
        "Processing items: 1000/1500 processed. Please wait..."
    );
}

#[test]
fn counting_status_names_the_root() {
    let mut s = Session::new();
    assert!(s.start_search("some/dir", "q"));
    assert_eq!(s.poll_progress().status_text, "Counting items in some/dir...");
}

#[test]
fn stats_replace_prior_session() {
    let mut s = Session::new();
    assert!(s.start_search("r", "zzz"));
    s.count_entry();
    s.finish_counting();
    s.process_entry("r/a.txt", "a.txt", None);
    s.finish_search(3);
    assert_eq!(s.poll_stats().unwrap().matched_files, 0);

    assert!(s.start_search("r", "a"));
    assert_eq!(s.poll_stats().unwrap().matched_files, 0);
    s.count_entry();
    s.finish_counting();
    s.process_entry("r/a.txt", "a.txt", None);
    s.finish_search(4);
    let stats = s.poll_stats().unwrap();
    assert_eq!(stats.matched_files, 1);
    assert_eq!(stats.total_files, 1);
    assert_eq!(stats.elapsed_ms, 4);
}

#[test]
fn mixed_directory_collects_both_kinds_of_hits() {
    let bytes = zip_bytes(&[("reading-list.txt", b"books")]);
    let entries = vec![
        plain_entry("d/report.txt", "report.txt"),
        EntryRecord {
            path: "d/data.zip".to_string(),
            name: "data.zip".to_string(),
            zip_bytes: Some(bytes),
        },
        plain_entry("d/notes.md", "notes.md"),
    ];
    let s = run_search("d", "re", entries, 0);
    let stats = s.poll_stats().unwrap();
    assert_eq!(stats.total_files, 3);
    assert_eq!(stats.matched_files, 2);
    let hits = s.poll_results();
    assert!(matches!(&hits[0], Hit::Filesystem { .. }));
    assert!(matches!(&hits[1], Hit::Archive { .. }));
}

#[test]
fn corrupt_archive_never_aborts_the_search() {
    let entries = vec![
        EntryRecord {
            path: "d/broken.zip".to_string(),
            name: "broken.zip".to_string(),
            zip_bytes: Some(b"definitely not a zip".to_vec()),
        },
        plain_entry("d/report.txt", "report.txt"),
    ];
    let s = run_search("d", "report", entries, 0);
    let stats = s.poll_stats().unwrap();
    assert_eq!(stats.total_files, 2);
    assert_eq!(stats.matched_files, 1);
    let p = s.poll_progress();
    assert_eq!(p.processed_entries, p.total_entries);
}

#[test]
fn non_candidate_bytes_are_ignored() {
    let bytes = zip_bytes(&[("readme.txt", b"text")]);
    let entries = vec![EntryRecord {
        path: "d/data.bin".to_string(),
        name: "data.bin".to_string(),
        zip_bytes: Some(bytes),
    }];
    let s = run_search("d", "readme", entries, 0);
    assert_eq!(s.poll_stats().unwrap().matched_files, 0);
}
