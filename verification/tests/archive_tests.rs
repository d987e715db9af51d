use std::io::{Cursor, Write};

use file_searcher::{extract_entry, locate_entry, search_in_zip, ExtractError, Hit};
use zip::write::{SimpleFileOptions, ZipWriter};

fn make_zip(entries: &[(&str, &[u8])]) -> Vec<u8> {
    let mut writer = ZipWriter::new(Cursor::new(Vec::new()));
    let options =
        SimpleFileOptions::default().compression_method(zip::CompressionMethod::Stored);
    for (name, data) in entries {
        writer.start_file(*name, options).unwrap();
        writer.write_all(data).unwrap();
    }
    writer.finish().unwrap().into_inner()
}

#[test]
fn zip_search_finds_internal_entries() {
    let bytes = make_zip(&[("config.yaml", b"k: v"), ("readme.txt", b"hello")]);
    let hits = search_in_zip("d/data.zip", bytes, "readme");
    assert_eq!(hits.len(), 1);
    match &hits[0] {
        Hit::Archive { display_label, archive_path, internal_name } => {
            assert_eq!(display_label.as_str(), "d/data.zip: readme.txt");
            assert_eq!(archive_path.as_str(), "d/data.zip");
            assert_eq!(internal_name.as_str(), "readme.txt");
        }
        other => panic!("expected an archive hit, got {:?}", other),
    }
}

#[test]
fn zip_search_is_case_insensitive_on_entry_names() {
    let bytes = make_zip(&[("ReadMe.TXT", b"hello"), ("notes.md", b"n")]);
    let hits = search_in_zip("a.zip", bytes, "readme");
    assert_eq!(hits.len(), 1);
}

#[test]
fn zip_search_keeps_container_order() {
    let bytes = make_zip(&[("b_second.txt", b"2"), ("a_first.txt", b"1")]);
    let hits = search_in_zip("a.zip", bytes, ".txt");
    assert_eq!(hits.len(), 2);
    match (&hits[0], &hits[1]) {
        (
            Hit::Archive { internal_name: first, .. },
            Hit::Archive { internal_name: second, .. },
        ) => {
            assert_eq!(first.as_str(), "b_second.txt");
            assert_eq!(second.as_str(), "a_first.txt");
        }
        _ => panic!("expected two archive hits"),
    }
}

#[test]
fn bad_archive_yields_no_hits() {
    let hits = search_in_zip("broken.zip", b"this is not a zip container".to_vec(), "");
    assert!(hits.is_empty());
}

#[test]
fn extract_round_trip_returns_identical_bytes() {
    let contents: &[u8] = b"the exact original bytes \x00\x01\x02";
    let bytes = make_zip(&[("a/b.txt", contents), ("other.txt", b"x")]);
    let hits = search_in_zip("d/data.zip", bytes.clone(), "b.txt");
    assert_eq!(hits.len(), 1);
    let internal_name = match &hits[0] {
        Hit::Archive { internal_name, .. } => internal_name.clone(),
        other => panic!("expected an archive hit, got {:?}", other),
    };
    let extracted = extract_entry(bytes, &internal_name).unwrap();
    assert_eq!(extracted, contents);
}

#[test]
fn extraction_normalizes_separators_both_ways() {
    let backslashed = make_zip(&[("a\\b.txt", b"back")]);
    let forward = make_zip(&[("a/b.txt", b"forward")]);

    let hits_back = search_in_zip("x.zip", backslashed.clone(), "b.txt");
    let hits_fwd = search_in_zip("x.zip", forward.clone(), "b.txt");
    assert_eq!(hits_back.len(), 1);
    assert_eq!(hits_fwd.len(), 1);

    assert_eq!(extract_entry(backslashed, "a/b.txt").unwrap(), b"back");
    assert_eq!(extract_entry(forward, "a\\b.txt").unwrap(), b"forward");
}

#[test]
fn readability_tells_bad_containers_from_matchless_ones() {
    let good = make_zip(&[("only.txt", b"x")]);
    assert!(file_searcher::archive_is_readable(&good));
    assert!(search_in_zip("a.zip", good, "no such match").is_empty());
    let bad = b"not a container".to_vec();
    assert!(!file_searcher::archive_is_readable(&bad));
}

#[test]
fn extract_reports_missing_entry() {
    let bytes = make_zip(&[("present.txt", b"p")]);
    assert_eq!(extract_entry(bytes, "absent.txt"), Err(ExtractError::NotFound));
}

#[test]
fn extract_reports_bad_archive() {
    let bytes = b"garbage".to_vec();
    assert_eq!(extract_entry(bytes, "a.txt"), Err(ExtractError::BadArchive));
}

#[test]
fn locate_entry_finds_first_normalized_match() {
    let names: Vec<String> = vec![
        "zzz.txt".to_string(),
        "a\\b.txt".to_string(),
        "a/b.txt".to_string(),
    ];
    assert_eq!(locate_entry(&names, "a/b.txt"), Some(1));
    assert_eq!(locate_entry(&names, "a\\b.txt"), Some(1));
    assert_eq!(locate_entry(&names, "zzz.txt"), Some(0));
    assert_eq!(locate_entry(&names, "missing"), None);
}
