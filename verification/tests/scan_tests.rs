use std::path::PathBuf;

use nnbfl_preview::archive::ArchiveEntry;
use nnbfl_preview::scan::{ArchiveScan, ArchiveScanEvent};
use nnbfl_preview::ui_state::{contains_str, matching_entries, ArchiveBrowser, ScanStatus};

fn entry(display: &str, idx: usize) -> ArchiveEntry {
    ArchiveEntry {
        path: format!("/r/{idx}.szs"),
        nested_path: vec![],
        display_name: display.to_string(),
        file_idx: idx,
        hash: 0,
        hash_multiplier: 0,
        last_label: None,
    }
}

fn names(scan: &ArchiveScan) -> Vec<String> {
    scan.entries.iter().map(|e| e.display_name.clone()).collect()
}

#[test]
fn a_new_scan_is_empty() {
    let scan = ArchiveScan::start(PathBuf::from("/layouts"));
    assert_eq!(scan.root(), &PathBuf::from("/layouts"));
    assert!(scan.entries.is_empty());
    assert_eq!((scan.scanned, scan.total), (0, 0));
    assert!(!scan.done);
    assert!(!scan.cancelled);
}

#[test]
fn poll_without_events_changes_nothing() {
    let mut scan = ArchiveScan::start(PathBuf::from("/layouts"));
    assert!(!scan.poll(vec![]));
    assert!(scan.entries.is_empty());
}

#[test]
fn poll_sorts_found_entries_by_lowercase_name() {
    let mut scan = ArchiveScan::start(PathBuf::from("/layouts"));
    let changed = scan.poll(vec![
        ArchiveScanEvent::Progress { scanned: 0, total: 3 },
        ArchiveScanEvent::Found(entry("zeta", 0)),
        ArchiveScanEvent::Found(entry("Alpha", 1)),
        ArchiveScanEvent::Progress { scanned: 1, total: 3 },
        ArchiveScanEvent::Found(entry("beta", 2)),
    ]);
    assert!(changed);
    assert_eq!(names(&scan), vec!["Alpha", "beta", "zeta"]);
    assert_eq!((scan.scanned, scan.total), (1, 3));
    assert!(!scan.done);

    scan.poll(vec![ArchiveScanEvent::Found(entry("Beta2", 3)), ArchiveScanEvent::Finished]);
    assert_eq!(names(&scan), vec!["Alpha", "beta", "Beta2", "zeta"]);
    assert!(scan.done);
    assert_eq!((scan.scanned, scan.total), (1, 3));
}

#[test]
fn poll_keeps_the_order_of_equal_names() {
    let mut scan = ArchiveScan::start(PathBuf::from("/layouts"));
    scan.poll(vec![
        ArchiveScanEvent::Found(entry("Same", 0)),
        ArchiveScanEvent::Found(entry("a", 1)),
        ArchiveScanEvent::Found(entry("SAME", 2)),
        ArchiveScanEvent::Found(entry("same", 3)),
    ]);
    let idx: Vec<usize> = scan.entries.iter().map(|e| e.file_idx).collect();
    assert_eq!(idx, vec![1, 0, 2, 3]);
}

#[test]
fn poll_with_only_progress_keeps_entry_order() {
    let mut scan = ArchiveScan::start(PathBuf::from("/layouts"));
    scan.entries.push(entry("b", 0));
    scan.entries.push(entry("a", 1));
    assert!(scan.poll(vec![ArchiveScanEvent::Progress { scanned: 2, total: 2 }]));
    assert_eq!(names(&scan), vec!["b", "a"]);
    assert_eq!((scan.scanned, scan.total), (2, 2));
}

#[test]
fn request_cancel_marks_the_scan() {
    let mut scan = ArchiveScan::start(PathBuf::from("/layouts"));
    scan.request_cancel();
    assert!(scan.cancelled);
    assert!(!scan.done);
}

#[test]
fn substring_search() {
    assert!(contains_str("common > header.bflyt", "head"));
    assert!(contains_str("abc", ""));
    assert!(contains_str("", ""));
    assert!(!contains_str("", "a"));
    assert!(!contains_str("abc", "abcd"));
    assert!(contains_str("abc", "abc"));
    assert!(!contains_str("abc", "cb"));
}

#[test]
fn browser_search_is_case_insensitive() {
    let entries = vec![entry("Common > Header.bflyt", 0), entry("Title", 1), entry("HEADLINE", 2)];
    assert_eq!(matching_entries(&entries, ""), vec![0, 1, 2]);
    assert_eq!(matching_entries(&entries, "head"), vec![0, 2]);
    assert_eq!(matching_entries(&entries, "TITLE"), vec![1]);
    assert_eq!(matching_entries(&entries, "missing"), Vec::<usize>::new());
}

#[test]
fn browser_status_line() {
    let mut scan = ArchiveScan::start(PathBuf::from("/layouts"));
    scan.scanned = 5;
    scan.total = 3;
    assert_eq!(ArchiveBrowser::scan_status(&scan), ScanStatus::Scanning { scanned: 5, of: 5 });
    assert_eq!(ArchiveBrowser::scan_buttons(&scan), (true, false));
    scan.total = 9;
    assert_eq!(ArchiveBrowser::scan_status(&scan), ScanStatus::Scanning { scanned: 5, of: 9 });
    scan.request_cancel();
    assert_eq!(ArchiveBrowser::scan_status(&scan), ScanStatus::Cancelled { scanned: 5, total: 9 });
    assert_eq!(ArchiveBrowser::scan_buttons(&scan), (false, true));
    scan.poll(vec![ArchiveScanEvent::Found(entry("x", 0)), ArchiveScanEvent::Finished]);
    assert_eq!(ArchiveBrowser::scan_status(&scan), ScanStatus::Done { found: 1, scanned: 5 });
}

#[test]
fn a_scan_keeps_its_root_and_stays_finished() {
    let mut scan = ArchiveScan::start(PathBuf::from("/layouts"));
    scan.poll(vec![ArchiveScanEvent::Found(entry("b", 1)), ArchiveScanEvent::Finished]);
    scan.request_cancel();
    scan.poll(vec![ArchiveScanEvent::Progress { scanned: 3, total: 4 }]);
    assert_eq!(scan.root(), &PathBuf::from("/layouts"));
    assert!(scan.done);
    assert!(scan.cancelled);
    assert_eq!((scan.scanned, scan.total), (3, 4));
}
