//! Scan ordering: folder names alphabetically, files most-recent-first,
//! hidden names recognised.

use file_organiser::ledger::{Correction, Database};
use file_organiser::scan::{is_hidden_name, sort_files_by_modified, sort_folder_names, FileEntry};

fn entry(name: &str, modified: u64) -> FileEntry {
    FileEntry { name: name.to_string(), path: format!("/d/{}", name), size: 1, modified }
}

#[test]
fn test_sort_folder_names_alphabetical() {
    let names = vec!["Zebra".to_string(), "Alpha".to_string(), "Middle".to_string()];
    assert_eq!(sort_folder_names(names), vec!["Alpha", "Middle", "Zebra"]);
}

#[test]
fn test_sort_files_most_recent_first() {
    let files = vec![entry("oldest.txt", 100), entry("newest.txt", 300), entry("middle.txt", 200)];
    let sorted = sort_files_by_modified(files);
    let names: Vec<&str> = sorted.iter().map(|f| f.name.as_str()).collect();
    assert_eq!(names, vec!["newest.txt", "middle.txt", "oldest.txt"]);
}

#[test]
fn test_sort_files_equal_age_keeps_order() {
    let files = vec![entry("a.txt", 100), entry("b.txt", 100), entry("c.txt", 100)];
    let sorted = sort_files_by_modified(files);
    let names: Vec<&str> = sorted.iter().map(|f| f.name.as_str()).collect();
    assert_eq!(names, vec!["a.txt", "b.txt", "c.txt"]);
}

#[test]
fn test_hidden_names() {
    assert!(is_hidden_name(".hidden"));
    assert!(!is_hidden_name("visible.txt"));
    assert!(!is_hidden_name(""));
}

#[test]
fn test_correction_retention_with_equal_times() {
    // Entries created at the same instant: the later insert counts as the
    // more recent, and retention still keeps exactly the bound.
    let mut db = Database::new();
    for i in 0..55 {
        db.add_correction(Correction {
            id: None,
            filename: format!("same{}.pdf", i),
            ai_suggested: "A".to_string(),
            user_chose: "B".to_string(),
            correction_type: "corrected".to_string(),
            created_at: 777,
        })
        .unwrap();
    }
    let got = db.get_corrections().unwrap();
    assert_eq!(got.len(), 50);
    assert_eq!(got[0].filename, "same54.pdf");
    assert_eq!(got[49].filename, "same5.pdf");
}
