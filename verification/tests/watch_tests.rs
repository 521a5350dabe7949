//! The watch session's single-session rule and the debouncer's collapsing of
//! rapid events into one stabilised observation.

use file_organiser::ledger::Database;
use file_organiser::rulematch::{first_rule_match, glob_match};
use file_organiser::watch::{
    file_info_for,
    Debouncer,
    FsEventKind,
    WatchSession,
    DEBOUNCE_WINDOW_MS,
};

#[test]
fn test_single_watch_session() {
    let mut session = WatchSession::new();
    assert!(!session.is_watcher_running());

    session.start_watching("/watched".to_string(), true, true).unwrap();
    assert!(session.is_watcher_running());

    let again = session.start_watching("/other".to_string(), true, true);
    assert_eq!(again.unwrap_err(), "File watcher is already running");

    session.stop_watching().unwrap();
    assert!(!session.is_watcher_running());
    assert!(session.should_stop());

    let idle = session.stop_watching();
    assert_eq!(idle.unwrap_err(), "File watcher is not running");
}

#[test]
fn test_start_watching_validates_path() {
    let mut session = WatchSession::new();
    let missing = session.start_watching("/gone".to_string(), false, false);
    assert_eq!(missing.unwrap_err(), "Path does not exist: /gone");
    let not_dir = session.start_watching("/a/file.txt".to_string(), true, false);
    assert_eq!(not_dir.unwrap_err(), "Path is not a directory: /a/file.txt");
    assert!(!session.is_watcher_running());
}

#[test]
fn test_stop_signal_round_trip() {
    let mut session = WatchSession::new();
    assert!(!session.should_stop());
    session.signal_stop();
    assert!(session.should_stop());
    session.reset_stop_signal();
    assert!(!session.should_stop());
}

#[test]
fn test_three_rapid_writes_emit_one_observation() {
    let w = DEBOUNCE_WINDOW_MS;
    let mut d = Debouncer::new(w);
    // Three rapid writes to the same new file, all within the window.
    d.record_event(FsEventKind::Create, "/in/new.pdf", true, 1000);
    d.record_event(FsEventKind::Create, "/in/new.pdf", true, 1400);
    d.record_event(FsEventKind::Create, "/in/new.pdf", true, 1900);

    // Nothing is announced while the window is still running.
    assert!(d.take_stable(1900 + (w as i64) - 1).is_empty());

    // Re-stamp: the earlier poll consumed nothing, the entry is still pending.
    let stable = d.take_stable(1900 + w as i64);
    assert_eq!(stable, vec!["/in/new.pdf".to_string()]);

    // Announced exactly once: nothing is left pending.
    assert!(d.take_stable(1_000_000).is_empty());
}

#[test]
fn test_directories_and_other_events_ignored() {
    let mut d = Debouncer::new(DEBOUNCE_WINDOW_MS);
    d.record_event(FsEventKind::Create, "/in/folder", false, 1000);
    d.record_event(FsEventKind::Modify, "/in/touched.txt", true, 1000);
    d.record_event(FsEventKind::Remove, "/in/gone.txt", true, 1000);
    d.record_event(FsEventKind::Other, "/in/odd.txt", true, 1000);
    assert!(d.take_stable(1_000_000).is_empty());
}

#[test]
fn test_two_files_each_announced_once() {
    let mut d = Debouncer::new(100);
    d.record_event(FsEventKind::Create, "/in/a.txt", true, 1000);
    d.record_event(FsEventKind::Create, "/in/b.txt", true, 1050);
    let first = d.take_stable(1120);
    assert_eq!(first, vec!["/in/a.txt".to_string()]);
    let second = d.take_stable(1200);
    assert_eq!(second, vec!["/in/b.txt".to_string()]);
}

#[test]
fn test_file_info_fields() {
    let info = file_info_for("/in/report final.pdf", 2048);
    assert_eq!(info.path, "/in/report final.pdf");
    assert_eq!(info.name, "report final.pdf");
    assert_eq!(info.size, 2048);
    let odd = file_info_for("/in/", 0);
    assert_eq!(odd.name, "unknown");
}

#[test]
fn test_rule_shortcut_matches_in_order() {
    assert!(glob_match("*_ML_*", "week3_ML_notes.pdf"));
    assert!(glob_match("Lecture*", "Lecture 4.pdf"));
    assert!(glob_match("*.pdf", "anything.pdf"));
    assert!(!glob_match("*.pdf", "anything.txt"));
    assert!(glob_match("exact", "exact"));
    assert!(!glob_match("exact", "exactly"));

    let mut db = Database::new();
    db.add_rule("*.pdf", "/courses/pdfs").unwrap();
    db.add_rule("Lecture*", "/courses/lectures").unwrap();
    let rules = db.get_rules().unwrap();
    assert_eq!(
        first_rule_match(&rules, "Lecture 9.pdf"),
        Some("/courses/pdfs".to_string())
    );
    assert_eq!(first_rule_match(&rules, "Lecture 9.txt"), Some("/courses/lectures".to_string()));
    assert_eq!(first_rule_match(&rules, "notes.txt"), None);
}
