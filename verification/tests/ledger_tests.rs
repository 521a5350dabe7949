//! The bounded ledger: corrections and activity with retention, the undo
//! flag, imports, settings and rules.

use file_organiser::ledger::{ActivityEntry, Correction, Database, MAX_ACTIVITY_LOG, MAX_CORRECTIONS};

fn temp_db() -> Database {
    Database::new()
}

#[test]
fn test_add_and_get_correction() {
    let mut db = temp_db();

    let correction = Correction {
        id: None,
        filename: "test.pdf".to_string(),
        ai_suggested: "Math".to_string(),
        user_chose: "Physics".to_string(),
        correction_type: "corrected".to_string(),
        created_at: 1234567890,
    };

    let id = db.add_correction(correction.clone()).unwrap();
    assert!(id > 0);

    let corrections = db.get_corrections().unwrap();
    assert_eq!(corrections.len(), 1);
    assert_eq!(corrections[0].filename, "test.pdf");
    assert_eq!(corrections[0].ai_suggested, "Math");
    assert_eq!(corrections[0].user_chose, "Physics");
}

#[test]
fn test_correction_limit_enforced() {
    let mut db = temp_db();

    for i in 0..60 {
        let correction = Correction {
            id: None,
            filename: format!("file{}.pdf", i),
            ai_suggested: "Folder".to_string(),
            user_chose: "Folder".to_string(),
            correction_type: "accepted".to_string(),
            created_at: i as i64,
        };
        db.add_correction(correction).unwrap();
    }

    let corrections = db.get_corrections().unwrap();
    assert_eq!(corrections.len(), MAX_CORRECTIONS);

    assert_eq!(corrections[0].filename, "file59.pdf");
}

#[test]
fn test_clear_corrections() {
    let mut db = temp_db();

    let correction = Correction {
        id: None,
        filename: "test.pdf".to_string(),
        ai_suggested: "Math".to_string(),
        user_chose: "Math".to_string(),
        correction_type: "accepted".to_string(),
        created_at: 1234567890,
    };
    db.add_correction(correction).unwrap();

    db.clear_corrections().unwrap();
    let corrections = db.get_corrections().unwrap();
    assert!(corrections.is_empty());
}

#[test]
fn test_add_and_get_activity() {
    let mut db = temp_db();

    let entry = ActivityEntry {
        id: None,
        filename: "notes.pdf".to_string(),
        original_filename: None,
        from_folder: "Downloads".to_string(),
        to_folder: "Math".to_string(),
        undone: false,
        created_at: 1234567890,
    };

    let id = db.add_activity(entry.clone()).unwrap();
    assert!(id > 0);

    let entries = db.get_activity_log().unwrap();
    assert_eq!(entries.len(), 1);
    assert_eq!(entries[0].filename, "notes.pdf");
    assert!(!entries[0].undone);
}

#[test]
fn test_mark_activity_undone() {
    let mut db = temp_db();

    let entry = ActivityEntry {
        id: None,
        filename: "notes.pdf".to_string(),
        original_filename: None,
        from_folder: "Downloads".to_string(),
        to_folder: "Math".to_string(),
        undone: false,
        created_at: 1234567890,
    };
    db.add_activity(entry).unwrap();

    let updated = db.mark_activity_undone(1234567890).unwrap();
    assert!(updated);

    let entries = db.get_activity_log().unwrap();
    assert!(entries[0].undone);
}

#[test]
fn test_mark_activity_undone_not_found() {
    let mut db = temp_db();
    let updated = db.mark_activity_undone(9999999999).unwrap();
    assert!(!updated);
}

#[test]
fn test_activity_limit_enforced() {
    let mut db = temp_db();

    for i in 0..110 {
        let entry = ActivityEntry {
            id: None,
            filename: format!("file{}.pdf", i),
            original_filename: None,
            from_folder: "Downloads".to_string(),
            to_folder: "Folder".to_string(),
            undone: false,
            created_at: i as i64,
        };
        db.add_activity(entry).unwrap();
    }

    let entries = db.get_activity_log().unwrap();
    assert_eq!(entries.len(), MAX_ACTIVITY_LOG);

    assert_eq!(entries[0].filename, "file109.pdf");
}

#[test]
fn test_import_corrections() {
    let mut db = temp_db();

    let corrections = vec![
        Correction {
            id: None,
            filename: "a.pdf".to_string(),
            ai_suggested: "Math".to_string(),
            user_chose: "Math".to_string(),
            correction_type: "accepted".to_string(),
            created_at: 1000,
        },
        Correction {
            id: None,
            filename: "b.pdf".to_string(),
            ai_suggested: "Physics".to_string(),
            user_chose: "Chemistry".to_string(),
            correction_type: "corrected".to_string(),
            created_at: 2000,
        },
    ];

    let count = db.import_corrections(corrections).unwrap();
    assert_eq!(count, 2);

    let result = db.get_corrections().unwrap();
    assert_eq!(result.len(), 2);
}

#[test]
fn test_import_activity_log() {
    let mut db = temp_db();

    let entries = vec![
        ActivityEntry {
            id: None,
            filename: "a.pdf".to_string(),
            original_filename: None,
            from_folder: "Downloads".to_string(),
            to_folder: "Math".to_string(),
            undone: false,
            created_at: 1000,
        },
        ActivityEntry {
            id: None,
            filename: "b.pdf".to_string(),
            original_filename: None,
            from_folder: "Downloads".to_string(),
            to_folder: "Physics".to_string(),
            undone: true,
            created_at: 2000,
        },
    ];

    let count = db.import_activity_log(entries).unwrap();
    assert_eq!(count, 2);

    let result = db.get_activity_log().unwrap();
    assert_eq!(result.len(), 2);
    assert!(result[0].undone || result[1].undone);
}

#[test]
fn test_add_and_get_rules() {
    let mut db = temp_db();

    let id1 = db.add_rule("*_ML_*", "C:\\Courses\\ML").unwrap();
    let id2 = db.add_rule("Lecture*", "C:\\Courses\\Lectures").unwrap();
    assert!(id1 > 0);
    assert!(id2 > 0);

    let rules = db.get_rules().unwrap();
    assert_eq!(rules.len(), 2);
    assert_eq!(rules[0].pattern, "*_ML_*");
    assert_eq!(rules[1].pattern, "Lecture*");
}

#[test]
fn test_delete_rule() {
    let mut db = temp_db();

    let id = db.add_rule("*.pdf", "C:\\PDFs").unwrap();
    assert!(db.delete_rule(id).unwrap());

    let rules = db.get_rules().unwrap();
    assert!(rules.is_empty());
}

#[test]
fn test_delete_nonexistent_rule() {
    let mut db = temp_db();
    assert!(!db.delete_rule(999).unwrap());
}

#[test]
fn test_reimport_same_correction_is_noop() {
    let mut db = temp_db();

    let record = Correction {
        id: None,
        filename: "a.pdf".to_string(),
        ai_suggested: "Math".to_string(),
        user_chose: "Math".to_string(),
        correction_type: "accepted".to_string(),
        created_at: 1000,
    };
    db.import_corrections(vec![record.clone()]).unwrap();
    db.import_corrections(vec![record]).unwrap();

    assert_eq!(db.get_corrections().unwrap().len(), 1);
}

#[test]
fn test_settings_last_write_wins() {
    let mut db = temp_db();
    assert!(db.get_setting("api_key").unwrap().is_none());
    db.set_setting("api_key", "first").unwrap();
    db.set_setting("api_key", "second").unwrap();
    db.set_setting("other", "kept").unwrap();
    assert_eq!(db.get_setting("api_key").unwrap().unwrap(), "second");
    assert_eq!(db.get_setting("other").unwrap().unwrap(), "kept");
}

#[test]
fn test_corrections_sorted_newest_first() {
    let mut db = temp_db();
    for at in [500i64, 100, 900, 300] {
        db.add_correction(Correction {
            id: None,
            filename: format!("f{}.pdf", at),
            ai_suggested: "A".to_string(),
            user_chose: "B".to_string(),
            correction_type: "corrected".to_string(),
            created_at: at,
        })
        .unwrap();
    }
    let got = db.get_corrections().unwrap();
    let times: Vec<i64> = got.iter().map(|c| c.created_at).collect();
    assert_eq!(times, vec![900, 500, 300, 100]);
}
