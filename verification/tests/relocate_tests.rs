//! The relocation engine on the in-memory tree: moves, auto-renaming,
//! replace, rename, the compound rename-and-move with rollback, undo, and
//! trash.

use file_organiser::errors::CommandError;
use file_organiser::fsys::FsState;
use file_organiser::relocate::{
    create_folder,
    move_file,
    move_file_with_rename,
    rename_and_move_file,
    rename_file,
    replace_file,
    trash_file,
    undo_move,
    validate_path,
};

fn tree() -> FsState {
    FsState::new()
}

#[test]
fn test_move_file_success() {
    let mut fs = tree();
    fs.mkdir("/src");
    fs.mkdir("/dest");
    fs.write_file("/src/test.txt", b"hello world".to_vec());

    let result = move_file(&mut fs, "/src/test.txt", "/dest").unwrap();

    assert!(result.contains("Moved to"));
    assert!(!fs.is_file("/src/test.txt"));
    assert!(fs.is_file("/dest/test.txt"));
    assert_eq!(fs.read_file("/dest/test.txt").unwrap(), b"hello world".to_vec());
}

#[test]
fn test_move_file_source_not_found() {
    let mut fs = tree();
    let result = move_file(&mut fs, "/nowhere/file.txt", "/some_dest");
    assert!(result.is_err());
    assert!(matches!(result.unwrap_err(), CommandError::FileNotFound(_)));
}

#[test]
fn test_move_file_dest_already_exists() {
    let mut fs = tree();
    fs.mkdir("/src");
    fs.mkdir("/dest");
    fs.write_file("/src/dup.txt", b"source".to_vec());
    fs.write_file("/dest/dup.txt", b"already here".to_vec());

    let result = move_file(&mut fs, "/src/dup.txt", "/dest");
    assert!(result.is_err());
    assert!(matches!(result.unwrap_err(), CommandError::DuplicateExists(_)));

    // No filesystem change at all: source untouched, destination untouched.
    assert_eq!(fs.read_file("/src/dup.txt").unwrap(), b"source".to_vec());
    assert_eq!(fs.read_file("/dest/dup.txt").unwrap(), b"already here".to_vec());
}

#[test]
fn test_move_file_creates_dest_folder() {
    let mut fs = tree();
    fs.mkdir("/src");
    fs.write_file("/src/auto.txt", b"data".to_vec());

    let result = move_file(&mut fs, "/src/auto.txt", "/dest/new_folder").unwrap();

    assert!(result.contains("Moved to"));
    assert!(fs.is_file("/dest/new_folder/auto.txt"));
    assert!(fs.is_dir("/dest/new_folder"));
}

#[test]
fn test_move_file_source_is_directory() {
    let mut fs = tree();
    fs.mkdir("/some_dir");

    let result = move_file(&mut fs, "/some_dir", "/some_dest");
    assert!(result.is_err());
    assert!(matches!(result.unwrap_err(), CommandError::InvalidPath(_)));
}

#[test]
fn test_move_file_rejects_traversal() {
    let mut fs = tree();
    let result = move_file(&mut fs, "/src/../etc/passwd", "/dest");
    assert!(matches!(result.unwrap_err(), CommandError::PathTraversal));
    assert!(validate_path("/ok/path").is_ok());
    assert!(validate_path("/bad/../path").is_err());
}

#[test]
fn test_move_file_with_rename_no_conflict() {
    let mut fs = tree();
    fs.mkdir("/src");
    fs.mkdir("/dest");
    fs.write_file("/src/notes.txt", b"content".to_vec());

    let result = move_file_with_rename(&mut fs, "/src/notes.txt", "/dest").unwrap();

    assert!(result.contains("Moved to"));
    assert!(fs.is_file("/dest/notes.txt"));
    assert!(!fs.is_file("/src/notes.txt"));
}

#[test]
fn test_move_file_with_rename_one_conflict() {
    let mut fs = tree();
    fs.mkdir("/src");
    fs.mkdir("/dest");
    fs.write_file("/dest/lecture.pdf", b"existing".to_vec());
    fs.write_file("/src/lecture.pdf", b"new version".to_vec());

    let result = move_file_with_rename(&mut fs, "/src/lecture.pdf", "/dest").unwrap();

    assert!(result.contains("Moved to"));
    assert!(fs.is_file("/dest/lecture.pdf"));
    assert!(fs.is_file("/dest/lecture_1.pdf"));
    assert!(!fs.is_file("/src/lecture.pdf"));
    assert_eq!(fs.read_file("/dest/lecture.pdf").unwrap(), b"existing".to_vec());
    assert_eq!(fs.read_file("/dest/lecture_1.pdf").unwrap(), b"new version".to_vec());
}

#[test]
fn test_move_file_with_rename_multiple_conflicts() {
    let mut fs = tree();
    fs.mkdir("/src");
    fs.mkdir("/dest");
    fs.write_file("/dest/doc.txt", b"v0".to_vec());
    fs.write_file("/dest/doc_1.txt", b"v1".to_vec());
    fs.write_file("/dest/doc_2.txt", b"v2".to_vec());
    fs.write_file("/src/doc.txt", b"v3".to_vec());

    let result = move_file_with_rename(&mut fs, "/src/doc.txt", "/dest").unwrap();

    assert!(fs.is_file("/dest/doc_3.txt"));
    assert!(result.contains("doc_3.txt"));
    // The three colliding files were never touched.
    assert_eq!(fs.read_file("/dest/doc.txt").unwrap(), b"v0".to_vec());
    assert_eq!(fs.read_file("/dest/doc_1.txt").unwrap(), b"v1".to_vec());
    assert_eq!(fs.read_file("/dest/doc_2.txt").unwrap(), b"v2".to_vec());
}

#[test]
fn test_move_file_with_rename_no_extension() {
    let mut fs = tree();
    fs.mkdir("/src");
    fs.mkdir("/dest");
    fs.write_file("/dest/README", b"existing".to_vec());
    fs.write_file("/src/README", b"new".to_vec());

    let result = move_file_with_rename(&mut fs, "/src/README", "/dest").unwrap();

    assert!(fs.is_file("/dest/README_1"));
    assert!(result.contains("README_1"));
}

#[test]
fn test_replace_file_overwrites() {
    let mut fs = tree();
    fs.mkdir("/src");
    fs.mkdir("/dest");
    fs.write_file("/src/report.txt", b"fresh".to_vec());
    fs.write_file("/dest/report.txt", b"stale".to_vec());

    let result = replace_file(&mut fs, "/src/report.txt", "/dest").unwrap();

    assert!(result.contains("Replaced"));
    assert!(!fs.is_file("/src/report.txt"));
    assert_eq!(fs.read_file("/dest/report.txt").unwrap(), b"fresh".to_vec());
}

#[test]
fn test_rename_file_in_place() {
    let mut fs = tree();
    fs.mkdir("/docs");
    fs.write_file("/docs/old.txt", b"body".to_vec());

    let new_path = rename_file(&mut fs, "/docs/old.txt", "new.txt").unwrap();

    assert_eq!(new_path, "/docs/new.txt");
    assert!(!fs.is_file("/docs/old.txt"));
    assert_eq!(fs.read_file("/docs/new.txt").unwrap(), b"body".to_vec());
}

#[test]
fn test_rename_file_rejects_bad_names() {
    let mut fs = tree();
    fs.mkdir("/docs");
    fs.write_file("/docs/a.txt", b"x".to_vec());

    assert!(matches!(
        rename_file(&mut fs, "/docs/a.txt", "b/c.txt").unwrap_err(),
        CommandError::InvalidPath(_)
    ));
    assert!(matches!(
        rename_file(&mut fs, "/docs/a.txt", "b?.txt").unwrap_err(),
        CommandError::InvalidPath(_)
    ));
    assert!(matches!(
        rename_file(&mut fs, "/docs/a.txt", "   ").unwrap_err(),
        CommandError::InvalidPath(_)
    ));
    assert!(matches!(
        rename_file(&mut fs, "/docs/a.txt", "..name").unwrap_err(),
        CommandError::PathTraversal
    ));
    assert!(fs.is_file("/docs/a.txt"));
}

#[test]
fn test_rename_and_move_success() {
    let mut fs = tree();
    fs.mkdir("/src");
    fs.mkdir("/dest");
    fs.write_file("/src/PS2.pdf", b"content".to_vec());

    let final_path = rename_and_move_file(&mut fs, "/src/PS2.pdf", "econ_ps2.pdf", "/dest").unwrap();

    assert_eq!(final_path, "/dest/econ_ps2.pdf");
    assert!(!fs.is_file("/src/PS2.pdf"));
    assert!(!fs.is_file("/src/econ_ps2.pdf"));
    assert_eq!(fs.read_file("/dest/econ_ps2.pdf").unwrap(), b"content".to_vec());
}

#[test]
fn test_rename_and_move_rolls_back_when_dest_missing() {
    let mut fs = tree();
    fs.mkdir("/src");
    fs.write_file("/src/PS2.pdf", b"content".to_vec());

    let result = rename_and_move_file(&mut fs, "/src/PS2.pdf", "econ_ps2.pdf", "/gone");
    assert!(matches!(result.unwrap_err(), CommandError::FileNotFound(_)));

    // The file sits at its original name and path; nothing remains at the
    // intermediate renamed name.
    assert_eq!(fs.read_file("/src/PS2.pdf").unwrap(), b"content".to_vec());
    assert!(!fs.is_file("/src/econ_ps2.pdf"));
}

#[test]
fn test_rename_and_move_rolls_back_on_final_collision() {
    let mut fs = tree();
    fs.mkdir("/src");
    fs.mkdir("/dest");
    fs.write_file("/src/PS2.pdf", b"content".to_vec());
    fs.write_file("/dest/econ_ps2.pdf", b"taken".to_vec());

    let result = rename_and_move_file(&mut fs, "/src/PS2.pdf", "econ_ps2.pdf", "/dest");
    assert!(matches!(result.unwrap_err(), CommandError::DuplicateExists(_)));

    assert_eq!(fs.read_file("/src/PS2.pdf").unwrap(), b"content".to_vec());
    assert!(!fs.is_file("/src/econ_ps2.pdf"));
    assert_eq!(fs.read_file("/dest/econ_ps2.pdf").unwrap(), b"taken".to_vec());
}

#[test]
fn test_undo_move_success() {
    let mut fs = tree();
    fs.mkdir("/moved");
    fs.write_file("/moved/undoable.txt", b"undo me".to_vec());

    let result = undo_move(&mut fs, "/moved/undoable.txt", "/orig").unwrap();

    assert!(result.contains("Restored to"));
    assert!(!fs.is_file("/moved/undoable.txt"));
    assert!(fs.is_file("/orig/undoable.txt"));
}

#[test]
fn test_undo_move_file_gone() {
    let mut fs = tree();
    let result = undo_move(&mut fs, "/nowhere/gone.txt", "/some_dir");
    assert!(result.is_err());
    assert!(matches!(result.unwrap_err(), CommandError::FileNotFound(_)));
}

#[test]
fn test_undo_move_conflict_at_original() {
    let mut fs = tree();
    fs.mkdir("/moved");
    fs.mkdir("/orig");
    fs.write_file("/moved/conflict.txt", b"moved version".to_vec());
    fs.write_file("/orig/conflict.txt", b"original still here".to_vec());

    let result = undo_move(&mut fs, "/moved/conflict.txt", "/orig");
    assert!(result.is_err());
    assert!(matches!(result.unwrap_err(), CommandError::DuplicateExists(_)));
}

#[test]
fn test_undo_restores_byte_for_byte() {
    let mut fs = tree();
    fs.mkdir("/home");
    fs.mkdir("/dest");
    fs.write_file("/home/f.bin", vec![0u8, 1, 2, 250, 255]);

    move_file(&mut fs, "/home/f.bin", "/dest").unwrap();
    assert!(!fs.is_file("/home/f.bin"));
    undo_move(&mut fs, "/dest/f.bin", "/home").unwrap();

    assert_eq!(fs.read_file("/home/f.bin").unwrap(), vec![0u8, 1, 2, 250, 255]);
    assert!(!fs.is_file("/dest/f.bin"));
}

#[test]
fn test_trash_file_removes() {
    let mut fs = tree();
    fs.mkdir("/d");
    fs.write_file("/d/junk.txt", b"junk".to_vec());

    let result = trash_file(&mut fs, "/d/junk.txt").unwrap();
    assert_eq!(result, "Sent to recycle bin");
    assert!(!fs.is_file("/d/junk.txt"));

    assert!(matches!(
        trash_file(&mut fs, "/d/junk.txt").unwrap_err(),
        CommandError::FileNotFound(_)
    ));
}

#[test]
fn test_create_folder_idempotent() {
    let mut fs = tree();
    assert!(create_folder(&mut fs, "/a/b").unwrap().contains("Folder created"));
    assert!(create_folder(&mut fs, "/a/b").is_ok());
    assert!(fs.is_dir("/a/b"));
}

#[test]
fn test_io_error_classification() {
    let e = CommandError::from_io_message("Access denied (os error 5)".to_string());
    assert!(matches!(e, CommandError::PermissionDenied(_)));
    let e = CommandError::from_io_message("The file is being used by another process".to_string());
    assert!(matches!(e, CommandError::FileInUse(_)));
    let e = CommandError::from_io_message("The system cannot find the file specified".to_string());
    assert!(matches!(e, CommandError::FileNotFound(_)));
    let e = CommandError::from_io_message("disk quota exceeded".to_string());
    assert!(matches!(e, CommandError::IoError(_)));
}
