use safe_backup::error::{DeleteOutcome, OpError, PathError};
use safe_backup::operations::{
    backup, backup_finished, backup_path_for, confirms, delete, delete_finished, extension,
    restore, restore_finished, FileKind, Removal, Transfer,
};
use safe_backup::sanitizer::{PathSanitizer, SanitizedPath};

fn target(raw: &str) -> SanitizedPath {
    let sandbox = PathSanitizer::new("/work").expect("an absolute root");
    let dir = sandbox.parent_dir(raw).expect("a checked name");
    sandbox.sanitize(raw, Some(&dir)).expect("inside")
}

#[test]
fn backup_path_appends_bak_to_the_extension() {
    assert_eq!(backup_path_for("a.txt"), "a.txt.bak");
    assert_eq!(backup_path_for("a.tar.gz"), "a.tar.gz.bak");
    assert_eq!(backup_path_for("report.csv"), "report.csv.bak");
}

#[test]
fn backup_path_gives_bak_to_a_name_without_extension() {
    assert_eq!(backup_path_for("a"), "a.bak");
    assert_eq!(backup_path_for("README"), "README.bak");
    assert_eq!(backup_path_for(".bashrc"), ".bashrc.bak");
}

#[test]
fn backup_path_looks_at_the_last_name_only() {
    assert_eq!(backup_path_for("/work/notes.md"), "/work/notes.md.bak");
    assert_eq!(backup_path_for("/work/dir.d/file"), "/work/dir.d/file.bak");
    assert_eq!(backup_path_for("dir.d/.hidden"), "dir.d/.hidden.bak");
}

#[test]
fn backup_path_of_odd_names() {
    assert_eq!(backup_path_for("a."), "a..bak");
    assert_eq!(backup_path_for("a.bak"), "a.bak.bak");
    assert_eq!(backup_path_for(""), ".bak");
    assert_eq!(backup_path_for("\u{e9}t\u{e9}.txt"), "\u{e9}t\u{e9}.txt.bak");
}

#[test]
fn backup_path_is_the_same_each_time() {
    assert_eq!(backup_path_for("a.txt"), backup_path_for("a.txt"));
    assert_ne!(backup_path_for("a.txt"), backup_path_for("a.txt.bak"));
}

#[test]
fn extension_is_what_follows_the_last_dot_of_the_last_name() {
    assert_eq!(extension("a.txt"), Some("txt".to_string()));
    assert_eq!(extension("a.tar.gz"), Some("gz".to_string()));
    assert_eq!(extension("/work/notes.md"), Some("md".to_string()));
    assert_eq!(extension("a."), Some(String::new()));
    assert_eq!(extension("..a"), Some("a".to_string()));
}

#[test]
fn extension_is_absent_without_a_dot_behind_the_front() {
    assert_eq!(extension("a"), None);
    assert_eq!(extension(""), None);
    assert_eq!(extension(".bashrc"), None);
    assert_eq!(extension("dir.d/file"), None);
    assert_eq!(extension("dir.d/.hidden"), None);
    assert_eq!(extension("dir.d/"), None);
}

#[test]
fn extension_of_a_backup_path_is_bak() {
    for path in ["a.txt", "a", ".bashrc", "/work/x.tar.gz", "a."] {
        assert_eq!(extension(&backup_path_for(path)), Some("bak".to_string()), "{}", path);
    }
}

#[test]
fn yes_in_any_case_confirms() {
    for token in ["yes", "YES", "Yes", "yEs", "yeS", "YEs", "yES", "YeS"] {
        assert!(confirms(token), "{}", token);
    }
}

#[test]
fn anything_else_does_not_confirm() {
    for token in ["no", "", "y", "ye", "yess", " yes", "yes ", "yes\n", "oui", "\u{ff59}es", "ye\u{17f}"] {
        assert!(!confirms(token), "{:?}", token);
    }
}

#[test]
fn backup_of_a_file_copies_it_to_its_backup_path() {
    let plan = backup(&target("notes.md"), FileKind::Regular);
    assert_eq!(
        plan,
        Ok(Transfer { from: "/work/notes.md".to_string(), to: "/work/notes.md.bak".to_string() })
    );
}

#[test]
fn backup_of_a_missing_file_is_not_found() {
    assert_eq!(backup(&target("notes.md"), FileKind::Missing), Err(OpError::NotFound));
}

#[test]
fn backup_of_a_directory_is_not_a_file() {
    assert_eq!(backup(&target("sub"), FileKind::Other), Err(OpError::NotAFile));
}

#[test]
fn finished_backup_returns_the_backup_path() {
    let plan = backup(&target("notes.md"), FileKind::Regular).unwrap();
    assert_eq!(backup_finished(plan, Ok(())), Ok("/work/notes.md.bak".to_string()));
}

#[test]
fn failed_copy_of_a_backup_is_an_io_failure() {
    let plan = backup(&target("notes.md"), FileKind::Regular).unwrap();
    assert_eq!(
        backup_finished(plan, Err("disk full".to_string())),
        Err(OpError::IoFailure("disk full".to_string()))
    );
}

#[test]
fn restore_copies_the_backup_over_the_file() {
    let plan = restore(&target("notes.md"), true);
    assert_eq!(
        plan,
        Ok(Transfer { from: "/work/notes.md.bak".to_string(), to: "/work/notes.md".to_string() })
    );
    assert_eq!(restore_finished(Ok(())), Ok(()));
}

#[test]
fn restore_without_backup_is_no_backup() {
    assert_eq!(restore(&target("notes.md"), false), Err(OpError::NoBackup));
}

#[test]
fn failed_copy_of_a_restore_is_an_io_failure() {
    assert_eq!(
        restore_finished(Err("permission denied".to_string())),
        Err(OpError::IoFailure("permission denied".to_string()))
    );
}

#[test]
fn restore_reads_what_backup_wrote() {
    let file = target("sub/a.tar.gz");
    let saved = backup(&file, FileKind::Regular).unwrap();
    let back = restore(&file, true).unwrap();
    assert_eq!(saved.to, back.from);
    assert_eq!(saved.from, back.to);
    assert_ne!(saved.from, saved.to);
}

#[test]
fn confirmed_delete_removes_the_file() {
    for token in ["yes", "YES", "Yes"] {
        let plan = delete(&target("notes.md"), FileKind::Regular, token);
        assert_eq!(plan, Ok(Removal::Confirmed("/work/notes.md".to_string())));
        assert_eq!(delete_finished(&plan.unwrap(), Ok(())), Ok(DeleteOutcome::Deleted));
    }
}

#[test]
fn unconfirmed_delete_is_cancelled() {
    for token in ["no", "NO", "", "y", "yes please", "nope"] {
        let plan = delete(&target("notes.md"), FileKind::Regular, token);
        assert_eq!(plan, Ok(Removal::Declined));
        assert_eq!(delete_finished(&plan.unwrap(), Ok(())), Ok(DeleteOutcome::Cancelled));
    }
}

#[test]
fn delete_of_a_missing_file_is_not_found_whatever_the_token() {
    assert_eq!(delete(&target("notes.md"), FileKind::Missing, "yes"), Err(OpError::NotFound));
    assert_eq!(delete(&target("notes.md"), FileKind::Missing, "no"), Err(OpError::NotFound));
}

#[test]
fn delete_of_a_directory_is_not_a_file_whatever_the_token() {
    assert_eq!(delete(&target("sub"), FileKind::Other, "yes"), Err(OpError::NotAFile));
    assert_eq!(delete(&target("sub"), FileKind::Other, "no"), Err(OpError::NotAFile));
}

#[test]
fn failed_removal_is_an_io_failure() {
    let plan = delete(&target("notes.md"), FileKind::Regular, "yes").unwrap();
    assert_eq!(
        delete_finished(&plan, Err("file is locked".to_string())),
        Err(OpError::IoFailure("file is locked".to_string()))
    );
}

#[test]
fn declined_removal_stays_cancelled_whatever_is_reported() {
    assert_eq!(
        delete_finished(&Removal::Declined, Err("never tried".to_string())),
        Ok(DeleteOutcome::Cancelled)
    );
}

#[test]
fn refused_name_becomes_an_invalid_path() {
    assert_eq!(
        OpError::from(PathError::TraversalNotAllowed),
        OpError::InvalidPath(PathError::TraversalNotAllowed)
    );
    let sandbox = PathSanitizer::new("/work").unwrap();
    let refused: Result<SanitizedPath, OpError> =
        sandbox.sanitize("../x", None).map_err(OpError::from);
    assert_eq!(refused, Err(OpError::InvalidPath(PathError::TraversalNotAllowed)));
}

#[test]
fn every_error_has_its_reason() {
    assert_eq!(PathError::Empty.reason(), "Empty filename");
    assert_eq!(PathError::TooLong.reason(), "Filename is too long");
    assert_eq!(PathError::InvalidCharacter.reason(), "Invalid character in filename");
    assert_eq!(PathError::AbsoluteNotAllowed.reason(), "Absolute paths are not allowed");
    assert_eq!(PathError::TraversalNotAllowed.reason(), "Parent directory traversal is not allowed");
    assert_eq!(PathError::InvalidParent.reason(), "Parent directory cannot be resolved");
    assert_eq!(PathError::Escapes.reason(), "Path escapes the working directory");
    assert_eq!(OpError::InvalidPath(PathError::Empty).reason(), "Empty filename");
    assert_eq!(OpError::NotFound.reason(), "File does not exist");
    assert_eq!(OpError::NotAFile.reason(), "Path is not a regular file");
    assert_eq!(OpError::NoBackup.reason(), "Backup file not found");
    assert_eq!(OpError::IoFailure("disk full".to_string()).reason(), "disk full");
}

#[test]
fn copies_equal_what_they_were_made_from() {
    let file = target("notes.md");
    assert_eq!(file.clone(), file);
    let plan = backup(&file, FileKind::Regular).unwrap();
    assert_eq!(plan.clone(), plan);
    let removal = delete(&file, FileKind::Regular, "yes").unwrap();
    assert_eq!(removal.clone(), removal);
    assert_eq!(Removal::Declined.clone(), Removal::Declined);
    let failure = OpError::IoFailure("disk full".to_string());
    assert_eq!(failure.clone(), failure);
    assert_eq!(OpError::NoBackup.clone(), OpError::NoBackup);
    let sandbox = PathSanitizer::new("/work/sub").unwrap();
    assert_eq!(sandbox.clone(), sandbox);
    assert_eq!(sandbox.clone().root(), "/work/sub");
}

#[test]
fn backup_lies_beside_its_file() {
    for raw in ["notes.md", "sub/a.tar.gz", "a/b/c", ".hidden"] {
        let file = target(raw);
        let plan = backup(&file, FileKind::Regular).unwrap();
        let dir_of = |path: &str| path.rsplit_once('/').map(|(dir, _)| dir.to_string());
        assert_eq!(dir_of(&plan.to), dir_of(&plan.from));
        assert!(plan.to.starts_with("/work/"));
    }
}
