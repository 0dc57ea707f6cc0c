use safe_backup::error::{DeleteOutcome, OpError, PathError};
use safe_backup::journal::{log_line, Action, OperationOutcome};

#[test]
fn actions_have_their_words() {
    assert_eq!(Action::Backup.name(), "backup");
    assert_eq!(Action::Restore.name(), "restore");
    assert_eq!(Action::Delete.name(), "delete");
}

#[test]
fn words_name_their_actions() {
    assert_eq!(Action::from_name("backup"), Some(Action::Backup));
    assert_eq!(Action::from_name("restore"), Some(Action::Restore));
    assert_eq!(Action::from_name("delete"), Some(Action::Delete));
}

#[test]
fn other_words_name_no_action() {
    for word in ["", "exit", "Backup", "BACKUP", " backup", "backup ", "back", "backups", "remove"] {
        assert_eq!(Action::from_name(word), None, "{:?}", word);
    }
}

#[test]
fn word_and_action_go_both_ways() {
    for action in [Action::Backup, Action::Restore, Action::Delete] {
        assert_eq!(Action::from_name(action.name()), Some(action));
    }
}

#[test]
fn outcomes_have_their_status() {
    assert_eq!(OperationOutcome::Success.status(), "success");
    assert_eq!(OperationOutcome::Failure("why".to_string()).status(), "failure");
    assert_eq!(OperationOutcome::Cancelled.status(), "cancelled");
}

#[test]
fn outcome_of_a_result() {
    let done: Result<String, OpError> = Ok("/work/a.bak".to_string());
    assert_eq!(OperationOutcome::of(&done), OperationOutcome::Success);
    let restored: Result<(), OpError> = Ok(());
    assert_eq!(OperationOutcome::of(&restored), OperationOutcome::Success);
    let missing: Result<(), OpError> = Err(OpError::NoBackup);
    assert_eq!(
        OperationOutcome::of(&missing),
        OperationOutcome::Failure("Backup file not found".to_string())
    );
    let failed: Result<String, OpError> = Err(OpError::IoFailure("disk full".to_string()));
    assert_eq!(OperationOutcome::of(&failed), OperationOutcome::Failure("disk full".to_string()));
    let refused: Result<String, OpError> = Err(OpError::InvalidPath(PathError::Escapes));
    assert_eq!(
        OperationOutcome::of(&refused),
        OperationOutcome::Failure("Path escapes the working directory".to_string())
    );
}

#[test]
fn outcome_of_a_deletion() {
    assert_eq!(OperationOutcome::of_deletion(&Ok(DeleteOutcome::Deleted)), OperationOutcome::Success);
    assert_eq!(
        OperationOutcome::of_deletion(&Ok(DeleteOutcome::Cancelled)),
        OperationOutcome::Cancelled
    );
    assert_eq!(
        OperationOutcome::of_deletion(&Err(OpError::NotFound)),
        OperationOutcome::Failure("File does not exist".to_string())
    );
}

#[test]
fn line_of_a_success() {
    assert_eq!(
        log_line("2024-05-01T10:00:00Z", Action::Backup, "notes.md", &OperationOutcome::Success),
        "2024-05-01T10:00:00Z | backup | notes.md | success"
    );
    assert_eq!(
        log_line("1714557600", Action::Restore, "notes.md", &OperationOutcome::Success),
        "1714557600 | restore | notes.md | success"
    );
}

#[test]
fn line_of_a_cancelled_deletion() {
    assert_eq!(
        log_line("t", Action::Delete, "notes.md", &OperationOutcome::Cancelled),
        "t | delete | notes.md | cancelled"
    );
}

#[test]
fn line_of_a_failure_gives_the_reason() {
    assert_eq!(
        log_line(
            "t",
            Action::Restore,
            "notes.md",
            &OperationOutcome::Failure("Backup file not found".to_string())
        ),
        "t | restore | notes.md | failure | error=Backup file not found"
    );
    assert_eq!(
        log_line("t", Action::Delete, "../x", &OperationOutcome::of_deletion(&Err(
            OpError::InvalidPath(PathError::TraversalNotAllowed)
        ))),
        "t | delete | ../x | failure | error=Parent directory traversal is not allowed"
    );
}

#[test]
fn line_keeps_the_filename_as_given() {
    assert_eq!(
        log_line("", Action::Backup, "", &OperationOutcome::Success),
        " | backup |  | success"
    );
    assert_eq!(
        log_line("t", Action::Backup, "a | b", &OperationOutcome::Failure(String::new())),
        "t | backup | a | b | failure | error="
    );
}

#[test]
fn outcome_copies_equal_the_outcome() {
    for outcome in [
        OperationOutcome::Success,
        OperationOutcome::Failure("why".to_string()),
        OperationOutcome::Cancelled,
    ] {
        assert_eq!(outcome.clone(), outcome);
    }
}
