use pacrid::executor::{
    destination_for, pick_delete_mode, plan_path, quarantine_destination, undo_step, validate_path, DeleteMode,
    Execution, PathOutcome, PathPlan, RefusalKind, RunAction, UndoStep, FORBIDDEN_PREFIXES,
};
use pacrid::journal::JournalAction;
use pacrid::pacman::db::PacmanDb;

fn empty_db() -> PacmanDb {
    PacmanDb::default()
}

#[test]
fn validate_rejects_each_forbidden_prefix() {
    for p in FORBIDDEN_PREFIXES {
        let err = validate_path(p, &empty_db()).unwrap_err();
        let msg = err.message();
        assert!(msg.contains("forbidden"), "expected forbidden error for {p}, got: {msg}");
    }
}

#[test]
fn validate_rejects_dotdot() {
    let err = validate_path("/home/u/../etc/passwd", &empty_db()).unwrap_err();
    let msg = err.message();
    assert!(msg.contains(".."), "got: {msg}");
}

#[test]
fn validate_accepts_ordinary_path_and_refuses_owned() {
    assert!(validate_path("/home/u/.config/foo", &empty_db()).is_ok());
    assert!(validate_path("/home/u", &empty_db()).is_ok());
    let db = PacmanDb::from_files_contents(&["%FILES%\nusr/bin/steam\n".to_owned()]);
    let err = validate_path("/usr/bin/steam", &db).unwrap_err();
    assert_eq!(err.kind, RefusalKind::OwnedByPacman);
    assert_eq!(err.message(), "path is owned by pacman: /usr/bin/steam");
    let err = validate_path("/usr//bin/./steam", &db).unwrap_err();
    assert_eq!(err.kind, RefusalKind::OwnedByPacman);
}

#[test]
fn plan_follows_verdict_and_dry_run() {
    assert!(matches!(plan_path("/etc", &empty_db(), false), PathPlan::Refuse(_)));
    assert!(matches!(plan_path("/home/u/x", &empty_db(), true), PathPlan::Pretend));
    assert!(matches!(plan_path("/home/u/x", &empty_db(), false), PathPlan::Delete));
}

#[test]
fn delete_mode_priority() {
    assert_eq!(pick_delete_mode(true, true), DeleteMode::Purge);
    assert_eq!(pick_delete_mode(false, true), DeleteMode::Trash);
    assert_eq!(pick_delete_mode(false, false), DeleteMode::Quarantine);
}

#[test]
fn execution_records_outcomes() {
    let mut run = Execution::start("clean", vec!["steam".to_owned()], false);
    run.intend("/home/u/.steam".to_owned(), "trash://".to_owned(), 10);
    run.record("/etc".to_owned(), PathOutcome::Refused(validate_path("/etc", &empty_db()).unwrap_err()));
    run.intend("/home/u/.x".to_owned(), "trash://".to_owned(), 3);
    run.intend("/home/u/.y".to_owned(), "/q/y".to_owned(), 5);
    assert_eq!(run.next_action(), RunAction::WriteJournal);
    run.journal_written();
    assert_eq!(run.next_action(), RunAction::Move { index: 0 });
    run.settle(0, Ok("trash://".to_owned()));
    assert_eq!(run.next_action(), RunAction::Move { index: 1 });
    run.settle(1, Err("permission denied".to_owned()));
    // The failed path left the journal, which is written again before the next move.
    assert_eq!(run.next_action(), RunAction::WriteJournal);
    run.journal_written();
    assert_eq!(run.next_action(), RunAction::Move { index: 1 });
    run.settle(1, Ok("/q/y".to_owned()));
    assert_eq!(run.next_action(), RunAction::Finish);
    let r = run.finish(Some("/j.json".to_owned()));
    assert_eq!(r.succeeded, vec!["/home/u/.steam".to_owned(), "/home/u/.y".to_owned()]);
    assert_eq!(r.failed.len(), 2);
    assert_eq!(r.failed[0].1, "refusing to delete forbidden path: /etc");
    assert_eq!(r.failed[1], ("/home/u/.x".to_owned(), "permission denied".to_owned()));
    assert_eq!(r.freed_bytes, 15);
    assert_eq!(r.journal_path, Some("/j.json".to_owned()));
}

#[test]
fn moves_follow_the_written_journal() {
    let mut run = Execution::start("clean", vec!["steam".to_owned()], false);
    assert_eq!(run.next_action(), RunAction::Finish);
    run.intend("/home/u/.a".to_owned(), "trash://".to_owned(), 1);
    // Nothing is moved before the journal listing it is written.
    assert_eq!(run.next_action(), RunAction::WriteJournal);
    run.journal_written();
    assert_eq!(run.next_action(), RunAction::Move { index: 0 });
    // A fallback destination changes the journal: it is written again.
    run.settle(0, Ok("/var/lib/pacrid/quarantine/t/home/u/.a".to_owned()));
    assert_eq!(run.journal().actions[0].moved_to, "/var/lib/pacrid/quarantine/t/home/u/.a");
    assert_eq!(run.next_action(), RunAction::WriteJournal);
    run.journal_written();
    assert_eq!(run.next_action(), RunAction::Finish);
}

#[test]
fn unwritable_journal_stops_the_run() {
    let mut run = Execution::start("clean", vec!["steam".to_owned()], false);
    run.intend("/home/u/.a".to_owned(), "trash://".to_owned(), 1);
    run.intend("/home/u/.b".to_owned(), "trash://".to_owned(), 2);
    assert_eq!(run.next_action(), RunAction::WriteJournal);
    run.stop("journal not written: disk full".to_owned());
    assert_eq!(run.next_action(), RunAction::Finish);
    assert!(run.journal().actions.is_empty());
    let r = run.finish(None);
    assert!(r.succeeded.is_empty());
    assert_eq!(
        r.failed,
        vec![
            ("/home/u/.a".to_owned(), "journal not written: disk full".to_owned()),
            ("/home/u/.b".to_owned(), "journal not written: disk full".to_owned()),
        ]
    );
    assert_eq!(r.freed_bytes, 0);
}

#[test]
fn destinations_by_mode() {
    assert_eq!(destination_for("/home/u/.a", DeleteMode::Trash, "t"), "trash://");
    assert_eq!(destination_for("/home/u/.a", DeleteMode::Purge, "t"), "purged://");
    assert_eq!(destination_for("/home/u/.a", DeleteMode::Quarantine, "t"), "/var/lib/pacrid/quarantine/t/home/u/.a");
}

#[test]
fn dry_run_needs_no_journal_and_frees_nothing() {
    let mut run = Execution::start("clean", vec!["steam".to_owned()], true);
    run.record("/home/u/.steam".to_owned(), PathOutcome::Pretended);
    assert_eq!(run.next_action(), RunAction::Finish);
    let r = run.finish(None);
    assert_eq!(r.succeeded.len(), 1);
    assert_eq!(r.freed_bytes, 0);
}

#[test]
fn freed_bytes_saturate() {
    let mut run = Execution::start("clean", vec!["p".to_owned()], false);
    run.intend("/a/b".to_owned(), "trash://".to_owned(), u64::MAX);
    run.intend("/a/c".to_owned(), "trash://".to_owned(), 7);
    run.journal_written();
    run.settle(0, Ok("trash://".to_owned()));
    run.settle(1, Ok("trash://".to_owned()));
    assert_eq!(run.finish(None).freed_bytes, u64::MAX);
}

#[test]
fn quarantine_destination_nests_under_timestamp() {
    assert_eq!(
        quarantine_destination("/home/u/.steam", "2024-01-01T00-00-00Z"),
        "/var/lib/pacrid/quarantine/2024-01-01T00-00-00Z/home/u/.steam"
    );
}

#[test]
fn undo_steps() {
    let trash = JournalAction { original: "/a".to_owned(), moved_to: "trash://".to_owned(), size: 1 };
    let q = JournalAction { original: "/a".to_owned(), moved_to: "/var/lib/pacrid/quarantine/t/a".to_owned(), size: 1 };
    assert_eq!(undo_step(&trash, true), UndoStep::Preview);
    assert_eq!(undo_step(&trash, false), UndoStep::FromTrash);
    assert_eq!(undo_step(&q, false), UndoStep::Restore);
}

#[test]
fn forbidden_paths_refused_with_trailing_slash() {
    for p in ["/home/", "/usr/", "//", "/var/./", "//etc"] {
        let err = validate_path(p, &empty_db()).unwrap_err();
        assert_eq!(err.kind, RefusalKind::Forbidden, "{p}");
        assert!(err.message().contains("forbidden"));
    }
}

#[test]
fn failures_keep_the_order_paths_were_given() {
    let mut run = Execution::start("clean", vec!["steam".to_owned()], false);
    run.intend("/home/u/.a".to_owned(), "trash://".to_owned(), 1);
    run.record("/etc".to_owned(), PathOutcome::Refused(validate_path("/etc", &empty_db()).unwrap_err()));
    run.intend("/home/u/.b".to_owned(), "trash://".to_owned(), 2);
    run.record("/usr".to_owned(), PathOutcome::Refused(validate_path("/usr", &empty_db()).unwrap_err()));
    assert_eq!(run.next_action(), RunAction::WriteJournal);
    run.journal_written();
    assert_eq!(run.next_action(), RunAction::Move { index: 0 });
    run.settle(0, Err("busy".to_owned()));
    assert_eq!(run.next_action(), RunAction::WriteJournal);
    run.journal_written();
    assert_eq!(run.next_action(), RunAction::Move { index: 0 });
    run.settle(0, Ok("trash://".to_owned()));
    assert_eq!(run.next_action(), RunAction::Finish);
    let r = run.finish(Some("/j.json".to_owned()));
    assert_eq!(r.succeeded, vec!["/home/u/.b".to_owned()]);
    assert_eq!(
        r.failed,
        vec![
            ("/home/u/.a".to_owned(), "busy".to_owned()),
            ("/etc".to_owned(), "refusing to delete forbidden path: /etc".to_owned()),
            ("/usr".to_owned(), "refusing to delete forbidden path: /usr".to_owned()),
        ]
    );
    assert_eq!(r.freed_bytes, 2);
}

#[test]
fn stopped_run_keeps_the_order_paths_were_given() {
    let mut run = Execution::start("clean", vec!["steam".to_owned()], false);
    run.intend("/home/u/.a".to_owned(), "trash://".to_owned(), 1);
    run.record("/etc".to_owned(), PathOutcome::Refused(validate_path("/etc", &empty_db()).unwrap_err()));
    run.stop("journal not written".to_owned());
    let r = run.finish(None);
    assert_eq!(r.failed[0], ("/home/u/.a".to_owned(), "journal not written".to_owned()));
    assert_eq!(r.failed[1].0, "/etc");
}

#[test]
fn journal_listing_nothing_is_discarded() {
    let mut run = Execution::start("clean", vec!["steam".to_owned()], false);
    run.intend("/home/u/.a".to_owned(), "trash://".to_owned(), 1);
    assert_eq!(run.next_action(), RunAction::WriteJournal);
    run.journal_written();
    run.settle(0, Err("busy".to_owned()));
    // Every move failed: the journal file lists nothing and is removed.
    assert_eq!(run.next_action(), RunAction::DiscardJournal);
    run.journal_discarded();
    assert_eq!(run.next_action(), RunAction::Finish);
    let r = run.finish(None);
    assert!(r.succeeded.is_empty());
    assert_eq!(r.failed, vec![("/home/u/.a".to_owned(), "busy".to_owned())]);
}
