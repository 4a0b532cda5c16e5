use mkfile::batch::tally;
use mkfile::creator::notification_message;
use mkfile::text::decimal_string;
use mkfile::{Action, Batch, BatchOutcome, CreationResult, Event, FileCreator};

fn texts(items: &[&str]) -> Vec<String> {
    items.iter().map(|s| s.to_string()).collect()
}

/// Carries a batch through, failing the creation of the file of each path
/// that holds a null byte; returns the actions that were asked for.
fn run(batch: &mut Batch) -> Vec<String> {
    let mut log = Vec::new();
    loop {
        let event = match batch.action() {
            Action::Finished => break,
            Action::CreateParent(path) => {
                log.push(format!("parent {}", path));
                Event::Created
            }
            Action::CreateFile(path) => {
                log.push(format!("file {}", path));
                if path.contains('\0') {
                    Event::Failed("file name contained an unexpected NUL byte".to_string())
                } else {
                    Event::Created
                }
            }
            Action::Resolve(path) => {
                log.push(format!("resolve {}", path));
                Event::Resolved(format!("/abs/{}", path))
            }
            Action::Announce { absolute, path, notify } => {
                log.push(format!("announce {} {} {}", absolute, path, notify));
                Event::Announced
            }
        };
        batch.advance(event);
    }
    log
}

#[test]
fn one_bad_path_in_three() {
    let creator = FileCreator::new(false, true);
    let mut batch = creator.create_files(&texts(&["a.txt", "b\0.txt", "c.txt"]));
    run(&mut batch);
    let outcome = batch.outcome();
    assert_eq!(outcome.success_count, 2);
    assert_eq!(outcome.total_count, 3);
    assert_eq!(outcome.summary(), "2/3 file(s) created successfully");
    assert_eq!(outcome.exit_code(), 1);
    assert!(!outcome.all_created());
    let results = batch.results();
    assert_eq!(results.len(), 3);
    assert_eq!(results[0].path, "a.txt");
    assert!(results[0].succeeded);
    assert_eq!(results[0].error_detail, None);
    assert_eq!(results[1].path, "b\0.txt");
    assert!(!results[1].succeeded);
    assert_eq!(
        results[1].error_detail,
        Some("file name contained an unexpected NUL byte".to_string())
    );
    assert_eq!(results[2].path, "c.txt");
    assert!(results[2].succeeded);
}

#[test]
fn no_files_is_a_success() {
    let creator = FileCreator::new(true, true);
    let mut batch = creator.create_files(&[]);
    assert!(batch.is_finished());
    assert!(matches!(batch.action(), Action::Finished));
    assert_eq!(run(&mut batch), Vec::<String>::new());
    assert!(batch.results().is_empty());
    let outcome = batch.outcome();
    assert_eq!(outcome, BatchOutcome { success_count: 0, total_count: 0 });
    assert_eq!(outcome.exit_code(), 0);
    assert!(outcome.all_created());
    assert_eq!(outcome.summary(), "0/0 file(s) created successfully");
}

#[test]
fn the_same_path_twice_succeeds_twice() {
    let creator = FileCreator::new(false, false);
    let mut batch = creator.create_files(&texts(&["same.txt", "same.txt"]));
    run(&mut batch);
    assert_eq!(batch.outcome(), BatchOutcome { success_count: 2, total_count: 2 });
    assert_eq!(batch.outcome().exit_code(), 0);
    assert!(batch.results().iter().all(|r| r.succeeded && r.path == "same.txt"));
}

#[test]
fn the_steps_of_a_path_come_in_order() {
    let creator = FileCreator::new(false, true);
    let mut batch = creator.create_files(&texts(&["d/{a,b}.rs"]));
    let log = run(&mut batch);
    assert_eq!(
        log,
        texts(&[
            "parent d/a.rs",
            "file d/a.rs",
            "resolve d/a.rs",
            "announce /abs/d/a.rs d/a.rs true",
            "parent d/b.rs",
            "file d/b.rs",
            "resolve d/b.rs",
            "announce /abs/d/b.rs d/b.rs true",
        ])
    );
}

#[test]
fn the_total_counts_the_expanded_paths() {
    let creator = FileCreator::new(false, true);
    let batch = creator.create_files(&texts(&["one", "d/{a,b,c}", "{}", "two"]));
    assert_eq!(batch.paths(), &texts(&["one", "d/a", "d/b", "d/c", "two"]));
    assert_eq!(batch.outcome(), BatchOutcome { success_count: 0, total_count: 5 });
    assert_eq!(batch.outcome().exit_code(), 1);
}

#[test]
fn missing_directories_fail_the_path_and_skip_its_file() {
    let mut batch = Batch::new(texts(&["x/a", "b"]), false);
    assert!(matches!(batch.action(), Action::CreateParent(p) if p == "x/a"));
    batch.advance(Event::Failed("permission denied".to_string()));
    assert!(matches!(batch.action(), Action::CreateParent(p) if p == "b"));
    let results = batch.results();
    assert_eq!(results.len(), 1);
    assert_eq!(results[0].path, "x/a");
    assert!(!results[0].succeeded);
    assert_eq!(results[0].error_detail, Some("permission denied".to_string()));
    assert!(!batch.is_finished());
}

#[test]
fn a_path_without_absolute_form_is_announced_as_given() {
    let mut batch = Batch::new(texts(&["rel/a.txt"]), true);
    batch.advance(Event::Created);
    assert!(matches!(batch.action(), Action::CreateFile(p) if p == "rel/a.txt"));
    batch.advance(Event::Created);
    assert!(matches!(batch.action(), Action::Resolve(p) if p == "rel/a.txt"));
    batch.advance(Event::Unresolved);
    match batch.action() {
        Action::Announce { absolute, path, notify } => {
            assert_eq!(absolute, "rel/a.txt");
            assert_eq!(path, "rel/a.txt");
            assert!(notify);
        }
        _ => panic!("the announcement is due"),
    }
    assert!(batch.results().is_empty());
    batch.advance(Event::Announced);
    assert!(batch.is_finished());
    assert!(batch.results()[0].succeeded);
}

#[test]
fn the_notifier_is_left_out_when_switched_off() {
    let creator = FileCreator::new(false, false);
    let mut batch = creator.create_files(&texts(&["a"]));
    let log = run(&mut batch);
    assert_eq!(log[3], "announce /abs/a a false");
}

#[test]
fn an_event_that_answers_nothing_changes_nothing() {
    let mut batch = Batch::new(texts(&["a"]), false);
    batch.advance(Event::Announced);
    batch.advance(Event::Unresolved);
    batch.advance(Event::Resolved("/a".to_string()));
    assert!(matches!(batch.action(), Action::CreateParent(p) if p == "a"));
    batch.advance(Event::Created);
    batch.advance(Event::Announced);
    assert!(matches!(batch.action(), Action::CreateFile(p) if p == "a"));
    batch.advance(Event::Created);
    batch.advance(Event::Created);
    batch.advance(Event::Failed("late".to_string()));
    assert!(matches!(batch.action(), Action::Resolve(p) if p == "a"));
    batch.advance(Event::Unresolved);
    batch.advance(Event::Failed("late".to_string()));
    assert!(batch.results().is_empty());
    batch.advance(Event::Announced);
    assert!(batch.is_finished());
    batch.advance(Event::Created);
    batch.advance(Event::Failed("after the end".to_string()));
    assert_eq!(batch.results().len(), 1);
    assert!(batch.results()[0].succeeded);
}

#[test]
fn a_failure_does_not_end_the_batch() {
    let mut batch = Batch::new(texts(&["a", "b", "c"]), false);
    batch.advance(Event::Failed("no directory".to_string()));
    batch.advance(Event::Created);
    batch.advance(Event::Failed("no file".to_string()));
    let log = run(&mut batch);
    assert_eq!(log, texts(&["parent c", "file c", "resolve c", "announce /abs/c c false"]));
    let outcome = batch.outcome();
    assert_eq!(outcome, BatchOutcome { success_count: 1, total_count: 3 });
    assert_eq!(outcome.summary(), "1/3 file(s) created successfully");
    assert_eq!(outcome.exit_code(), 1);
    let details: Vec<Option<String>> =
        batch.results().iter().map(|r| r.error_detail.clone()).collect();
    assert_eq!(
        details,
        vec![Some("no directory".to_string()), Some("no file".to_string()), None]
    );
}

#[test]
fn tallies_the_successes() {
    let result = |path: &str, succeeded: bool| CreationResult {
        path: path.to_string(),
        succeeded,
        error_detail: if succeeded { None } else { Some("failed".to_string()) },
    };
    assert_eq!(tally(&vec![]), 0);
    assert_eq!(tally(&vec![result("a", true), result("b", false), result("c", true)]), 2);
    assert_eq!(tally(&vec![result("a", false)]), 0);
}

#[test]
fn the_exit_code_tells_whether_all_succeeded() {
    assert_eq!(BatchOutcome { success_count: 3, total_count: 3 }.exit_code(), 0);
    assert_eq!(BatchOutcome { success_count: 0, total_count: 0 }.exit_code(), 0);
    assert_eq!(BatchOutcome { success_count: 2, total_count: 3 }.exit_code(), 1);
    assert_eq!(BatchOutcome { success_count: 0, total_count: 1 }.exit_code(), 1);
}

#[test]
fn the_summary_writes_the_counts_in_decimal() {
    let outcome = BatchOutcome { success_count: 10, total_count: 120 };
    assert_eq!(outcome.summary(), "10/120 file(s) created successfully");
    assert_eq!(decimal_string(0), "0");
    assert_eq!(decimal_string(9), "9");
    assert_eq!(decimal_string(10), "10");
    assert_eq!(decimal_string(1234567890), "1234567890");
    assert_eq!(decimal_string(usize::MAX), usize::MAX.to_string());
}

#[test]
fn a_failed_registration_is_reported_in_a_debugging_run() {
    let loud = FileCreator::new(true, true);
    assert_eq!(
        loud.registration_outcome(Some("connection refused")),
        Err("GNTP registration failed: connection refused".to_string())
    );
    assert_eq!(loud.registration_outcome(None), Ok(()));
    let quiet = FileCreator::new(false, true);
    assert_eq!(quiet.registration_outcome(Some("connection refused")), Ok(()));
    let off = FileCreator::new(true, false);
    assert_eq!(off.registration_outcome(Some("connection refused")), Ok(()));
}

#[test]
fn the_notification_quotes_the_file_name() {
    assert_eq!(notification_message("a.txt"), "File created: \"a.txt\"");
    assert_eq!(notification_message(""), "File created: \"\"");
}

#[test]
fn the_creator_keeps_its_switches() {
    let creator = FileCreator::new(true, false);
    assert!(creator.debug);
    assert!(!creator.use_gntp);
}
