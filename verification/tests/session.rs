use verify_tests::discovery::{find_reviewable_tests, Candidate, FileAction, ReviewableTest};
use verify_tests::review::ReviewResult;
use verify_tests::session::{ReviewSession, SessionAction, SessionEvent, SessionStage};
use verify_tests::snapshot::VerifyTest;

fn pair(name: &str, accepted_text: &str, received_text: &str) -> Candidate {
    Candidate {
        received: format!("d/{}.received.json", name),
        received_text: received_text.to_string(),
        accepted_text: Some(accepted_text.to_string()),
    }
}

fn discovered(pairs: &[(&str, &str, &str)]) -> Vec<ReviewableTest> {
    let found: Vec<Candidate> = pairs.iter().map(|(n, a, r)| pair(n, a, r)).collect();
    find_reviewable_tests(&found)
}

fn exited(accepted_before: &str, received_before: &str, accepted_after: &str) -> SessionEvent {
    SessionEvent::ToolExited {
        accepted_before: accepted_before.to_string(),
        received_before: received_before.to_string(),
        accepted_after: accepted_after.to_string(),
    }
}

fn run_tool(name: &str) -> SessionAction {
    SessionAction::RunTool {
        accepted: format!("d/{}.accepted.json", name),
        received: format!("d/{}.received.json", name),
    }
}

fn remove(name: &str) -> SessionAction {
    SessionAction::RemoveReceived { path: format!("d/{}.received.json", name) }
}

#[test]
fn start_with_nothing_finishes_at_once() {
    let (session, removals) = ReviewSession::start(&Vec::new());
    assert_eq!(removals, Vec::new());
    assert_eq!(session.action(), SessionAction::Finish);
    assert_eq!(session.stage(), &SessionStage::Closed);
}

#[test]
fn start_resolves_what_matches_already() {
    let tests = discovered(&[("a", "1", "2"), ("b", "same", " same\n"), ("c", "", "x")]);
    let (session, removals) = ReviewSession::start(&tests);
    assert_eq!(removals, vec![FileAction::Remove { path: "d/b.received.json".to_string() }]);
    assert_eq!(session.labels(), vec!["a", "c"]);
    assert!(session.worklist().iter().all(|t| !t.already_matches));
    assert_eq!(session.action(), SessionAction::Select);
    assert_eq!(session.stage(), &SessionStage::Pending);
}

#[test]
fn start_with_only_matching_tests_asks_nothing() {
    let tests = discovered(&[("a", "x", "x"), ("b", "y", "y ")]);
    let (session, removals) = ReviewSession::start(&tests);
    assert_eq!(
        removals,
        vec![
            FileAction::Remove { path: "d/a.received.json".to_string() },
            FileAction::Remove { path: "d/b.received.json".to_string() },
        ]
    );
    assert!(session.worklist().is_empty());
    assert_eq!(session.action(), SessionAction::Finish);
}

#[test]
fn selection_runs_the_tool_on_the_pair() {
    let tests = discovered(&[("a", "1", "2"), ("c", "", "x")]);
    let (session, _) = ReviewSession::start(&tests);
    let (session, action) = session.step(SessionEvent::Selected { index: 1 });
    assert_eq!(action, run_tool("c"));
    assert_eq!(session.action(), run_tool("c"));
    assert_eq!(session.labels(), vec!["a", "c"]);
}

#[test]
fn selection_out_of_range_asks_again() {
    let tests = discovered(&[("a", "1", "2")]);
    let (session, _) = ReviewSession::start(&tests);
    let (session, action) = session.step(SessionEvent::Selected { index: 1 });
    assert_eq!(action, SessionAction::Select);
    assert_eq!(session.stage(), &SessionStage::Pending);
}

#[test]
fn aborted_selection_ends_the_session_and_keeps_the_work() {
    let tests = discovered(&[("a", "1", "2"), ("c", "", "x")]);
    let (session, _) = ReviewSession::start(&tests);
    let (session, action) = session.step(SessionEvent::SelectionAborted);
    assert_eq!(action, SessionAction::Finish);
    assert_eq!(session.labels(), vec!["a", "c"]);
    let (session, action) = session.step(SessionEvent::Selected { index: 0 });
    assert_eq!(action, SessionAction::Finish);
    assert_eq!(session.stage(), &SessionStage::Closed);
}

#[test]
fn match_resolves_without_confirmation() {
    let tests = discovered(&[("a", "1", "2"), ("c", "", "x")]);
    let (session, _) = ReviewSession::start(&tests);
    let (session, _) = session.step(SessionEvent::Selected { index: 0 });
    let (session, action) = session.step(exited("1", "2", "2\n"));
    assert_eq!(action, remove("a"));
    assert_eq!(session.labels(), vec!["c"]);
    let (session, action) = session.step(SessionEvent::Removed);
    assert_eq!(action, SessionAction::Select);
    assert_eq!(session.labels(), vec!["c"]);
}

#[test]
fn other_edit_needs_confirmation() {
    let tests = discovered(&[("a", "1", "2")]);
    let (session, _) = ReviewSession::start(&tests);
    let (session, _) = session.step(SessionEvent::Selected { index: 0 });
    let (session, action) = session.step(exited("1", "2", "3"));
    assert_eq!(action, SessionAction::Confirm { outcome: ReviewResult::NoMatch });
    assert_eq!(session.labels(), vec!["a"]);
    let (session, action) = session.step(SessionEvent::Confirmed { yes: true });
    assert_eq!(action, remove("a"));
    assert!(session.worklist().is_empty());
    let (session, action) = session.step(SessionEvent::Removed);
    assert_eq!(action, SessionAction::Finish);
    assert_eq!(session.stage(), &SessionStage::Closed);
}

#[test]
fn untouched_file_needs_confirmation() {
    let tests = discovered(&[("a", "1", "2")]);
    let (session, _) = ReviewSession::start(&tests);
    let (session, _) = session.step(SessionEvent::Selected { index: 0 });
    let (_, action) = session.step(exited("1", "2", " 1 "));
    assert_eq!(action, SessionAction::Confirm { outcome: ReviewResult::NoChanges });
}

#[test]
fn declined_confirmation_keeps_the_test_pending() {
    let tests = discovered(&[("a", "1", "2"), ("c", "", "x")]);
    let (session, _) = ReviewSession::start(&tests);
    let (session, _) = session.step(SessionEvent::Selected { index: 0 });
    let (session, _) = session.step(exited("1", "2", "1"));
    let (session, action) = session.step(SessionEvent::Confirmed { yes: false });
    assert_eq!(action, SessionAction::Select);
    assert_eq!(session.labels(), vec!["a", "c"]);
    let (session, action) = session.step(SessionEvent::Selected { index: 0 });
    assert_eq!(action, run_tool("a"));
    let (_, action) = session.step(exited("1", "2", "9"));
    assert_eq!(action, SessionAction::Confirm { outcome: ReviewResult::NoMatch });
}

#[test]
fn aborted_confirmation_ends_the_session_and_keeps_the_test() {
    for accepted_after in ["9", "1"] {
        let tests = discovered(&[("a", "1", "2"), ("c", "", "x")]);
        let (session, _) = ReviewSession::start(&tests);
        let (session, _) = session.step(SessionEvent::Selected { index: 0 });
        let (session, action) = session.step(exited("1", "2", accepted_after));
        assert!(matches!(action, SessionAction::Confirm { .. }));
        let (session, action) = session.step(SessionEvent::ConfirmationAborted);
        assert_eq!(action, SessionAction::Finish);
        assert_eq!(session.stage(), &SessionStage::Closed);
        assert_eq!(session.labels(), vec!["a", "c"]);
        let (session, action) = session.step(SessionEvent::Selected { index: 0 });
        assert_eq!(action, SessionAction::Finish);
        assert_eq!(session.labels(), vec!["a", "c"]);
    }
}

#[test]
fn fault_aborts_the_session() {
    let tests = discovered(&[("a", "1", "2"), ("c", "", "x")]);
    let (session, _) = ReviewSession::start(&tests);
    let (session, _) = session.step(SessionEvent::Selected { index: 0 });
    let (session, action) = session.step(SessionEvent::Failed);
    assert_eq!(action, SessionAction::Abort);
    assert_eq!(session.labels(), vec!["a", "c"]);
    let (session, action) = session.step(SessionEvent::Removed);
    assert_eq!(action, SessionAction::Abort);
    assert_eq!(session.stage(), &SessionStage::Failed);
}

#[test]
fn fault_while_removing_aborts_the_session() {
    let tests = discovered(&[("a", "1", "2")]);
    let (session, _) = ReviewSession::start(&tests);
    let (session, _) = session.step(SessionEvent::Selected { index: 0 });
    let (session, _) = session.step(exited("1", "2", "2"));
    let (_, action) = session.step(SessionEvent::Failed);
    assert_eq!(action, SessionAction::Abort);
}

#[test]
fn event_out_of_turn_changes_nothing() {
    let tests = discovered(&[("a", "1", "2")]);
    let (session, _) = ReviewSession::start(&tests);
    let before = session.clone();
    let (session, action) = session.step(SessionEvent::Confirmed { yes: true });
    assert_eq!(action, SessionAction::Select);
    assert_eq!(session, before);
    let (session, action) = session.step(SessionEvent::Removed);
    assert_eq!(action, SessionAction::Select);
    let (session, action) = session.step(exited("1", "2", "2"));
    assert_eq!(action, SessionAction::Select);
    assert_eq!(session, before);
}

#[test]
fn resolving_takes_every_equal_record_out() {
    let tests = discovered(&[("a", "1", "2"), ("c", "", "x"), ("a", "1", "2")]);
    let (session, _) = ReviewSession::start(&tests);
    assert_eq!(session.labels(), vec!["a", "c", "a"]);
    let (session, _) = session.step(SessionEvent::Selected { index: 2 });
    let (session, action) = session.step(exited("1", "2", "2"));
    assert_eq!(action, remove("a"));
    assert_eq!(session.labels(), vec!["c"]);
}

#[test]
fn rect_is_reviewed_from_first_run_to_acceptance() {
    let store = VerifyTest::new("d");
    let text = "{\n  \"width\": 30,\n  \"height\": 40\n}";
    let check = store.assert_snapshot("rect", None, text);
    assert!(!check.matched);
    assert!(check.create_accepted);
    let accepted_on_disk = String::new();
    let received_on_disk = check.write_received.clone().unwrap();
    assert_eq!(check.received_path, "d/rect.received.json");

    let found = vec![Candidate {
        received: check.received_path.clone(),
        received_text: received_on_disk.clone(),
        accepted_text: Some(accepted_on_disk.clone()),
    }];
    let tests = find_reviewable_tests(&found);
    assert_eq!(tests.len(), 1);
    assert!(!tests[0].already_matches);
    assert_eq!(tests[0].base_name, "rect");
    assert_eq!(tests[0].accepted, check.accepted_path);

    let (session, removals) = ReviewSession::start(&tests);
    assert_eq!(removals, Vec::new());
    let (session, action) = session.step(SessionEvent::Selected { index: 0 });
    assert_eq!(action, run_tool("rect"));
    let accepted_after = received_on_disk.clone();
    let (session, action) =
        session.step(exited(&accepted_on_disk, &received_on_disk, &accepted_after));
    assert_eq!(action, remove("rect"));
    let (session, action) = session.step(SessionEvent::Removed);
    assert_eq!(action, SessionAction::Finish);
    assert!(session.worklist().is_empty());
    assert_eq!(accepted_after, text);

    let again = store.assert_snapshot("rect", Some(&accepted_after), text);
    assert!(again.matched);
    assert_eq!(again.write_received, None);
}
