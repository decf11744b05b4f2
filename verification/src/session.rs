//! The review session: a worklist of pairs that do not match yet, and the
//! rules by which an operator's actions resolve them one at a time.
//!
//! The session never touches a file, runs a tool or asks a question. It
//! names the next action; its caller performs it and reports what happened
//! as an event.

use crate::discovery::{records, Change, FileAction, Record, ReviewableTest};
use crate::fingerprint::fingerprint_of;
use crate::review::{classification, review, ReviewResult};
use vstd::prelude::*;

verus! {

/// Where a session stands, over plain sequences.
pub ghost enum Stage {
    Pending,
    UnderReview { test: Record },
    Unconfirmed { test: Record, outcome: ReviewResult },
    Resolved { test: Record },
    Closed,
    Failed,
}

/// A session over plain sequences.
pub ghost struct Session {
    pub worklist: Seq<Record>,
    pub stage: Stage,
}

/// What happened, over plain sequences.
pub ghost enum Event {
    Selected { index: nat },
    SelectionAborted,
    ToolExited { accepted_before: Seq<char>, received_before: Seq<char>, accepted_after: Seq<char> },
    Confirmed { yes: bool },
    ConfirmationAborted,
    Removed,
    Failed,
}

/// What to do next, over plain sequences.
pub ghost enum Action {
    Select,
    RunTool { accepted: Seq<char>, received: Seq<char> },
    Confirm { outcome: ReviewResult },
    RemoveReceived { path: Seq<char> },
    Finish,
    Abort,
}

/// The tests among `tests` that do not match yet, in order: the worklist
/// that a session starts with.
pub open spec fn unresolved(tests: Seq<Record>) -> Seq<Record>
    decreases tests.len(),
{
    if tests.len() == 0 {
        Seq::empty()
    } else if tests.last().already_matches {
        unresolved(tests.drop_last())
    } else {
        unresolved(tests.drop_last()).push(tests.last())
    }
}

/// The removal of the received artifact of each test among `tests` that
/// matches already, in order.
pub open spec fn converged(tests: Seq<Record>) -> Seq<Change>
    decreases tests.len(),
{
    if tests.len() == 0 {
        Seq::empty()
    } else if tests.last().already_matches {
        converged(tests.drop_last()).push(Change::Remove { path: tests.last().received })
    } else {
        converged(tests.drop_last())
    }
}

/// `worklist` without the records equal to `test`.
pub open spec fn without(worklist: Seq<Record>, test: Record) -> Seq<Record>
    decreases worklist.len(),
{
    if worklist.len() == 0 {
        Seq::empty()
    } else if worklist.last() == test {
        without(worklist.drop_last(), test)
    } else {
        without(worklist.drop_last(), test).push(worklist.last())
    }
}

/// The stage of a session that waits for nothing: pending while work is
/// left, closed once there is none.
pub open spec fn idle(worklist: Seq<Record>) -> Stage {
    if worklist.len() == 0 {
        Stage::Closed
    } else {
        Stage::Pending
    }
}

/// The session that starts on `tests`.
pub open spec fn opened(tests: Seq<Record>) -> Session {
    Session { worklist: unresolved(tests), stage: idle(unresolved(tests)) }
}

/// The session after `event`. A selection or a confirmation that the
/// operator leaves unanswered closes the session with the worklist as it is;
/// a confirmation that the operator declines returns the test to pending. An
/// event that the stage does not wait for changes nothing, and a session that
/// is closed or has failed stays so.
pub open spec fn next(s: Session, event: Event) -> Session {
    match (s.stage, event) {
        (Stage::Closed, _) => s,
        (Stage::Failed, _) => s,
        (_, Event::Failed) => Session { worklist: s.worklist, stage: Stage::Failed },
        (Stage::Pending, Event::Selected { index }) => if index < s.worklist.len() {
            Session {
                worklist: s.worklist,
                stage: Stage::UnderReview { test: s.worklist[index as int] },
            }
        } else {
            s
        },
        (Stage::Pending, Event::SelectionAborted) => Session {
            worklist: s.worklist,
            stage: Stage::Closed,
        },
        (
            Stage::UnderReview { test },
            Event::ToolExited { accepted_before, received_before, accepted_after },
        ) => {
            let outcome = classification(
                fingerprint_of(accepted_before),
                fingerprint_of(received_before),
                fingerprint_of(accepted_after),
            );
            if outcome == ReviewResult::Match {
                Session { worklist: without(s.worklist, test), stage: Stage::Resolved { test } }
            } else {
                Session { worklist: s.worklist, stage: Stage::Unconfirmed { test, outcome } }
            }
        },
        (Stage::Unconfirmed { test, outcome }, Event::Confirmed { yes }) => if yes {
            Session { worklist: without(s.worklist, test), stage: Stage::Resolved { test } }
        } else {
            Session { worklist: s.worklist, stage: idle(s.worklist) }
        },
        (Stage::Unconfirmed { test, outcome }, Event::ConfirmationAborted) => Session {
            worklist: s.worklist,
            stage: Stage::Closed,
        },
        (Stage::Resolved { test }, Event::Removed) => Session {
            worklist: s.worklist,
            stage: idle(s.worklist),
        },
        _ => s,
    }
}

/// What the caller is to do for a session at this stage.
pub open spec fn action_of(s: Session) -> Action {
    match s.stage {
        Stage::Pending => if s.worklist.len() == 0 {
            Action::Finish
        } else {
            Action::Select
        },
        Stage::UnderReview { test } => Action::RunTool {
            accepted: test.accepted,
            received: test.received,
        },
        Stage::Unconfirmed { test, outcome } => Action::Confirm { outcome },
        Stage::Resolved { test } => Action::RemoveReceived { path: test.received },
        Stage::Closed => Action::Finish,
        Stage::Failed => Action::Abort,
    }
}

/// Where a session stands.
#[derive(Clone, PartialEq, Eq, Debug)]
pub enum SessionStage {
    /// Waiting for the operator to pick a test.
    Pending,
    /// The external tool runs on `test`.
    UnderReview { test: ReviewableTest },
    /// The tool left `test` unmatched; the operator is asked whether to mark
    /// it reviewed all the same.
    Unconfirmed { test: ReviewableTest, outcome: ReviewResult },
    /// `test` left the worklist; its received artifact is being removed.
    Resolved { test: ReviewableTest },
    /// The session is over.
    Closed,
    /// The session was aborted by a fault.
    Failed,
}

impl View for SessionStage {
    type V = Stage;

    open spec fn view(&self) -> Stage {
        match self {
            SessionStage::Pending => Stage::Pending,
            SessionStage::UnderReview { test } => Stage::UnderReview { test: test@ },
            SessionStage::Unconfirmed { test, outcome } => Stage::Unconfirmed {
                test: test@,
                outcome: *outcome,
            },
            SessionStage::Resolved { test } => Stage::Resolved { test: test@ },
            SessionStage::Closed => Stage::Closed,
            SessionStage::Failed => Stage::Failed,
        }
    }
}

/// What the caller reports to the session.
#[derive(Clone, PartialEq, Eq, Debug)]
pub enum SessionEvent {
    /// The operator picked the test at `index` of the worklist.
    Selected { index: usize },
    /// The operator left the picker without picking.
    SelectionAborted,
    /// The tool exited. The three texts are what the accepted and the
    /// received artifact held before it ran and what the accepted artifact
    /// holds now.
    ToolExited { accepted_before: String, received_before: String, accepted_after: String },
    /// The operator answered the confirmation.
    Confirmed { yes: bool },
    /// The operator left the confirmation unanswered: the session ends.
    ConfirmationAborted,
    /// The received artifact was removed.
    Removed,
    /// The tool could not be run, or a file not read or removed.
    Failed,
}

impl View for SessionEvent {
    type V = Event;

    open spec fn view(&self) -> Event {
        match self {
            SessionEvent::Selected { index } => Event::Selected { index: *index as nat },
            SessionEvent::SelectionAborted => Event::SelectionAborted,
            SessionEvent::ToolExited { accepted_before, received_before, accepted_after } => {
                Event::ToolExited {
                    accepted_before: accepted_before@,
                    received_before: received_before@,
                    accepted_after: accepted_after@,
                }
            },
            SessionEvent::Confirmed { yes } => Event::Confirmed { yes: *yes },
            SessionEvent::ConfirmationAborted => Event::ConfirmationAborted,
            SessionEvent::Removed => Event::Removed,
            SessionEvent::Failed => Event::Failed,
        }
    }
}

/// What the session asks of its caller.
#[derive(Clone, PartialEq, Eq, Debug)]
pub enum SessionAction {
    /// Let the operator pick one test of the worklist.
    Select,
    /// Run the external tool on the two files and wait for it to exit.
    RunTool { accepted: String, received: String },
    /// Ask whether the test is to be marked reviewed although the tool left
    /// it with `outcome`.
    Confirm { outcome: ReviewResult },
    /// Delete the received artifact at `path`.
    RemoveReceived { path: String },
    /// Nothing is left to do.
    Finish,
    /// Stop and report the fault.
    Abort,
}

impl View for SessionAction {
    type V = Action;

    open spec fn view(&self) -> Action {
        match self {
            SessionAction::Select => Action::Select,
            SessionAction::RunTool { accepted, received } => Action::RunTool {
                accepted: accepted@,
                received: received@,
            },
            SessionAction::Confirm { outcome } => Action::Confirm { outcome: *outcome },
            SessionAction::RemoveReceived { path } => Action::RemoveReceived { path: path@ },
            SessionAction::Finish => Action::Finish,
            SessionAction::Abort => Action::Abort,
        }
    }
}

/// A review session.
#[derive(Clone, PartialEq, Eq, Debug)]
pub struct ReviewSession {
    worklist: Vec<ReviewableTest>,
    stage: SessionStage,
}

impl View for ReviewSession {
    type V = Session;

    closed spec fn view(&self) -> Session {
        Session { worklist: records(self.worklist@), stage: self.stage@ }
    }
}

/// The tests of `worklist` that differ from `test`, in order.
fn remove_all(worklist: &Vec<ReviewableTest>, test: &ReviewableTest) -> (r: Vec<ReviewableTest>)
    ensures
        records(r@) == without(records(worklist@), test@),
{
    let mut out: Vec<ReviewableTest> = Vec::new();
    let mut i: usize = 0;
    assert(records(worklist@).take(0) =~= Seq::<Record>::empty());
    assert(records(out@) =~= Seq::<Record>::empty());
    while i < worklist.len()
        invariant
            i <= worklist.len(),
            records(out@) == without(records(worklist@).take(i as int), test@),
        decreases worklist.len() - i,
    {
        let ghost before = records(out@);
        proof {
            let all = records(worklist@);
            assert(all.take(i + 1).drop_last() =~= all.take(i as int));
            assert(all.take(i + 1).last() == worklist@[i as int]@);
        }
        if !worklist[i].same_as(test) {
            out.push(worklist[i].duplicate());
            assert(records(out@) =~= before.push(worklist@[i as int]@));
        }
        i = i + 1;
    }
    assert(records(worklist@).take(i as int) =~= records(worklist@));
    out
}

/// The stage of a session that waits for nothing.
fn idle_stage(worklist: &Vec<ReviewableTest>) -> (r: SessionStage)
    ensures
        r@ == idle(records(worklist@)),
{
    if worklist.len() == 0 {
        SessionStage::Closed
    } else {
        SessionStage::Pending
    }
}

impl ReviewSession {
    /// Starts a session on the discovered `tests`. A test that matches
    /// already never enters the worklist: the removal of its received
    /// artifact is handed back at once, to be carried out before the first
    /// action.
    pub fn start(tests: &Vec<ReviewableTest>) -> (r: (ReviewSession, Vec<FileAction>))
        ensures
            r.0@ == opened(records(tests@)),
            crate::discovery::changes(r.1@) == converged(records(tests@)),
    {
        let mut worklist: Vec<ReviewableTest> = Vec::new();
        let mut removals: Vec<FileAction> = Vec::new();
        let mut i: usize = 0;
        assert(records(tests@).take(0) =~= Seq::<Record>::empty());
        assert(records(worklist@) =~= Seq::<Record>::empty());
        assert(crate::discovery::changes(removals@) =~= Seq::<Change>::empty());
        while i < tests.len()
            invariant
                i <= tests.len(),
                records(worklist@) == unresolved(records(tests@).take(i as int)),
                crate::discovery::changes(removals@) == converged(records(tests@).take(i as int)),
            decreases tests.len() - i,
        {
            let ghost kept = records(worklist@);
            let ghost gone = crate::discovery::changes(removals@);
            proof {
                let all = records(tests@);
                assert(all.take(i + 1).drop_last() =~= all.take(i as int));
                assert(all.take(i + 1).last() == tests@[i as int]@);
            }
            if tests[i].already_matches {
                removals.push(FileAction::Remove { path: tests[i].received.clone() });
                assert(crate::discovery::changes(removals@) =~= gone.push(
                    Change::Remove { path: tests@[i as int]@.received },
                ));
            } else {
                worklist.push(tests[i].duplicate());
                assert(records(worklist@) =~= kept.push(tests@[i as int]@));
            }
            i = i + 1;
        }
        assert(records(tests@).take(i as int) =~= records(tests@));
        let stage = idle_stage(&worklist);
        (ReviewSession { worklist, stage }, removals)
    }

    /// The tests that are still to be resolved, in order.
    pub fn worklist(&self) -> (r: &Vec<ReviewableTest>)
        ensures
            records(r@) == self@.worklist,
    {
        &self.worklist
    }

    /// Where the session stands.
    pub fn stage(&self) -> (r: &SessionStage)
        ensures
            r@ == self@.stage,
    {
        &self.stage
    }

    /// The base names of the tests in the worklist, in order: what a picker
    /// offers.
    pub fn labels(&self) -> (r: Vec<String>)
        ensures
            r@.len() == self@.worklist.len(),
            forall|i: int| 0 <= i < r@.len() ==> (#[trigger] r@[i])@ == self@.worklist[i].base_name,
    {
        let mut out: Vec<String> = Vec::new();
        let mut i: usize = 0;
        while i < self.worklist.len()
            invariant
                i <= self.worklist.len(),
                out@.len() == i,
                forall|j: int| 0 <= j < i ==> (#[trigger] out@[j])@ == self.worklist@[j]@.base_name,
            decreases self.worklist.len() - i,
        {
            out.push(self.worklist[i].label());
            i = i + 1;
        }
        out
    }

    /// What the caller is to do now.
    pub fn action(&self) -> (r: SessionAction)
        ensures
            r@ == action_of(self@),
    {
        match &self.stage {
            SessionStage::Pending => if self.worklist.len() == 0 {
                SessionAction::Finish
            } else {
                SessionAction::Select
            },
            SessionStage::UnderReview { test } => SessionAction::RunTool {
                accepted: test.accepted.clone(),
                received: test.received.clone(),
            },
            SessionStage::Unconfirmed { test, outcome } => SessionAction::Confirm {
                outcome: *outcome,
            },
            SessionStage::Resolved { test } => SessionAction::RemoveReceived {
                path: test.received.clone(),
            },
            SessionStage::Closed => SessionAction::Finish,
            SessionStage::Failed => SessionAction::Abort,
        }
    }

    /// Takes the session from one stage to the next on `event`, and names
    /// the action that the new stage asks for.
    pub fn step(self, event: SessionEvent) -> (r: (ReviewSession, SessionAction))
        ensures
            r.0@ == next(self@, event@),
            r.1@ == action_of(next(self@, event@)),
    {
        let ReviewSession { worklist, stage } = self;
        let after = match (stage, event) {
            (SessionStage::Closed, _) => ReviewSession { worklist, stage: SessionStage::Closed },
            (SessionStage::Failed, _) => ReviewSession { worklist, stage: SessionStage::Failed },
            (_, SessionEvent::Failed) => ReviewSession { worklist, stage: SessionStage::Failed },
            (SessionStage::Pending, SessionEvent::Selected { index }) => {
                if index < worklist.len() {
                    let test = worklist[index].duplicate();
                    ReviewSession { worklist, stage: SessionStage::UnderReview { test } }
                } else {
                    ReviewSession { worklist, stage: SessionStage::Pending }
                }
            },
            (SessionStage::Pending, SessionEvent::SelectionAborted) => ReviewSession {
                worklist,
                stage: SessionStage::Closed,
            },
            (
                SessionStage::UnderReview { test },
                SessionEvent::ToolExited { accepted_before, received_before, accepted_after },
            ) => {
                let outcome = review(
                    accepted_before.as_str(),
                    received_before.as_str(),
                    accepted_after.as_str(),
                );
                match outcome {
                    ReviewResult::Match => ReviewSession {
                        worklist: remove_all(&worklist, &test),
                        stage: SessionStage::Resolved { test },
                    },
                    _ => ReviewSession {
                        worklist,
                        stage: SessionStage::Unconfirmed { test, outcome },
                    },
                }
            },
            (SessionStage::Unconfirmed { test, outcome }, SessionEvent::Confirmed { yes }) => {
                if yes {
                    ReviewSession {
                        worklist: remove_all(&worklist, &test),
                        stage: SessionStage::Resolved { test },
                    }
                } else {
                    let stage = idle_stage(&worklist);
                    ReviewSession { worklist, stage }
                }
            },
            (SessionStage::Unconfirmed { test, outcome }, SessionEvent::ConfirmationAborted) => {
                ReviewSession { worklist, stage: SessionStage::Closed }
            },
            (SessionStage::Resolved { test }, SessionEvent::Removed) => {
                let stage = idle_stage(&worklist);
                ReviewSession { worklist, stage }
            },
            (stage, _) => ReviewSession { worklist, stage },
        };
        let action = after.action();
        (after, action)
    }
}

impl Session {
    /// What holds of every session that was started and stepped: no test of
    /// the worklist matches already; a pending session has work left; the
    /// test under review or awaiting confirmation is in the worklist; a
    /// resolved test is not.
    pub open spec fn sound(self) -> bool {
        &&& forall|i: int|
            0 <= i < self.worklist.len() ==> !(#[trigger] self.worklist[i]).already_matches
        &&& match self.stage {
            Stage::Pending => self.worklist.len() > 0,
            Stage::UnderReview { test } => self.worklist.contains(test),
            Stage::Unconfirmed { test, outcome } => self.worklist.contains(test),
            Stage::Resolved { test } => !self.worklist.contains(test),
            Stage::Closed => true,
            Stage::Failed => true,
        }
    }
}

/// The worklist without `test` holds the records of the worklist that
/// differ from `test`.
pub proof fn without_has(worklist: Seq<Record>, test: Record, record: Record)
    ensures
        without(worklist, test).contains(record) <==> worklist.contains(record) && record != test,
    decreases worklist.len(),
{
    if worklist.len() == 0 {
        assert(!without(worklist, test).contains(record));
        assert(!worklist.contains(record));
    } else {
        let front = worklist.drop_last();
        without_has(front, test, record);
        let rest = without(worklist, test);
        if rest.contains(record) {
            let j = choose|j: int| 0 <= j < rest.len() && rest[j] == record;
            if j < without(front, test).len() {
                assert(without(front, test)[j] == record);
                assert(without(front, test).contains(record));
                let i = choose|i: int| 0 <= i < front.len() && front[i] == record;
                assert(worklist[i] == record);
            } else {
                assert(worklist.last() == record);
            }
        }
        if worklist.contains(record) && record != test {
            let i = choose|i: int| 0 <= i < worklist.len() && worklist[i] == record;
            if i < worklist.len() - 1 {
                assert(front[i] == record);
                assert(front.contains(record));
                let j = choose|j: int|
                    0 <= j < without(front, test).len() && without(front, test)[j] == record;
                assert(rest[j] == record);
            } else {
                assert(rest.last() == record);
            }
        }
    }
}

/// Taking a test out never lengthens the worklist, and shortens it where
/// the test was in it.
pub proof fn without_is_shorter(worklist: Seq<Record>, test: Record)
    ensures
        without(worklist, test).len() <= worklist.len(),
        worklist.contains(test) ==> without(worklist, test).len() < worklist.len(),
    decreases worklist.len(),
{
    if worklist.len() > 0 {
        let front = worklist.drop_last();
        without_is_shorter(front, test);
        if worklist.contains(test) && worklist.last() != test {
            let i = choose|i: int| 0 <= i < worklist.len() && worklist[i] == test;
            assert(front[i] == test);
            assert(front.contains(test));
        }
    }
}

/// The worklist that a session starts with holds the tests that do not
/// match yet.
pub proof fn unresolved_has(tests: Seq<Record>, record: Record)
    ensures
        unresolved(tests).contains(record) <==> tests.contains(record) && !record.already_matches,
    decreases tests.len(),
{
    if tests.len() == 0 {
        assert(!unresolved(tests).contains(record));
        assert(!tests.contains(record));
    } else {
        let front = tests.drop_last();
        unresolved_has(front, record);
        let rest = unresolved(tests);
        if rest.contains(record) {
            let j = choose|j: int| 0 <= j < rest.len() && rest[j] == record;
            if j < unresolved(front).len() {
                assert(unresolved(front)[j] == record);
                assert(unresolved(front).contains(record));
                let i = choose|i: int| 0 <= i < front.len() && front[i] == record;
                assert(tests[i] == record);
            } else {
                assert(tests.last() == record);
            }
        }
        if tests.contains(record) && !record.already_matches {
            let i = choose|i: int| 0 <= i < tests.len() && tests[i] == record;
            if i < tests.len() - 1 {
                assert(front[i] == record);
                assert(front.contains(record));
                let j = choose|j: int|
                    0 <= j < unresolved(front).len() && unresolved(front)[j] == record;
                assert(rest[j] == record);
            } else {
                assert(rest.last() == record);
            }
        }
    }
}

/// A test that matches already is resolved when the session starts: the
/// removal of its received artifact is among the removals handed back, and
/// the test is not in the worklist, so that no tool is run on it and no
/// confirmation asked for it.
pub proof fn matching_test_is_resolved_at_start(tests: Seq<Record>, i: int)
    requires
        0 <= i < tests.len(),
        tests[i].already_matches,
    ensures
        converged(tests).contains(Change::Remove { path: tests[i].received }),
        !opened(tests).worklist.contains(tests[i]),
    decreases tests.len(),
{
    unresolved_has(tests, tests[i]);
    let front = tests.drop_last();
    let removal = Change::Remove { path: tests[i].received };
    if i < tests.len() - 1 {
        assert(front[i] == tests[i]);
        matching_test_is_resolved_at_start(front, i);
        let j = choose|j: int| 0 <= j < converged(front).len() && converged(front)[j] == removal;
        assert(converged(tests)[j] == removal);
    } else {
        assert(converged(tests).last() == removal);
    }
}

/// Only the received artifacts of tests that match already are removed at
/// the start.
pub proof fn only_matching_tests_are_removed_at_start(tests: Seq<Record>, j: int)
    requires
        0 <= j < converged(tests).len(),
    ensures
        exists|i: int|
            0 <= i < tests.len() && (#[trigger] tests[i]).already_matches && converged(tests)[j]
                == (Change::Remove { path: tests[i].received }),
    decreases tests.len(),
{
    let front = tests.drop_last();
    let last = tests.len() - 1;
    if j < converged(front).len() {
        only_matching_tests_are_removed_at_start(front, j);
        let i = choose|i: int|
            0 <= i < front.len() && (#[trigger] front[i]).already_matches && converged(front)[j]
                == (Change::Remove { path: front[i].received });
        assert(tests[i] == front[i]);
    } else {
        assert(tests[last].already_matches);
    }
}

/// A session is sound when it starts.
pub proof fn opened_is_sound(tests: Seq<Record>)
    ensures
        opened(tests).sound(),
{
    let worklist = unresolved(tests);
    assert forall|i: int| 0 <= i < worklist.len() implies !(#[trigger] worklist[i]).already_matches by {
        assert(worklist.contains(worklist[i]));
        unresolved_has(tests, worklist[i]);
    }
}

/// Taking `test` out of a worklist of unmatched tests leaves a worklist of
/// unmatched tests that does not hold `test`.
proof fn lemma_without_keeps_unmatched(worklist: Seq<Record>, test: Record)
    requires
        forall|i: int| 0 <= i < worklist.len() ==> !(#[trigger] worklist[i]).already_matches,
    ensures
        !without(worklist, test).contains(test),
        forall|i: int|
            0 <= i < without(worklist, test).len() ==> !(#[trigger] without(
                worklist,
                test,
            )[i]).already_matches,
{
    let rest = without(worklist, test);
    without_has(worklist, test, test);
    assert forall|i: int| 0 <= i < rest.len() implies !(#[trigger] rest[i]).already_matches by {
        assert(rest.contains(rest[i]));
        without_has(worklist, test, rest[i]);
    }
}

/// A sound session stays sound, whatever happens.
pub proof fn next_is_sound(s: Session, event: Event)
    requires
        s.sound(),
    ensures
        next(s, event).sound(),
{
    let after = next(s, event);
    match s.stage {
        Stage::Pending => {
            if let Event::Selected { index } = event {
                if index < s.worklist.len() {
                    assert(s.worklist.contains(s.worklist[index as int]));
                }
            }
        },
        Stage::UnderReview { test } => {
            lemma_without_keeps_unmatched(s.worklist, test);
        },
        Stage::Unconfirmed { test, outcome } => {
            lemma_without_keeps_unmatched(s.worklist, test);
        },
        _ => {},
    }
}

/// The tool is run, and a confirmation asked, only for a test that did not
/// match when the session started.
pub proof fn only_unmatched_tests_are_reviewed(s: Session)
    requires
        s.sound(),
    ensures
        match s.stage {
            Stage::UnderReview { test } => !test.already_matches,
            Stage::Unconfirmed { test, outcome } => !test.already_matches,
            _ => true,
        },
{
}

/// The worklist changes only when a test is resolved, and then it shrinks:
/// a session that goes on long enough runs out of work.
pub proof fn worklist_only_shrinks(s: Session, event: Event)
    requires
        s.sound(),
    ensures
        next(s, event).worklist == s.worklist || (next(s, event).stage is Resolved && next(
            s,
            event,
        ).worklist.len() < s.worklist.len()),
{
    let after = next(s, event);
    if after.worklist != s.worklist {
        let test = match s.stage {
            Stage::UnderReview { test } => test,
            Stage::Unconfirmed { test, outcome } => test,
            _ => arbitrary(),
        };
        without_is_shorter(s.worklist, test);
    }
}

/// Leaving the picker or the confirmation unanswered ends the session: it
/// is closed, nothing more is asked, no removal is ordered, and the worklist
/// is as it was, so that what is unresolved stays for the next session. A
/// closed session stays closed whatever is reported to it.
pub proof fn abort_closes_the_session(s: Session, event: Event)
    ensures
        s.stage is Pending ==> next(s, Event::SelectionAborted) == (Session {
            worklist: s.worklist,
            stage: Stage::Closed,
        }),
        s.stage is Unconfirmed ==> next(s, Event::ConfirmationAborted) == (Session {
            worklist: s.worklist,
            stage: Stage::Closed,
        }),
        s.stage is Closed ==> next(s, event) == s && action_of(s) == Action::Finish,
{
}

/// A run of the tool that ends in a match resolves the test with no
/// question asked; any other outcome resolves it only once the operator
/// confirms. Where the operator declines, the test stays pending and the
/// session goes on; where the operator leaves the question unanswered, the
/// session ends with the test still in the worklist and no removal ordered.
pub proof fn resolution_follows_the_outcome(
    s: Session,
    test: Record,
    accepted_before: Seq<char>,
    received_before: Seq<char>,
    accepted_after: Seq<char>,
)
    requires
        s.sound(),
        s.stage == (Stage::UnderReview { test }),
    ensures
        ({
            let outcome = classification(
                fingerprint_of(accepted_before),
                fingerprint_of(received_before),
                fingerprint_of(accepted_after),
            );
            let exited = next(
                s,
                Event::ToolExited { accepted_before, received_before, accepted_after },
            );
            &&& outcome == ReviewResult::Match ==> action_of(exited) == (Action::RemoveReceived {
                path: test.received,
            }) && !exited.worklist.contains(test)
            &&& outcome != ReviewResult::Match ==> {
                &&& action_of(exited) == (Action::Confirm { outcome })
                &&& action_of(next(exited, Event::Confirmed { yes: true })) == (
                Action::RemoveReceived { path: test.received })
                &&& !next(exited, Event::Confirmed { yes: true }).worklist.contains(test)
                &&& next(exited, Event::Confirmed { yes: false }) == (Session {
                    worklist: s.worklist,
                    stage: Stage::Pending,
                })
                &&& next(exited, Event::ConfirmationAborted) == (Session {
                    worklist: s.worklist,
                    stage: Stage::Closed,
                })
                &&& action_of(next(exited, Event::ConfirmationAborted)) == Action::Finish
                &&& next(exited, Event::ConfirmationAborted).worklist.contains(test)
            }
        }),
{
    without_has(s.worklist, test, test);
}

} // verus!
