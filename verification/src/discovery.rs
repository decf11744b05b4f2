//! Discovery: from the received artifacts found under a root, the pairs that
//! can be reviewed, and the two bulk operations on them.

use crate::artifact::{base_name, base_name_of, is_received, sibling_accepted, sibling_accepted_path};
use crate::fingerprint::{fingerprint, fingerprint_of};
use crate::text::same_text;
use vstd::prelude::*;

verus! {

/// A reviewable pair over plain sequences.
pub ghost struct Record {
    pub base_name: Seq<char>,
    pub accepted: Seq<char>,
    pub accepted_sha256: Seq<char>,
    pub received: Seq<char>,
    pub received_sha256: Seq<char>,
    pub already_matches: bool,
}

/// A test that can be reviewed: the paths of its two artifacts and the
/// fingerprints of what they held when they were found.
#[derive(Clone, PartialEq, Eq, Debug)]
pub struct ReviewableTest {
    pub base_name: String,
    pub accepted: String,
    pub accepted_sha256: String,
    pub received: String,
    pub received_sha256: String,
    pub already_matches: bool,
}

impl View for ReviewableTest {
    type V = Record;

    open spec fn view(&self) -> Record {
        Record {
            base_name: self.base_name@,
            accepted: self.accepted@,
            accepted_sha256: self.accepted_sha256@,
            received: self.received@,
            received_sha256: self.received_sha256@,
            already_matches: self.already_matches,
        }
    }
}

impl Record {
    /// The flag says whether the two fingerprints are equal.
    pub open spec fn consistent(self) -> bool {
        self.already_matches == (self.accepted_sha256 == self.received_sha256)
    }
}

impl ReviewableTest {
    /// The test with the given paths and fingerprints. It matches already
    /// exactly where the two fingerprints are equal.
    pub fn new(
        base_name: String,
        accepted: String,
        accepted_sha256: String,
        received: String,
        received_sha256: String,
    ) -> (r: ReviewableTest)
        ensures
            r@ == (Record {
                base_name: base_name@,
                accepted: accepted@,
                accepted_sha256: accepted_sha256@,
                received: received@,
                received_sha256: received_sha256@,
                already_matches: accepted_sha256@ == received_sha256@,
            }),
            r@.consistent(),
    {
        let already_matches = same_text(accepted_sha256.as_str(), received_sha256.as_str());
        ReviewableTest {
            base_name,
            accepted,
            accepted_sha256,
            received,
            received_sha256,
            already_matches,
        }
    }

    /// What a picker shows for this test: its base name.
    pub fn label(&self) -> (r: String)
        ensures
            r@ == self@.base_name,
    {
        self.base_name.clone()
    }

    /// A second value with the same content.
    pub fn duplicate(&self) -> (r: ReviewableTest)
        ensures
            r@ == self@,
    {
        ReviewableTest {
            base_name: self.base_name.clone(),
            accepted: self.accepted.clone(),
            accepted_sha256: self.accepted_sha256.clone(),
            received: self.received.clone(),
            received_sha256: self.received_sha256.clone(),
            already_matches: self.already_matches,
        }
    }

    /// Whether the two tests agree in every field.
    pub fn same_as(&self, other: &ReviewableTest) -> (r: bool)
        ensures
            r == (self@ == other@),
    {
        same_text(self.base_name.as_str(), other.base_name.as_str()) && same_text(
            self.accepted.as_str(),
            other.accepted.as_str(),
        ) && same_text(self.accepted_sha256.as_str(), other.accepted_sha256.as_str()) && same_text(
            self.received.as_str(),
            other.received.as_str(),
        ) && same_text(self.received_sha256.as_str(), other.received_sha256.as_str())
            && self.already_matches == other.already_matches
    }
}

/// The views of a sequence of tests, in order.
pub open spec fn records(tests: Seq<ReviewableTest>) -> Seq<Record> {
    tests.map_values(|t: ReviewableTest| t@)
}

/// A received artifact as found, over plain sequences.
pub ghost struct Finding {
    pub received: Seq<char>,
    pub received_text: Seq<char>,
    pub accepted_text: Option<Seq<char>>,
}

/// A received artifact as found: its path, what it holds, and what the
/// accepted artifact beside it holds, `None` where there is none.
#[derive(Clone, PartialEq, Eq, Debug)]
pub struct Candidate {
    pub received: String,
    pub received_text: String,
    pub accepted_text: Option<String>,
}

impl View for Candidate {
    type V = Finding;

    open spec fn view(&self) -> Finding {
        Finding {
            received: self.received@,
            received_text: self.received_text@,
            accepted_text: match self.accepted_text {
                Some(text) => Some(text@),
                None => None,
            },
        }
    }
}

/// The views of a sequence of candidates, in order.
pub open spec fn findings(candidates: Seq<Candidate>) -> Seq<Finding> {
    candidates.map_values(|c: Candidate| c@)
}

/// The record that a finding gives rise to. There is none where the path
/// does not name a received artifact, and none for an orphan: a received
/// artifact with no accepted artifact beside it.
pub open spec fn record_of(found: Finding) -> Option<Record> {
    if is_received(found.received) && found.accepted_text is Some {
        let accepted_sha256 = fingerprint_of(found.accepted_text.unwrap());
        let received_sha256 = fingerprint_of(found.received_text);
        Some(
            Record {
                base_name: base_name(found.received),
                accepted: sibling_accepted(found.received),
                accepted_sha256,
                received: found.received,
                received_sha256,
                already_matches: accepted_sha256 == received_sha256,
            },
        )
    } else {
        None
    }
}

/// Whether a finding is an orphan: a received artifact with no accepted
/// artifact beside it.
pub open spec fn orphaned(found: Finding) -> bool {
    is_received(found.received) && found.accepted_text is None
}

/// The records of the findings that have one, in the order of the findings.
pub open spec fn discovered(found: Seq<Finding>) -> Seq<Record>
    decreases found.len(),
{
    if found.len() == 0 {
        Seq::empty()
    } else {
        let front = discovered(found.drop_last());
        match record_of(found.last()) {
            Some(record) => front.push(record),
            None => front,
        }
    }
}

/// Whether the candidate is an orphan. An orphan has no record; it is left
/// untouched and is worth a line in a log.
pub fn is_orphan(candidate: &Candidate) -> (r: bool)
    ensures
        r == orphaned(candidate@),
        r ==> record_of(candidate@) is None,
{
    candidate.accepted_text.is_none() && sibling_accepted_path(
        candidate.received.as_str(),
    ).is_some()
}

/// The reviewable test for one candidate, where it has one.
pub fn reviewable(candidate: &Candidate) -> (r: Option<ReviewableTest>)
    ensures
        r is Some <==> record_of(candidate@) is Some,
        r is Some ==> r.unwrap()@ == record_of(candidate@).unwrap(),
{
    let accepted_text = match &candidate.accepted_text {
        Some(text) => text,
        None => { return None; },
    };
    let received = candidate.received.as_str();
    let (accepted, base_name) = match (sibling_accepted_path(received), base_name_of(received)) {
        (Some(accepted), Some(base_name)) => (accepted, base_name),
        _ => { return None; },
    };
    let accepted_sha256 = fingerprint(accepted_text.as_str());
    let received_sha256 = fingerprint(candidate.received_text.as_str());
    Some(
        ReviewableTest::new(
            base_name,
            accepted,
            accepted_sha256,
            candidate.received.clone(),
            received_sha256,
        ),
    )
}

/// The reviewable tests among the candidates, in the order of the
/// candidates.
pub fn find_reviewable_tests(candidates: &Vec<Candidate>) -> (r: Vec<ReviewableTest>)
    ensures
        records(r@) == discovered(findings(candidates@)),
{
    let mut out: Vec<ReviewableTest> = Vec::new();
    let mut i: usize = 0;
    assert(findings(candidates@).take(0) =~= Seq::<Finding>::empty());
    assert(records(out@) =~= Seq::<Record>::empty());
    while i < candidates.len()
        invariant
            i <= candidates.len(),
            records(out@) == discovered(findings(candidates@).take(i as int)),
        decreases candidates.len() - i,
    {
        let ghost before = records(out@);
        let found = reviewable(&candidates[i]);
        proof {
            let all = findings(candidates@);
            assert(all.take(i + 1).drop_last() =~= all.take(i as int));
            assert(all.take(i + 1).last() == candidates@[i as int]@);
        }
        match found {
            Some(test) => {
                out.push(test);
                assert(records(out@) =~= before.push(test@));
            },
            None => {},
        }
        i = i + 1;
    }
    assert(findings(candidates@).take(i as int) =~= findings(candidates@));
    out
}

/// One change to make on disk, over plain sequences.
pub ghost enum Change {
    Remove { path: Seq<char> },
    Rename { from: Seq<char>, to: Seq<char> },
}

/// One change to make on disk.
#[derive(Clone, PartialEq, Eq, Debug)]
pub enum FileAction {
    /// Delete the file at `path`.
    Remove { path: String },
    /// Move the file at `from` to `to`.
    Rename { from: String, to: String },
}

impl View for FileAction {
    type V = Change;

    open spec fn view(&self) -> Change {
        match self {
            FileAction::Remove { path } => Change::Remove { path: path@ },
            FileAction::Rename { from, to } => Change::Rename { from: from@, to: to@ },
        }
    }
}

/// The views of a sequence of actions, in order.
pub open spec fn changes(actions: Seq<FileAction>) -> Seq<Change> {
    actions.map_values(|a: FileAction| a@)
}

/// Discarding every candidate: each record's received artifact is removed,
/// whether or not it matches.
pub open spec fn cleaning(tests: Seq<Record>) -> Seq<Change> {
    Seq::new(tests.len(), |i: int| Change::Remove { path: tests[i].received })
}

/// Approving every candidate: for each record in turn, the accepted artifact
/// is removed and the received one moved into its place.
pub open spec fn accepting(tests: Seq<Record>) -> Seq<Change> {
    Seq::new(
        2 * tests.len(),
        |i: int|
            if i % 2 == 0 {
                Change::Remove { path: tests[i / 2].accepted }
            } else {
                Change::Rename { from: tests[i / 2].received, to: tests[i / 2].accepted }
            },
    )
}

/// The changes that discard every candidate among `tests`.
pub fn clean(tests: &Vec<ReviewableTest>) -> (r: Vec<FileAction>)
    ensures
        changes(r@) == cleaning(records(tests@)),
{
    let mut out: Vec<FileAction> = Vec::new();
    let mut i: usize = 0;
    while i < tests.len()
        invariant
            i <= tests.len(),
            out@.len() == i,
            forall|j: int| 0 <= j < i ==> (#[trigger] out@[j])@ == (Change::Remove {
                path: tests@[j]@.received,
            }),
        decreases tests.len() - i,
    {
        out.push(FileAction::Remove { path: tests[i].received.clone() });
        i = i + 1;
    }
    assert(changes(out@) =~= cleaning(records(tests@)));
    out
}

/// The changes that approve every candidate among `tests`.
pub fn auto_accept(tests: &Vec<ReviewableTest>) -> (r: Vec<FileAction>)
    ensures
        changes(r@) == accepting(records(tests@)),
{
    let mut out: Vec<FileAction> = Vec::new();
    let mut i: usize = 0;
    while i < tests.len()
        invariant
            i <= tests.len(),
            out@.len() == 2 * i,
            forall|j: int| 0 <= j < i ==> (#[trigger] out@[2 * j])@ == (Change::Remove {
                path: tests@[j]@.accepted,
            }),
            forall|j: int| 0 <= j < i ==> (#[trigger] out@[2 * j + 1])@ == (Change::Rename {
                from: tests@[j]@.received,
                to: tests@[j]@.accepted,
            }),
        decreases tests.len() - i,
    {
        let test = &tests[i];
        out.push(FileAction::Remove { path: test.accepted.clone() });
        out.push(FileAction::Rename { from: test.received.clone(), to: test.accepted.clone() });
        i = i + 1;
    }
    proof {
        let want = accepting(records(tests@));
        let got = changes(out@);
        assert(got.len() == want.len());
        assert forall|k: int| 0 <= k < got.len() implies got[k] == want[k] by {
            let j = k / 2;
            if k % 2 == 0 {
                assert(k == 2 * j);
                assert(out@[2 * j]@ == want[k]);
            } else {
                assert(k == 2 * j + 1);
                assert(out@[2 * j + 1]@ == want[k]);
            }
        }
        assert(got =~= want);
    }
    out
}

/// A record is discovered exactly where some finding gives rise to it.
pub proof fn discovered_has(found: Seq<Finding>, record: Record)
    ensures
        discovered(found).contains(record) <==> exists|i: int|
            0 <= i < found.len() && record_of(#[trigger] found[i]) == Some(record),
    decreases found.len(),
{
    if found.len() == 0 {
        assert(!discovered(found).contains(record));
    } else {
        let front = found.drop_last();
        discovered_has(front, record);
        let last = found.len() - 1;
        if discovered(found).contains(record) {
            let j = choose|j: int| 0 <= j < discovered(found).len() && discovered(found)[j] == record;
            if j < discovered(front).len() {
                assert(discovered(front)[j] == record);
                assert(discovered(front).contains(record));
                let i = choose|i: int|
                    0 <= i < front.len() && record_of(#[trigger] front[i]) == Some(record);
                assert(found[i] == front[i]);
            } else {
                assert(record_of(found[last]) == Some(record));
            }
        }
        if exists|i: int| 0 <= i < found.len() && record_of(#[trigger] found[i]) == Some(record) {
            let i = choose|i: int|
                0 <= i < found.len() && record_of(#[trigger] found[i]) == Some(record);
            if i < last {
                assert(front[i] == found[i]);
                assert(discovered(front).contains(record));
                let j = choose|j: int|
                    0 <= j < discovered(front).len() && discovered(front)[j] == record;
                assert(discovered(found)[j] == record);
            } else {
                assert(discovered(found).last() == record);
            }
        }
    }
}

/// A received artifact with no accepted artifact beside it is left out:
/// where every finding at `path` is an orphan, no discovered record is for
/// `path`.
pub proof fn orphans_are_excluded(found: Seq<Finding>, path: Seq<char>)
    requires
        forall|i: int|
            0 <= i < found.len() && (#[trigger] found[i]).received == path
                ==> found[i].accepted_text is None,
    ensures
        forall|j: int|
            0 <= j < discovered(found).len() ==> (#[trigger] discovered(found)[j]).received
                != path,
{
    assert forall|j: int| 0 <= j < discovered(found).len() implies (#[trigger] discovered(
        found,
    )[j]).received != path by {
        let record = discovered(found)[j];
        assert(discovered(found).contains(record));
        discovered_has(found, record);
        let i = choose|i: int|
            0 <= i < found.len() && record_of(#[trigger] found[i]) == Some(record);
        assert(found[i].accepted_text is Some);
    }
}

/// Every discovered record names a received artifact, the accepted artifact
/// beside it and the test of the two, and says that it matches already
/// exactly where its two fingerprints are equal.
pub proof fn discovered_records_are_consistent(found: Seq<Finding>, j: int)
    requires
        0 <= j < discovered(found).len(),
    ensures
        discovered(found)[j].consistent(),
        is_received(discovered(found)[j].received),
        discovered(found)[j].accepted == sibling_accepted(discovered(found)[j].received),
        discovered(found)[j].base_name == base_name(discovered(found)[j].received),
{
    let record = discovered(found)[j];
    assert(discovered(found).contains(record));
    discovered_has(found, record);
}

/// No more records are discovered than there are findings.
pub proof fn discovered_is_bounded(found: Seq<Finding>)
    ensures
        discovered(found).len() <= found.len(),
    decreases found.len(),
{
    if found.len() > 0 {
        discovered_is_bounded(found.drop_last());
    }
}

} // verus!
