//! The snapshot store: compares a freshly serialized value with the accepted
//! baseline of its test, and says which files to write.

use crate::artifact::{accepted_in, accepted_path, received_in, received_path};
use crate::text::{
    all_white_space, lemma_trim_ignores_padding, lemma_trimmed_of_white_space, lemma_trimmed_twice,
    same_text, trim, trimmed,
};
use vstd::prelude::*;

verus! {

/// The two artifacts of one test as they are on disk: each is absent or
/// holds a text.
pub ghost struct Artifacts {
    pub accepted: Option<Seq<char>>,
    pub received: Option<Seq<char>>,
}

/// The baseline that a comparison reads: an accepted artifact that is absent
/// counts as empty.
pub open spec fn baseline(accepted: Option<Seq<char>>) -> Seq<char> {
    match accepted {
        Some(text) => text,
        None => Seq::empty(),
    }
}

/// Whether `serialized` agrees with the accepted artifact, whitespace at
/// either end of either text aside.
pub open spec fn agrees(accepted: Option<Seq<char>>, serialized: Seq<char>) -> bool {
    trimmed(baseline(accepted)) == trimmed(serialized)
}

/// What one comparison decides, over plain sequences.
pub ghost struct CheckView {
    pub matched: bool,
    pub accepted_path: Seq<char>,
    pub received_path: Seq<char>,
    pub create_accepted: bool,
    pub write_received: Option<Seq<char>>,
}

/// The decision for the test `base_name` of the store at `dir`, given what
/// its accepted artifact holds and the serialized value.
pub open spec fn check_of(
    dir: Seq<char>,
    base_name: Seq<char>,
    accepted: Option<Seq<char>>,
    serialized: Seq<char>,
) -> CheckView {
    CheckView {
        matched: agrees(accepted, serialized),
        accepted_path: accepted_in(dir, base_name),
        received_path: received_in(dir, base_name),
        create_accepted: accepted is None,
        write_received: if agrees(accepted, serialized) {
            None
        } else {
            Some(serialized)
        },
    }
}

/// The artifacts after the writes of `check` were made on `before`.
pub open spec fn after_writes(before: Artifacts, check: CheckView) -> Artifacts {
    Artifacts {
        accepted: if check.create_accepted {
            Some(Seq::empty())
        } else {
            before.accepted
        },
        received: match check.write_received {
            Some(text) => Some(text),
            None => before.received,
        },
    }
}

/// The view of a text that may be absent.
pub open spec fn text_of(text: Option<&str>) -> Option<Seq<char>> {
    match text {
        Some(t) => Some(t@),
        None => None,
    }
}

/// What one comparison decided: whether the value matched, and the writes
/// that the caller owes the two artifacts.
#[derive(Clone, PartialEq, Eq, Debug)]
pub struct Check {
    /// The serialized value agrees with the baseline.
    pub matched: bool,
    /// The path of the accepted artifact.
    pub accepted_path: String,
    /// The path of the received artifact.
    pub received_path: String,
    /// The accepted artifact was absent and is to be created empty.
    pub create_accepted: bool,
    /// What to write to the received artifact, replacing what it held.
    pub write_received: Option<String>,
}

impl View for Check {
    type V = CheckView;

    open spec fn view(&self) -> CheckView {
        CheckView {
            matched: self.matched,
            accepted_path: self.accepted_path@,
            received_path: self.received_path@,
            create_accepted: self.create_accepted,
            write_received: match self.write_received {
                Some(text) => Some(text@),
                None => None,
            },
        }
    }
}

/// A snapshot store: the directory that holds the artifacts of its tests.
#[derive(Clone, PartialEq, Eq, Debug)]
pub struct VerifyTest {
    path: String,
}

impl View for VerifyTest {
    type V = Seq<char>;

    closed spec fn view(&self) -> Seq<char> {
        self.path@
    }
}

impl VerifyTest {
    /// A store whose artifacts live in the directory `path`.
    pub fn new(path: &str) -> (r: Self)
        ensures
            r@ == path@,
    {
        VerifyTest { path: path.to_owned() }
    }

    /// The directory of the store.
    pub fn directory(&self) -> (r: &str)
        ensures
            r@ == self@,
    {
        self.path.as_str()
    }

    /// The path of the accepted artifact of the test `fname`.
    pub fn accepted_path(&self, fname: &str) -> (r: String)
        ensures
            r@ == accepted_in(self@, fname@),
    {
        accepted_path(self.path.as_str(), fname)
    }

    /// The path of the received artifact of the test `fname`.
    pub fn received_path(&self, fname: &str) -> (r: String)
        ensures
            r@ == received_in(self@, fname@),
    {
        received_path(self.path.as_str(), fname)
    }

    /// Compares `serialized`, the value of the test `fname` as text, with
    /// what the accepted artifact holds (`None` where there is none yet).
    /// An absent accepted artifact is to be created empty; on a mismatch the
    /// value goes to the received artifact as it was given.
    pub fn assert_snapshot(&self, fname: &str, accepted: Option<&str>, serialized: &str) -> (r:
        Check)
        ensures
            r@ == check_of(self@, fname@, text_of(accepted), serialized@),
    {
        let create_accepted = accepted.is_none();
        let accepted_text: &str = match accepted {
            Some(text) => text,
            None => "",
        };
        proof {
            reveal_strlit("");
            assert(""@ =~= Seq::<char>::empty());
        }
        let matched = same_text(trim(accepted_text), trim(serialized));
        let write_received = if matched {
            None
        } else {
            Some(serialized.to_owned())
        };
        Check {
            matched,
            accepted_path: self.accepted_path(fname),
            received_path: self.received_path(fname),
            create_accepted,
            write_received,
        }
    }

    /// The same comparison as `assert_snapshot`.
    pub fn verify(&self, fname: &str, accepted: Option<&str>, serialized: &str) -> (r: Check)
        ensures
            r@ == check_of(self@, fname@, text_of(accepted), serialized@),
    {
        self.assert_snapshot(fname, accepted, serialized)
    }
}

/// The first run of a test is always put before an operator: with no accepted
/// artifact and a value that is not blank, the comparison fails, the accepted
/// artifact is created empty, and the received artifact holds the value as
/// it was given.
pub proof fn first_run_is_flagged(
    dir: Seq<char>,
    base_name: Seq<char>,
    before: Artifacts,
    serialized: Seq<char>,
)
    requires
        before.accepted is None,
        trimmed(serialized).len() > 0,
    ensures
        !check_of(dir, base_name, before.accepted, serialized).matched,
        after_writes(before, check_of(dir, base_name, before.accepted, serialized)) == (Artifacts {
            accepted: Some(Seq::empty()),
            received: Some(serialized),
        }),
{
    lemma_trimmed_of_white_space(Seq::<char>::empty());
}

/// A comparison that matches changes nothing when the accepted artifact is
/// there: it can be repeated any number of times, it matches each time, and
/// no received artifact comes into being.
pub proof fn matching_check_is_idempotent(
    dir: Seq<char>,
    base_name: Seq<char>,
    before: Artifacts,
    serialized: Seq<char>,
)
    requires
        before.accepted is Some,
        trimmed(before.accepted.unwrap()) == trimmed(serialized),
    ensures
        check_of(dir, base_name, before.accepted, serialized).matched,
        after_writes(before, check_of(dir, base_name, before.accepted, serialized)) == before,
        check_of(
            dir,
            base_name,
            after_writes(before, check_of(dir, base_name, before.accepted, serialized)).accepted,
            serialized,
        ).matched,
{
}

/// Whatever the artifacts hold, a second comparison of the same value gives
/// the verdict of the first and leaves the artifacts as the first left them.
pub proof fn repeated_check_is_stable(
    dir: Seq<char>,
    base_name: Seq<char>,
    before: Artifacts,
    serialized: Seq<char>,
)
    ensures
        ({
            let first = check_of(dir, base_name, before.accepted, serialized);
            let between = after_writes(before, first);
            let second = check_of(dir, base_name, between.accepted, serialized);
            &&& second.matched == first.matched
            &&& !second.create_accepted
            &&& after_writes(between, second) == between
        }),
{
}

/// Whitespace around the accepted text is insignificant: a baseline that is
/// the trimmed value with whitespace before and after it matches the value.
pub proof fn padded_baseline_matches(left: Seq<char>, right: Seq<char>, serialized: Seq<char>)
    requires
        all_white_space(left),
        all_white_space(right),
    ensures
        agrees(Some(left + trimmed(serialized) + right), serialized),
{
    lemma_trim_ignores_padding(left, trimmed(serialized), right);
    lemma_trimmed_twice(serialized);
}

} // verus!
