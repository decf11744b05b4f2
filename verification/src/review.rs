//! What an operator did with one candidate, told from fingerprints alone.

use crate::fingerprint::{fingerprint, fingerprint_of};
use crate::text::same_text;
use vstd::prelude::*;

verus! {

/// The outcome of one run of the external tool on a pair.
#[derive(Clone, Copy, PartialEq, Eq, Debug, Structural)]
pub enum ReviewResult {
    /// The accepted file now holds what the received file held.
    Match,
    /// The accepted file changed, but not to the received value.
    NoMatch,
    /// The accepted file is as it was.
    NoChanges,
}

/// The outcome for the fingerprint of the accepted file before the tool ran,
/// that of the received file before it ran, and that of the accepted file
/// after. `Match` takes precedence: an accepted file that already equalled the
/// received one and was left alone is a match.
pub open spec fn classification(
    accepted_before: Seq<char>,
    received_before: Seq<char>,
    accepted_after: Seq<char>,
) -> ReviewResult {
    if accepted_after == received_before {
        ReviewResult::Match
    } else if accepted_after != accepted_before {
        ReviewResult::NoMatch
    } else {
        ReviewResult::NoChanges
    }
}

/// Classifies a run of the tool from the three fingerprints.
pub fn classify(accepted_before: &str, received_before: &str, accepted_after: &str) -> (r:
    ReviewResult)
    ensures
        r == classification(accepted_before@, received_before@, accepted_after@),
{
    if same_text(accepted_after, received_before) {
        ReviewResult::Match
    } else if !same_text(accepted_after, accepted_before) {
        ReviewResult::NoMatch
    } else {
        ReviewResult::NoChanges
    }
}

/// Classifies a run of the tool from the contents of the accepted and the
/// received file read before it ran, and of the accepted file read after.
pub fn review(accepted_before: &str, received_before: &str, accepted_after: &str) -> (r:
    ReviewResult)
    ensures
        r == classification(
            fingerprint_of(accepted_before@),
            fingerprint_of(received_before@),
            fingerprint_of(accepted_after@),
        ),
{
    let initial_accepted = fingerprint(accepted_before);
    let initial_received = fingerprint(received_before);
    let final_accepted = fingerprint(accepted_after);
    classify(initial_accepted.as_str(), initial_received.as_str(), final_accepted.as_str())
}

/// Every run of the tool falls under exactly one outcome, and the three
/// fingerprints decide which: a match where the accepted file ends up with
/// the received fingerprint; otherwise no match where it changed and no
/// changes where it did not.
pub proof fn classification_is_decided(
    accepted_before: Seq<char>,
    received_before: Seq<char>,
    accepted_after: Seq<char>,
)
    ensures
        classification(accepted_before, received_before, accepted_after) == ReviewResult::Match
            <==> accepted_after == received_before,
        classification(accepted_before, received_before, accepted_after) == ReviewResult::NoMatch
            <==> accepted_after != received_before && accepted_after != accepted_before,
        classification(accepted_before, received_before, accepted_after)
            == ReviewResult::NoChanges <==> accepted_after != received_before && accepted_after
            == accepted_before,
{
}

} // verus!
