//! Where the two artifacts of a test live: `{base_name}.accepted.json` holds
//! the baseline and `{base_name}.received.json` the candidate, side by side
//! in one directory.

use crate::text::{
    file_name, file_name_of, has_suffix, join, joined, lemma_file_name_is, strip_suffix,
};
use vstd::prelude::*;

verus! {

/// What the name of an accepted artifact ends with.
pub open spec fn accepted_suffix() -> Seq<char> {
    ".accepted.json"@
}

/// What the name of a received artifact ends with.
pub open spec fn received_suffix() -> Seq<char> {
    ".received.json"@
}

/// The path of the accepted artifact of `base_name` in `dir`.
pub open spec fn accepted_in(dir: Seq<char>, base_name: Seq<char>) -> Seq<char> {
    joined(dir, base_name + accepted_suffix())
}

/// The path of the received artifact of `base_name` in `dir`.
pub open spec fn received_in(dir: Seq<char>, base_name: Seq<char>) -> Seq<char> {
    joined(dir, base_name + received_suffix())
}

/// Whether `path` names a received artifact.
pub open spec fn is_received(path: Seq<char>) -> bool {
    has_suffix(path, received_suffix())
}

/// The path of a received artifact without its suffix.
pub open spec fn stem(path: Seq<char>) -> Seq<char> {
    path.take(path.len() - received_suffix().len())
}

/// The accepted artifact beside the received artifact at `path`.
pub open spec fn sibling_accepted(path: Seq<char>) -> Seq<char> {
    stem(path) + accepted_suffix()
}

/// The test that the received artifact at `path` belongs to.
pub open spec fn base_name(path: Seq<char>) -> Seq<char> {
    file_name(stem(path))
}

/// The path of the accepted artifact of `base_name` in `dir`.
pub fn accepted_path(dir: &str, base_name: &str) -> (r: String)
    ensures
        r@ == accepted_in(dir@, base_name@),
{
    let mut name = base_name.to_owned();
    name.append(".accepted.json");
    join(dir, name.as_str())
}

/// The path of the received artifact of `base_name` in `dir`.
pub fn received_path(dir: &str, base_name: &str) -> (r: String)
    ensures
        r@ == received_in(dir@, base_name@),
{
    let mut name = base_name.to_owned();
    name.append(".received.json");
    join(dir, name.as_str())
}

/// The accepted artifact beside the received artifact at `received`, or
/// `None` where `received` does not name a received artifact.
pub fn sibling_accepted_path(received: &str) -> (r: Option<String>)
    ensures
        r is Some <==> is_received(received@),
        r is Some ==> r.unwrap()@ == sibling_accepted(received@),
{
    match strip_suffix(received, ".received.json") {
        Some(stem) => {
            let mut path = stem.to_owned();
            path.append(".accepted.json");
            Some(path)
        },
        None => None,
    }
}

/// The test that the received artifact at `received` belongs to, or `None`
/// where `received` does not name a received artifact.
pub fn base_name_of(received: &str) -> (r: Option<String>)
    ensures
        r is Some <==> is_received(received@),
        r is Some ==> r.unwrap()@ == base_name(received@),
{
    match strip_suffix(received, ".received.json") {
        Some(stem) => Some(file_name_of(stem).to_owned()),
        None => None,
    }
}

/// The store and the discovery agree on where artifacts live: the received
/// artifact that a store writes for a test is recognised as one, the
/// accepted artifact found beside it is the one that the store reads, and
/// the test's name is read back from the path, provided that the name holds
/// no `/`.
pub proof fn received_path_round_trip(dir: Seq<char>, name: Seq<char>)
    requires
        forall|i: int| 0 <= i < name.len() ==> name[i] != '/',
    ensures
        is_received(received_in(dir, name)),
        sibling_accepted(received_in(dir, name)) == accepted_in(dir, name),
        base_name(received_in(dir, name)) == name,
{
    reveal_strlit(".received.json");
    reveal_strlit(".accepted.json");
    let prefix = if dir.len() == 0 || dir.last() == '/' {
        dir
    } else {
        dir + seq!['/']
    };
    let path = received_in(dir, name);
    assert(path =~= prefix + name + received_suffix());
    assert(accepted_in(dir, name) =~= prefix + name + accepted_suffix());
    assert(path.skip(path.len() - received_suffix().len()) =~= received_suffix());
    assert(stem(path) =~= prefix + name);
    lemma_file_name_is(stem(path), prefix.len() as int);
    assert(stem(path).skip(prefix.len() as int) =~= name);
}

} // verus!
