//! Content fingerprints: the SHA-256 digest of a text without the whitespace
//! around it.

use crate::text::{all_white_space, lemma_trim_ignores_padding, trim, trimmed};
use vstd::prelude::*;

verus! {

/// The SHA-256 digest of the UTF-8 encoding of `text`, as 64 lower-case
/// hexadecimal digits.
pub uninterp spec fn sha256_hex(text: Seq<char>) -> Seq<char>;

/// The fingerprint of a file's content: the digest of the trimmed text.
pub open spec fn fingerprint_of(content: Seq<char>) -> Seq<char> {
    sha256_hex(trimmed(content))
}

/// Calls `sha256::digest` on a `&str`. The crate hashes the string's bytes
/// with SHA-256 and hex-encodes the 32 bytes of output; the contract claims
/// only that the result is that function of the text, under the name
/// `sha256_hex`.
#[verifier::external_body]
fn digest(text: &str) -> (r: String)
    ensures
        r@ == sha256_hex(text@),
{
    sha256::digest(text)
}

/// The fingerprint of `content`.
pub fn fingerprint(content: &str) -> (r: String)
    ensures
        r@ == fingerprint_of(content@),
{
    digest(trim(content))
}

/// Whitespace put before and after a content does not change its
/// fingerprint.
pub proof fn fingerprint_ignores_padding(left: Seq<char>, body: Seq<char>, right: Seq<char>)
    requires
        all_white_space(left),
        all_white_space(right),
    ensures
        fingerprint_of(left + body + right) == fingerprint_of(body),
{
    lemma_trim_ignores_padding(left, body, right);
}

} // verus!
