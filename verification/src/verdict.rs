//! The verifier: holds a finished digest against the hash a descriptor
//! declares.

use crate::digest::{hex, to_hex};
use crate::text::{chars_of, eq_ignore_case, equal_ignoring_case};
use vstd::prelude::*;
use vstd::string::*;

verus! {

/// What the verifier found for one destination file.
pub enum Verdict {
    /// The content has the declared hash.
    Match { file_name: String },
    /// The content has another hash than the declared one. The file is left
    /// as it was written.
    Mismatch { file_name: String, expected: String, actual: String },
}

/// Whether two hashes in hexadecimal text are the same hash: the digits are
/// compared without regard to the case of the letters.
pub open spec fn same_hash(actual: Seq<char>, expected: Seq<char>) -> bool {
    eq_ignore_case(actual, expected)
}

/// Whether the texts `actual` and `expected` are the same hash.
pub fn hashes_agree(actual: &str, expected: &str) -> (agree: bool)
    ensures
        agree == same_hash(actual@, expected@),
{
    let a = chars_of(actual);
    let e = chars_of(expected);
    equal_ignoring_case(a.as_slice(), e.as_slice())
}

/// The verdict on a file named `file_name` whose content has the digest
/// `digest`, for a descriptor that declares the hash `expected`.
pub fn verify_digest(digest: &[u8], expected: &str, file_name: &str) -> (verdict: Verdict)
    ensures
        verdict is Match <==> same_hash(hex(digest@), expected@),
        verdict matches Verdict::Match { file_name: f } ==> f@ == file_name@,
        verdict matches Verdict::Mismatch { file_name: f, expected: e, actual: a } ==> f@
            == file_name@ && e@ == expected@ && a@ == hex(digest@),
{
    let actual = to_hex(digest);
    if hashes_agree(actual.as_str(), expected) {
        Verdict::Match { file_name: file_name.to_owned() }
    } else {
        Verdict::Mismatch {
            file_name: file_name.to_owned(),
            expected: expected.to_owned(),
            actual,
        }
    }
}

} // verus!
