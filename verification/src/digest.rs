//! The rolling hash of a transfer: SHA-256 fed chunk by chunk, and the
//! hexadecimal text of a finished digest.

use sha2::Digest;
use vstd::prelude::*;
use vstd::string::*;

verus! {

/// A SHA-256 computation in progress.
///
/// The state is `sha2::Sha256` and is opaque to the verifier: everything
/// known of an accumulator is the sequence of bytes it has been fed, which
/// is its view.
#[verifier::external_body]
pub struct HashAccumulator {
    state: sha2::Sha256,
}

/// The bytes fed to `h` so far, oldest first.
pub uninterp spec fn absorbed(h: HashAccumulator) -> Seq<u8>;

/// The SHA-256 digest of `data`, as `sha2` computes it.
pub uninterp spec fn sha256(data: Seq<u8>) -> Seq<u8>;

impl View for HashAccumulator {
    type V = Seq<u8>;

    open spec fn view(&self) -> Seq<u8> {
        absorbed(*self)
    }
}

/// `sha2::Sha256::new` (`Digest::new`): a hasher in its initial state, which
/// has been fed nothing.
#[verifier::external_body]
pub(crate) fn hasher_new() -> (h: HashAccumulator)
    ensures
        absorbed(h) == Seq::<u8>::empty(),
{
    HashAccumulator { state: sha2::Sha256::new() }
}

/// `Digest::update` on `sha2::Sha256`: feeds `data` to the hasher, after
/// everything it was fed before.
#[verifier::external_body]
pub(crate) fn hasher_update(h: &mut HashAccumulator, data: &[u8])
    ensures
        absorbed(*final(h)) == absorbed(*old(h)) + data@,
{
    h.state.update(data)
}

/// `Digest::finalize` on `sha2::Sha256`: the digest of everything the
/// hasher was fed. It is a function of those bytes alone and is 32 bytes
/// long.
#[verifier::external_body]
pub(crate) fn hasher_finalize(h: HashAccumulator) -> (digest: Vec<u8>)
    ensures
        digest@ == sha256(absorbed(h)),
        digest@.len() == 32,
{
    h.state.finalize().to_vec()
}

/// The character of the hexadecimal digit `d`, in lower case.
pub open spec fn hex_char(d: int) -> char {
    if d < 10 {
        (d + 48) as u8 as char
    } else {
        (d + 87) as u8 as char
    }
}

/// `bytes` in lower-case hexadecimal, two digits a byte, high digit first.
pub open spec fn hex(bytes: Seq<u8>) -> Seq<char>
    decreases bytes.len(),
{
    if bytes.len() == 0 {
        Seq::empty()
    } else {
        hex(bytes.drop_last()).push(hex_char(bytes.last() as int / 16)).push(
            hex_char(bytes.last() as int % 16),
        )
    }
}

/// Hexadecimal text has two characters a byte.
pub proof fn lemma_hex_len(bytes: Seq<u8>)
    ensures
        hex(bytes).len() == 2 * bytes.len(),
    decreases bytes.len(),
{
    if bytes.len() > 0 {
        lemma_hex_len(bytes.drop_last());
    }
}

/// The one-character text of the hexadecimal digit `d`.
fn hex_text(d: u8) -> (t: &'static str)
    requires
        d < 16,
    ensures
        t@ == seq![hex_char(d as int)],
{
    proof {
        reveal_strlit("0");
        reveal_strlit("1");
        reveal_strlit("2");
        reveal_strlit("3");
        reveal_strlit("4");
        reveal_strlit("5");
        reveal_strlit("6");
        reveal_strlit("7");
        reveal_strlit("8");
        reveal_strlit("9");
        reveal_strlit("a");
        reveal_strlit("b");
        reveal_strlit("c");
        reveal_strlit("d");
        reveal_strlit("e");
        reveal_strlit("f");
    }
    let t: &'static str = if d == 0 {
        "0"
    } else if d == 1 {
        "1"
    } else if d == 2 {
        "2"
    } else if d == 3 {
        "3"
    } else if d == 4 {
        "4"
    } else if d == 5 {
        "5"
    } else if d == 6 {
        "6"
    } else if d == 7 {
        "7"
    } else if d == 8 {
        "8"
    } else if d == 9 {
        "9"
    } else if d == 10 {
        "a"
    } else if d == 11 {
        "b"
    } else if d == 12 {
        "c"
    } else if d == 13 {
        "d"
    } else if d == 14 {
        "e"
    } else {
        "f"
    };
    t
}

/// `bytes` in lower-case hexadecimal.
pub fn to_hex(bytes: &[u8]) -> (text: String)
    ensures
        text@ == hex(bytes@),
{
    let mut text = String::new();
    let mut i: usize = 0;
    while i < bytes.len()
        invariant
            i <= bytes.len(),
            text@ == hex(bytes@.take(i as int)),
        decreases bytes.len() - i,
    {
        let b: u8 = bytes[i];
        assert(bytes@.take(i + 1).drop_last() =~= bytes@.take(i as int));
        text.append(hex_text(b / 16));
        text.append(hex_text(b % 16));
        i = i + 1;
    }
    assert(bytes@.take(i as int) =~= bytes@);
    text
}

/// The SHA-256 digest of `data`, in lower-case hexadecimal.
pub fn sha256_hex(data: &[u8]) -> (text: String)
    ensures
        text@ == hex(sha256(data@)),
        text@.len() == 64,
{
    let mut h = hasher_new();
    hasher_update(&mut h, data);
    let digest = hasher_finalize(h);
    proof {
        lemma_hex_len(digest@);
    }
    to_hex(digest.as_slice())
}

} // verus!
