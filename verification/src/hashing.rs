//! Content hashing: SHA-256 digests rendered as short hex strings.
//!
//! Manifest entries, codebase IDs and chunk IDs are all the first 16
//! hex characters of a SHA-256 digest. The digest itself comes from the
//! sha2 crate; the hex rendering and the truncation are verified here.

use vstd::prelude::*;

use sha2::Digest;

verus! {

/// The digest that SHA-256 computes for a byte sequence. Named, not
/// defined: the library relies on the sha2 crate to compute it and
/// states nothing about its value.
pub uninterp spec fn sha256_of(bytes: Seq<u8>) -> Seq<u8>;

/// Relies on sha2::Sha256 through Digest::digest: a 32-byte digest that
/// depends on the input bytes alone.
#[verifier::external_body]
fn sha256_digest(data: &[u8]) -> (digest: Vec<u8>)
    ensures
        digest@ == sha256_of(data@),
        digest@.len() == 32,
{
    sha2::Sha256::digest(data).to_vec()
}

/// The sixteen lowercase hex digits, in value order.
pub open spec fn hex_digit_char(d: int) -> char {
    seq!['0', '1', '2', '3', '4', '5', '6', '7', '8', '9', 'a', 'b', 'c', 'd', 'e', 'f'][d]
}

/// Lowercase hex encoding of a byte sequence: two digits per byte,
/// high nibble first.
pub open spec fn hex_of(bytes: Seq<u8>) -> Seq<char>
    decreases bytes.len(),
{
    if bytes.len() == 0 {
        Seq::<char>::empty()
    } else {
        seq![
            hex_digit_char(bytes.first() as int / 16),
            hex_digit_char(bytes.first() as int % 16),
        ] + hex_of(bytes.drop_first())
    }
}

pub proof fn lemma_hex_of_len(bytes: Seq<u8>)
    ensures
        hex_of(bytes).len() == 2 * bytes.len(),
    decreases bytes.len(),
{
    if bytes.len() > 0 {
        lemma_hex_of_len(bytes.drop_first());
    }
}

/// The one-character string for a hex digit value.
pub(crate) fn hex_digit_str(d: u8) -> (r: &'static str)
    requires
        d < 16,
    ensures
        r@ =~= seq![hex_digit_char(d as int)],
{
    proof {
        reveal_strlit("0");
        reveal_strlit("1");
        reveal_strlit("2");
        reveal_strlit("3");
        reveal_strlit("4");
        reveal_strlit("5");
        reveal_strlit("6");
        reveal_strlit("7");
        reveal_strlit("8");
        reveal_strlit("9");
        reveal_strlit("a");
        reveal_strlit("b");
        reveal_strlit("c");
        reveal_strlit("d");
        reveal_strlit("e");
        reveal_strlit("f");
    }
    match d {
        0 => "0",
        1 => "1",
        2 => "2",
        3 => "3",
        4 => "4",
        5 => "5",
        6 => "6",
        7 => "7",
        8 => "8",
        9 => "9",
        10 => "a",
        11 => "b",
        12 => "c",
        13 => "d",
        14 => "e",
        _ => "f",
    }
}

/// Renders a byte sequence as lowercase hex, two digits per byte.
pub fn hex_encode(data: &[u8]) -> (r: String)
    ensures
        r@ == hex_of(data@),
{
    let mut r = String::new();
    let n = data.len();
    assert(data@.skip(0) == data@);
    for i in 0..n
        invariant
            n == data@.len(),
            hex_of(data@) =~= r@ + hex_of(data@.skip(i as int)),
    {
        let byte = data[i];
        r.append(hex_digit_str(byte / 16));
        r.append(hex_digit_str(byte % 16));
        assert(data@.skip(i as int).drop_first() =~= data@.skip(i + 1));
    }
    r
}

/// The short digest used throughout: the first 16 hex characters of the
/// SHA-256 digest of the input bytes.
pub open spec fn short_digest_of(bytes: Seq<u8>) -> Seq<char> {
    hex_of(sha256_of(bytes)).take(16)
}

/// Hashes a byte sequence to its 16-character hex form.
pub fn short_digest(data: &[u8]) -> (r: String)
    ensures
        r@ == short_digest_of(data@),
        r@.len() == 16,
{
    let digest = sha256_digest(data);
    let full = hex_encode(digest.as_slice());
    proof {
        lemma_hex_of_len(digest@);
    }
    let short = full.as_str().substring_char(0, 16);
    assert(short@ =~= short_digest_of(data@));
    short.to_owned()
}

/// The short digest is a function of the input bytes alone: two results
/// obtained for the same bytes are the same string.
pub proof fn lemma_short_digest_deterministic(r1: Seq<char>, r2: Seq<char>, bytes: Seq<u8>)
    requires
        r1 == short_digest_of(bytes),
        r2 == short_digest_of(bytes),
    ensures
        r1 == r2,
{
}

} // verus!
