//! Fingerprints of payloads: the SHA-256 digest of the raw bytes, written in
//! lower-case hexadecimal.

use vstd::prelude::*;
use sha2::Digest;
use sha2::Sha256;

verus! {

/// The SHA-256 digest of `data`.
pub uninterp spec fn sha256(data: Seq<u8>) -> Seq<u8>;

/// The hexadecimal digit for `d`, which is below sixteen, in lower case.
pub open spec fn hex_digit(d: nat) -> char {
    if d < 10 {
        ((48 + d) as u8) as char
    } else {
        ((87 + d) as u8) as char
    }
}

/// `data` in lower-case hexadecimal, two digits for each byte, the high half
/// of the byte first.
pub open spec fn hex_lower(data: Seq<u8>) -> Seq<char>
    decreases data.len(),
{
    if data.len() == 0 {
        Seq::empty()
    } else {
        hex_lower(data.drop_last()).push(hex_digit((data.last() / 16) as nat)).push(
            hex_digit((data.last() % 16) as nat),
        )
    }
}

/// The fingerprint of a payload.
pub open spec fn fingerprint_of(body: Seq<u8>) -> Seq<char> {
    hex_lower(sha256(body))
}

/// Hashes `data` with `sha2::Sha256`: the hasher is fed `data` once and
/// finalized, which yields the SHA-256 digest of `data`.
#[verifier::external_body]
pub(crate) fn sha256_digest(data: &[u8]) -> (digest: Vec<u8>)
    ensures
        digest@ == sha256(data@),
{
    let mut hasher = Sha256::new();
    hasher.update(data);
    hasher.finalize().to_vec()
}

/// Writes `data` in hexadecimal through `hex::encode`, which encodes every
/// byte with two lower-case digits, the high half first.
#[verifier::external_body]
pub(crate) fn hex_encode(data: &[u8]) -> (text: String)
    ensures
        text@ == hex_lower(data@),
{
    hex::encode(data)
}

/// The fingerprint of the payload `body`.
pub fn fingerprint(body: &[u8]) -> (key: String)
    ensures
        key@ == fingerprint_of(body@),
{
    let digest = sha256_digest(body);
    hex_encode(digest.as_slice())
}

} // verus!
