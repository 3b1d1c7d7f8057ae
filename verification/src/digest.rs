//! SHA-256 digests and their lower-case hexadecimal form.

use vstd::prelude::*;
use vstd::string::StrSliceExecFns;
use vstd::utf8::encode_utf8;
use crate::json::hex_digit;

verus! {

/// The SHA-256 digest of a byte sequence, as the `sha2` crate computes it.
pub uninterp spec fn sha256_of(data: Seq<u8>) -> Seq<u8>;

/// Lower-case hexadecimal text of a byte sequence: two digits per byte,
/// high nibble first.
pub open spec fn hex_lower(bytes: Seq<u8>) -> Seq<char>
    decreases bytes.len(),
{
    if bytes.len() == 0 {
        Seq::empty()
    } else {
        hex_lower(bytes.drop_last()) + seq![
            hex_digit((bytes.last() / 16) as nat),
            hex_digit((bytes.last() % 16) as nat),
        ]
    }
}

/// The lower-case hex SHA-256 of a byte sequence.
pub open spec fn sha256_hex_of(data: Seq<u8>) -> Seq<char> {
    hex_lower(sha256_of(data))
}

/// The lower-case hex SHA-256 of the UTF-8 encoding of a text.
pub open spec fn sha256_hex_of_text(text: Seq<char>) -> Seq<char> {
    sha256_hex_of(encode_utf8(text))
}

/// Calls `sha2::Sha256::digest`. Claimed: the result is the function
/// `sha256_of` of the input, and it is 32 bytes long (SHA-256's output size).
#[verifier::external_body]
pub(crate) fn sha256(data: &[u8]) -> (digest: Vec<u8>)
    ensures
        digest@ == sha256_of(data@),
        digest@.len() == 32,
{
    <sha2::Sha256 as sha2::Digest>::digest(data).to_vec()
}

/// Calls `hex::encode`. Claimed: two lower-case hexadecimal digits per byte,
/// high nibble first, as the crate documents.
#[verifier::external_body]
pub(crate) fn hex_encode(data: &[u8]) -> (text: String)
    ensures
        text@ == hex_lower(data@),
{
    hex::encode(data)
}

pub proof fn lemma_hex_lower_len(bytes: Seq<u8>)
    ensures
        hex_lower(bytes).len() == 2 * bytes.len(),
    decreases bytes.len(),
{
    if bytes.len() > 0 {
        lemma_hex_lower_len(bytes.drop_last());
    }
}

/// Lower-case hex SHA-256 of raw bytes.
pub fn sha256_hex(data: &[u8]) -> (text: String)
    ensures
        text@ == sha256_hex_of(data@),
        text@.len() == 64,
{
    let digest = sha256(data);
    proof {
        lemma_hex_lower_len(digest@);
    }
    hex_encode(digest.as_slice())
}

/// Lower-case hex SHA-256 of the UTF-8 bytes of a text.
pub fn sha256_hex_text(text: &str) -> (digest: String)
    ensures
        digest@ == sha256_hex_of_text(text@),
        digest@.len() == 64,
{
    let bytes = text.as_bytes_vec();
    sha256_hex(bytes.as_slice())
}

} // verus!
