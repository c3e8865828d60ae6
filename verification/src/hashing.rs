use vstd::prelude::*;

verus! {

/// The lowercase hexadecimal SHA-256 digest of the UTF-8 encoding of a text.
pub uninterp spec fn sha256_hex_of_text(text: Seq<char>) -> Seq<char>;

/// The lowercase hexadecimal SHA-256 digest of some bytes.
pub uninterp spec fn sha256_hex_of_bytes(data: Seq<u8>) -> Seq<char>;

/// The lowercase hexadecimal SHA-512 digest of some bytes.
pub uninterp spec fn sha512_hex_of_bytes(data: Seq<u8>) -> Seq<char>;

/// Calls `starbase_utils::hash::sha256::from_bytes` on the UTF-8 bytes of
/// the text. Claimed: the digest depends on the text alone.
#[verifier::external_body]
pub(crate) fn sha256_hex_text(text: &str) -> (r: String)
    ensures
        r@ == sha256_hex_of_text(text@),
{
    starbase_utils::hash::sha256::from_bytes(text.as_bytes())
}

/// Calls `starbase_utils::hash::sha256::from_bytes`. Claimed: the digest
/// depends on the bytes alone.
#[verifier::external_body]
pub(crate) fn sha256_hex_bytes(data: &[u8]) -> (r: String)
    ensures
        r@ == sha256_hex_of_bytes(data@),
{
    starbase_utils::hash::sha256::from_bytes(data)
}

/// Calls `starbase_utils::hash::sha512::from_bytes`. Claimed: the digest
/// depends on the bytes alone.
#[verifier::external_body]
pub(crate) fn sha512_hex_bytes(data: &[u8]) -> (r: String)
    ensures
        r@ == sha512_hex_of_bytes(data@),
{
    starbase_utils::hash::sha512::from_bytes(data)
}

} // verus!
