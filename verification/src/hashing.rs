//! Content identity for opaque binary payloads: a fast digest of the raw
//! bytes, rendered in lowercase hex. The digest is used only for equality
//! within the bounded history, never for security.

use vstd::prelude::*;

verus! {

/// The digest that the `md-5` crate computes for a byte sequence. It depends
/// on the bytes alone; its 16-byte length is stated at the call site.
pub uninterp spec fn md5_of(bytes: Seq<u8>) -> Seq<u8>;

/// Relies on `md5::Md5::digest` (the `md-5` crate): a 16-byte digest that is
/// a pure function of the input bytes.
#[verifier::external_body]
fn md5_digest(bytes: &[u8]) -> (r: Vec<u8>)
    ensures
        r@ == md5_of(bytes@),
        r@.len() == 16,
{
    let digest = <md5::Md5 as md5::Digest>::digest(bytes);
    digest.to_vec()
}

/// The lowercase hex alphabet, indexed by nibble value.
pub open spec fn spec_hex_digit(d: int) -> char {
    seq![
        '0', '1', '2', '3', '4', '5', '6', '7', '8', '9', 'a', 'b', 'c', 'd', 'e',
        'f',
    ][d]
}

/// Lowercase hex encoding: two digits per byte, high nibble first.
pub open spec fn spec_hex(bytes: Seq<u8>) -> Seq<char>
    decreases bytes.len(),
{
    if bytes.len() == 0 {
        Seq::empty()
    } else {
        seq![
            spec_hex_digit(bytes.first() as int / 16),
            spec_hex_digit((bytes.first() % 16) as int),
        ] + spec_hex(bytes.drop_first())
    }
}

/// Relies on `hex::encode`: lowercase hex, two digits per byte, high nibble
/// first.
#[verifier::external_body]
fn hex_encode(bytes: &[u8]) -> (r: String)
    ensures
        r@ == spec_hex(bytes@),
{
    hex::encode(bytes)
}

/// Hex encoding writes exactly two digits per byte.
pub proof fn lemma_hex_len(bytes: Seq<u8>)
    ensures
        spec_hex(bytes).len() == 2 * bytes.len(),
    decreases bytes.len(),
{
    if bytes.len() > 0 {
        lemma_hex_len(bytes.drop_first());
    }
}

/// The content-hash string attached to an image entry: lowercase hex of the
/// digest of its raw pixel bytes.
pub open spec fn spec_content_hash(bytes: Seq<u8>) -> Seq<char> {
    spec_hex(md5_of(bytes))
}

/// Computes the content-hash of a raw pixel buffer: always 32 characters,
/// two hex digits for each of the digest's 16 bytes.
pub fn content_hash(bytes: &Vec<u8>) -> (r: String)
    ensures
        r@ == spec_content_hash(bytes@),
        r@.len() == 32,
{
    let digest = md5_digest(bytes.as_slice());
    proof {
        lemma_hex_len(digest@);
    }
    hex_encode(digest.as_slice())
}

} // verus!
