//! Content digests.

use vstd::prelude::*;

verus! {

/// Lowercase hexadecimal digit.
pub open spec fn hex_digit(n: int) -> char {
    "0123456789abcdef"@[n]
}

/// Two lowercase hexadecimal digits for each byte, in order.
pub open spec fn hex_text(bytes: Seq<u8>) -> Seq<char>
    decreases bytes.len(),
{
    if bytes.len() == 0 {
        Seq::empty()
    } else {
        hex_text(bytes.drop_last()).push(hex_digit((bytes.last() / 16) as int)).push(
            hex_digit((bytes.last() % 16) as int),
        )
    }
}

/// The SHA-256 digest of some bytes, as `sha2::Sha256::digest` computes it.
pub uninterp spec fn sha256_of(data: Seq<u8>) -> Seq<u8>;

/// `sha2::Sha256::digest`: the 32-byte digest of the data.
#[verifier::external_body]
fn sha256(data: &[u8]) -> (d: Vec<u8>)
    ensures
        d@ == sha256_of(data@),
        d@.len() == 32,
{
    <sha2::Sha256 as sha2::Digest>::digest(data).to_vec()
}

/// `hex::encode`: two lowercase hexadecimal digits for each byte.
#[verifier::external_body]
pub(crate) fn hex_encode(data: &[u8]) -> (s: String)
    ensures
        s@ == hex_text(data@),
{
    hex::encode(data)
}

/// Hexadecimal SHA-256 digest of some bytes.
pub open spec fn digest_text(data: Seq<u8>) -> Seq<char> {
    hex_text(sha256_of(data))
}

/// Hexadecimal SHA-256 digest of some bytes: 64 lowercase digits.
pub fn sha256_hex(data: &[u8]) -> (s: String)
    ensures
        s@ == digest_text(data@),
        s@.len() == 64,
{
    let d = sha256(data);
    proof {
        lemma_hex_len(d@);
    }
    hex_encode(d.as_slice())
}

/// Hexadecimal text is twice as long as its bytes.
pub proof fn lemma_hex_len(bytes: Seq<u8>)
    ensures
        hex_text(bytes).len() == 2 * bytes.len(),
    decreases bytes.len(),
{
    if bytes.len() > 0 {
        lemma_hex_len(bytes.drop_last());
    }
}

/// `std::str::from_utf8` accepts exactly the well-formed UTF-8 byte
/// sequences.
#[verifier::external_body]
fn from_utf8_ok(bytes: &[u8]) -> (b: bool)
    ensures
        b == vstd::utf8::valid_utf8(bytes@),
{
    std::str::from_utf8(bytes).is_ok()
}

/// Whether some bytes are well-formed UTF-8.
pub fn is_utf8(bytes: &[u8]) -> (b: bool)
    ensures
        b == vstd::utf8::valid_utf8(bytes@),
{
    from_utf8_ok(bytes)
}

/// Hexadecimal SHA-256 digest of a text's UTF-8 bytes.
pub fn text_digest(s: &str) -> (d: String)
    ensures
        d@ == digest_text(vstd::utf8::encode_utf8(s@)),
        d@.len() == 64,
{
    sha256_hex(s.as_bytes())
}

/// A byte is written as its two halves in lower-case hexadecimal, the upper
/// one first, and bytes in their order.
pub proof fn law_hex_writes_every_byte(bytes: Seq<u8>, i: int)
    requires
        0 <= i < bytes.len(),
    ensures
        hex_text(bytes).len() == 2 * bytes.len(),
        hex_text(bytes)[2 * i] == "0123456789abcdef"@[(bytes[i] / 16) as int],
        hex_text(bytes)[2 * i + 1] == "0123456789abcdef"@[(bytes[i] % 16) as int],
    decreases bytes.len(),
{
    let t = bytes.drop_last();
    lemma_hex_len(t);
    lemma_hex_len(bytes);
    if i < t.len() {
        law_hex_writes_every_byte(t, i);
        assert(hex_text(bytes)[2 * i] == hex_text(t)[2 * i]);
        assert(hex_text(bytes)[2 * i + 1] == hex_text(t)[2 * i + 1]);
    }
}

} // verus!
