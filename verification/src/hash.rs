//! Content hashes: SHA-256 (from `sha2`) in lowercase hexadecimal.

use vstd::prelude::*;
use crate::text::string_from;
use vstd::string::StringSliceAdditionalSpecFns;

verus! {

/// The SHA-256 digest of a byte sequence.
pub uninterp spec fn sha256_digest(data: Seq<u8>) -> Seq<u8>;

/// `sha2::Sha256::digest`: the digest, named by `sha256_digest`; it is 32
/// bytes long (the output size of SHA-256).
#[verifier::external_body]
fn sha256(data: &[u8]) -> (r: Vec<u8>)
    ensures
        r@ == sha256_digest(data@),
        r@.len() == 32,
{
    <sha2::Sha256 as sha2::Digest>::digest(data).to_vec()
}

/// The lowercase hexadecimal digit of a value below 16.
pub open spec fn hex_digit(n: nat) -> char {
    if n < 10 {
        (n + '0' as nat) as char
    } else {
        (n - 10 + 'a' as nat) as char
    }
}

/// Bytes in lowercase hexadecimal, two digits per byte (`{:x}`).
pub open spec fn hex_lower(bytes: Seq<u8>) -> Seq<char>
    decreases bytes.len(),
{
    if bytes.len() == 0 {
        seq![]
    } else {
        hex_lower(bytes.drop_last()) + seq![
            hex_digit((bytes.last() / 16) as nat),
            hex_digit((bytes.last() % 16) as nat),
        ]
    }
}

fn hex_char(n: u8) -> (c: char)
    requires
        n < 16,
    ensures
        c == hex_digit(n as nat),
{
    if n < 10 {
        (n + 48) as char
    } else {
        (n - 10 + 97) as char
    }
}

/// `bytes` in lowercase hexadecimal.
pub fn to_hex_lower(bytes: &[u8]) -> (r: Vec<char>)
    ensures
        r@ == hex_lower(bytes@),
        r@.len() == 2 * bytes@.len(),
{
    let mut out: Vec<char> = Vec::new();
    let mut i: usize = 0;
    assert(bytes@.take(0) =~= Seq::<u8>::empty());
    while i < bytes.len()
        invariant
            i <= bytes@.len(),
            out@ == hex_lower(bytes@.take(i as int)),
            out@.len() == 2 * i,
        decreases bytes@.len() - i,
    {
        let b = bytes[i];
        proof {
            assert(bytes@.take(i + 1).drop_last() =~= bytes@.take(i as int));
        }
        out.push(hex_char(b / 16));
        out.push(hex_char(b % 16));
        i = i + 1;
    }
    assert(bytes@.take(i as int) =~= bytes@);
    out
}

/// The content hash of an imported document: the SHA-256 of its UTF-8 bytes,
/// in lowercase hexadecimal.
pub fn content_hash(text: &str) -> (r: String)
    ensures
        r@ == hex_lower(sha256_digest(text.spec_bytes())),
{
    let d = sha256(text.as_bytes());
    let h = to_hex_lower(&d);
    string_from(&h)
}

/// The short hash kept in the scan cache for a file's content: the first 16
/// hexadecimal digits of its SHA-256.
pub fn file_hash(content: &[u8]) -> (r: String)
    ensures
        r@ == hex_lower(sha256_digest(content@)).take(16),
{
    let d = sha256(content);
    let h = to_hex_lower(&d);
    let short = crate::text::slice_range(&h, 0, 16);
    string_from(&short)
}

} // verus!
