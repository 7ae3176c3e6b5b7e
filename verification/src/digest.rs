//! SHA-256, from the sha2 crate, and the integrity hash of a log prefix.

use vstd::prelude::*;
use vstd::utf8::encode_utf8;
use sha2::{Digest, Sha256};
use crate::text::{hex, hex_text, strs, terminated, terminated_prefix};

verus! {

/// The SHA-256 digest of a byte sequence.
pub uninterp spec fn sha256_digest(data: Seq<u8>) -> Seq<u8>;

/// Hashes bytes with sha2's `Sha256::digest`. The result is the named result
/// `sha256_digest` of the bytes, 32 bytes long.
#[verifier::external_body]
pub(crate) fn sha256(data: &[u8]) -> (r: Vec<u8>)
    ensures
        r@ == sha256_digest(data@),
        r@.len() == 32,
{
    Sha256::digest(data).to_vec()
}

/// The integrity hash of the first `n` log lines: SHA-256 of their UTF-8
/// text, each line followed by a newline, in lowercase hex.
pub open spec fn prefix_digest_text(lines: Seq<Seq<char>>, n: int) -> Seq<char> {
    hex_text(sha256_digest(encode_utf8(terminated(lines.take(n)))))
}

/// Computes the integrity hash of the first `n` lines.
pub fn prefix_digest(lines: &[String], n: usize) -> (r: String)
    requires
        n <= lines.len(),
    ensures
        r@ == prefix_digest_text(strs(lines@), n as int),
{
    let prefix = terminated_prefix(lines, n);
    let digest = sha256(prefix.as_str().as_bytes());
    hex(digest.as_slice())
}

} // verus!
