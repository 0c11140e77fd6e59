//! Chunk ids: a prefix of the SHA-256 digest of a chunk's bytes, written in
//! lower-case hexadecimal.

use vstd::prelude::*;
use vstd::string::*;
use sha2::Digest;
use crate::text::{from_chars, to_chars};

verus! {

/// Number of hexadecimal digits in a SHA-256 digest.
pub const DIGEST_HEX_LEN: usize = 64;

/// Number of digits in the id of a text chunk.
pub const TEXT_HASH_SIZE: usize = 10;

/// Number of digits in the id of a binary chunk.
pub const BINARY_HASH_SIZE: usize = 32;

/// The SHA-256 digest of `data`, as hexadecimal digits.
pub uninterp spec fn sha256_hex(data: Seq<u8>) -> Seq<char>;

/// A digit of lower-case hexadecimal.
pub open spec fn is_lower_hex(c: char) -> bool {
    ('0' <= c && c <= '9') || ('a' <= c && c <= 'f')
}

/// Every character of `s` is a digit of lower-case hexadecimal.
pub open spec fn all_lower_hex(s: Seq<char>) -> bool {
    forall|i: int| 0 <= i < s.len() ==> is_lower_hex(#[trigger] s[i])
}

/// The id of a chunk: the first `size` digits of its digest.
pub open spec fn hash_of(data: Seq<u8>, size: nat) -> Seq<char> {
    sha256_hex(data).take(size as int)
}

/// `sha2::Sha256` over `data`, formatted with `{:x}`: the digest of the
/// bytes as 64 lower-case hexadecimal digits.
#[verifier::external_body]
fn sha256_hex_digest(data: &Vec<u8>) -> (hex: String)
    ensures
        hex@ == sha256_hex(data@),
        hex@.len() == DIGEST_HEX_LEN,
        all_lower_hex(hex@),
{
    let mut hasher = sha2::Sha256::new();
    hasher.update(data);
    let result = hasher.finalize();
    format!("{:x}", result)
}

/// The first `size` digits of a digest written in hexadecimal.
pub fn digest_prefix(hex: &str, size: usize) -> (id: String)
    requires
        size <= hex@.len(),
    ensures
        id@ == hex@.take(size as int),
{
    let digits = to_chars(hex);
    let id = from_chars(&digits, 0, size);
    proof {
        assert(id@ =~= hex@.take(size as int));
    }
    id
}

/// The first `size` hexadecimal digits of the SHA-256 digest of `data`.
pub fn hash(data: &Vec<u8>, size: usize) -> (id: String)
    requires
        size <= DIGEST_HEX_LEN,
    ensures
        id@ == hash_of(data@, size as nat),
        id@.len() == size,
        all_lower_hex(id@),
        forall|shorter: nat|
            shorter <= size ==> #[trigger] hash_of(data@, shorter) == id@.take(shorter as int),
{
    let hex = sha256_hex_digest(data);
    let id = digest_prefix(hex.as_str(), size);
    proof {
        assert forall|shorter: nat| shorter <= size implies #[trigger] hash_of(data@, shorter)
            == id@.take(shorter as int) by {
            assert(hex@.take(shorter as int) =~= hex@.take(size as int).take(shorter as int));
        }
    }
    id
}

/// The id of a chunk is the same whenever it is computed, and a shorter id
/// is a prefix of a longer one of the same bytes.
pub proof fn lemma_hash_prefix_stable(data: Seq<u8>, n1: nat, n2: nat)
    requires
        n1 <= n2,
    ensures
        n2 <= sha256_hex(data).len() ==> hash_of(data, n1) == hash_of(data, n2).take(n1 as int),
        n2 <= sha256_hex(data).len() ==> hash_of(data, n1).len() == n1,
{
    if n2 <= sha256_hex(data).len() {
        assert(hash_of(data, n1) =~= hash_of(data, n2).take(n1 as int));
    }
}

} // verus!
