use sha2::{Digest, Sha256};
use vstd::prelude::*;
use vstd::utf8::{decode_utf8, encode_utf8, encode_utf8_decode_utf8};

verus! {

/// The SHA-256 digest of a byte string.
pub uninterp spec fn sha256_digest(data: Seq<u8>) -> Seq<u8>;

/// Calls `sha2::Sha256::digest` on `data` and copies the 32-byte output
/// into a vector. Claimed: the result is the SHA-256 digest of `data`
/// (named, not spelled out) and it is 32 bytes long, the output size of
/// `Sha256`.
#[verifier::external_body]
fn sha256(data: &[u8]) -> (digest: Vec<u8>)
    ensures
        digest@ == sha256_digest(data@),
        digest@.len() == 32,
{
    Sha256::digest(data).to_vec()
}

/// The 16-byte tenant prefix of a namespace: the first half of the SHA-256
/// digest of its UTF-8 encoding.
pub open spec fn namespace_hash(namespace: Seq<char>) -> Seq<u8> {
    sha256_digest(encode_utf8(namespace)).take(16)
}

/// Hashes a namespace name to the 16-byte prefix that every key of that
/// namespace starts with.
pub fn ns_hash(namespace: &str) -> (hash: [u8; 16])
    ensures
        hash@ == namespace_hash(namespace@),
        hash@ == sha256_digest(encode_utf8(namespace@)).take(16),
{
    let digest = sha256(namespace.as_bytes());
    let mut out = [0u8; 16];
    let mut i: usize = 0;
    while i < 16
        invariant
            0 <= i <= 16,
            digest@.len() == 32,
            forall|j: int| 0 <= j < i ==> out@[j] == digest@[j],
        decreases 16 - i,
    {
        out[i] = digest[i];
        i = i + 1;
    }
    assert(out@ =~= digest@.take(16));
    out
}

/// The namespace prefix is the first 16 bytes of the SHA-256 digest of the
/// whole UTF-8 encoding of the name, and that encoding determines the name:
/// two different names are hashed from two different digest inputs, so no
/// byte of a name is left out of its prefix.
pub proof fn namespace_hash_digests_whole_name(n1: Seq<char>, n2: Seq<char>)
    ensures
        namespace_hash(n1) == sha256_digest(encode_utf8(n1)).take(16),
        namespace_hash(n2) == sha256_digest(encode_utf8(n2)).take(16),
        decode_utf8(encode_utf8(n1)) == n1,
        n1 != n2 ==> encode_utf8(n1) != encode_utf8(n2),
{
    encode_utf8_decode_utf8(n1);
    encode_utf8_decode_utf8(n2);
}

} // verus!
