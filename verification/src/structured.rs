use vstd::prelude::*;
use vstd::utf8::{encode_utf8, encode_utf8_decode_utf8};

use crate::namespace::{namespace_hash, ns_hash};

verus! {

/// Layout of a structured key: the namespace hash followed by the UTF-8
/// bytes of the user's key.
pub open spec fn structured_key_bytes(ns: Seq<u8>, key: Seq<char>) -> Seq<u8> {
    ns + encode_utf8(key)
}

/// The key under which `key` of `namespace` is stored in the structured
/// family. Values are stored under it as given, byte for byte.
pub fn full_key(namespace: &str, key: &str) -> (full: Vec<u8>)
    ensures
        full@ == structured_key_bytes(namespace_hash(namespace@), key@),
{
    let hash = ns_hash(namespace);
    let bytes = key.as_bytes();
    let mut full: Vec<u8> = Vec::new();
    let mut i: usize = 0;
    while i < 16
        invariant
            i <= 16,
            full@ == hash@.take(i as int),
        decreases 16 - i,
    {
        full.push(hash[i]);
        assert(hash@.take(i + 1) =~= hash@.take(i as int).push(hash@[i as int]));
        i = i + 1;
    }
    assert(hash@.take(16) =~= hash@);
    let n = bytes.len();
    let mut j: usize = 0;
    while j < n
        invariant
            j <= n,
            n == bytes@.len(),
            full@ == hash@ + bytes@.take(j as int),
        decreases n - j,
    {
        full.push(bytes[j]);
        assert(bytes@.take(j + 1) =~= bytes@.take(j as int).push(bytes@[j as int]));
        j = j + 1;
    }
    assert(bytes@.take(n as int) =~= bytes@);
    full
}

/// Namespace isolation of the structured family: two (namespace hash, key)
/// pairs share a stored key exactly when both the hashes and the keys are
/// equal, so a read in one namespace never sees another's value.
pub proof fn structured_keys_isolated(ns1: Seq<u8>, key1: Seq<char>, ns2: Seq<u8>, key2: Seq<char>)
    requires
        ns1.len() == 16,
        ns2.len() == 16,
    ensures
        structured_key_bytes(ns1, key1) == structured_key_bytes(ns2, key2) <==> (ns1 == ns2 && key1
            == key2),
{
    let a = structured_key_bytes(ns1, key1);
    let b = structured_key_bytes(ns2, key2);
    if a == b {
        assert(ns1 =~= a.take(16));
        assert(ns2 =~= b.take(16));
        assert(encode_utf8(key1) =~= a.skip(16));
        assert(encode_utf8(key2) =~= b.skip(16));
        encode_utf8_decode_utf8(key1);
        encode_utf8_decode_utf8(key2);
    }
}

} // verus!
