use vstd::prelude::*;

use crate::big_endian::{
    be_bytes, be_decode, be_to_nat, lemma_be_bytes_len, lemma_be_round_trip,
    lemma_pow256_values, u32_to_be, write_bytes,
};

verus! {

/// The text of one remembered memory, as kept in the semantic-meta family.
#[derive(Debug)]
pub struct SemanticRecord {
    pub doc_id: u32,
    pub text: String,
    pub created_ns: u64,
}

/// Layout of a semantic-meta key (20 bytes): the namespace hash followed by
/// the document id as 4 big-endian bytes.
pub open spec fn record_key_bytes(ns: Seq<u8>, doc_id: nat) -> Seq<u8> {
    ns + be_bytes(doc_id, 4)
}

/// The ASCII bytes of `semantic_next_id`.
pub open spec fn counter_suffix() -> Seq<u8> {
    seq![115u8, 101, 109, 97, 110, 116, 105, 99, 95, 110, 101, 120, 116, 95, 105, 100]
}

/// Layout of the key of a namespace's next-document-id counter in the
/// default family (32 bytes): the namespace hash, then `semantic_next_id`.
pub open spec fn counter_key_bytes(ns: Seq<u8>) -> Seq<u8> {
    ns + counter_suffix()
}

/// The ASCII bytes of `hnsw_index_snapshot`, the default-family key under
/// which the vector index's points are saved.
pub open spec fn snapshot_key_bytes() -> Seq<u8> {
    seq![104u8, 110, 115, 119, 95, 105, 110, 100, 101, 120, 95, 115, 110, 97, 112, 115, 104, 111, 116]
}

/// The document id that a stored counter value hands out next: the value
/// read as a big-endian number when it is exactly 4 bytes, 0 otherwise
/// (and 0 when no counter is stored yet).
pub open spec fn stored_doc_id(stored: Option<Seq<u8>>) -> nat {
    match stored {
        Some(bytes) => if bytes.len() == 4 {
            be_to_nat(bytes)
        } else {
            0
        },
        None => 0,
    }
}

/// The key of document `doc_id` of namespace hash `ns` in the semantic-meta
/// family.
pub fn semantic_record_key(ns: &[u8; 16], doc_id: u32) -> (key: [u8; 20])
    ensures
        key@ == record_key_bytes(ns@, doc_id as nat),
{
    let id = u32_to_be(doc_id);
    let mut key = [0u8; 20];
    write_bytes(&mut key, 0, ns);
    write_bytes(&mut key, 16, &id);
    assert(key@ =~= record_key_bytes(ns@, doc_id as nat));
    key
}

/// The key of the next-document-id counter of namespace hash `ns`.
pub fn counter_key(ns: &[u8; 16]) -> (key: [u8; 32])
    ensures
        key@ == counter_key_bytes(ns@),
{
    let suffix: [u8; 16] = [115, 101, 109, 97, 110, 116, 105, 99, 95, 110, 101, 120, 116, 95, 105, 100];
    let mut key = [0u8; 32];
    write_bytes(&mut key, 0, ns);
    write_bytes(&mut key, 16, &suffix);
    assert(key@ =~= counter_key_bytes(ns@));
    key
}

/// The key under which the vector index's points are saved.
pub fn index_snapshot_key() -> (key: [u8; 19])
    ensures
        key@ == snapshot_key_bytes(),
{
    let key: [u8; 19] = [104, 110, 115, 119, 95, 105, 110, 100, 101, 120, 95, 115, 110, 97, 112, 115, 104, 111, 116];
    assert(key@ =~= snapshot_key_bytes());
    key
}

/// The document id that a read of the counter hands out.
pub fn decode_doc_id(stored: &Option<Vec<u8>>) -> (doc_id: u32)
    ensures
        doc_id == stored_doc_id(stored.deep_view()),
{
    match stored {
        Some(bytes) => {
            proof {
                assert(bytes.deep_view() =~= bytes@);
            }
            if bytes.len() == 4 {
                let v = be_decode(bytes.as_slice(), 0, 4);
                proof {
                    assert(bytes@.subrange(0, 4) =~= bytes@);
                    lemma_pow256_values();
                }
                v as u32
            } else {
                0
            }
        },
        None => 0,
    }
}

/// The writes that remembering one text makes: the record and its key, and
/// the counter bumped past the id handed out.
pub struct SemanticWrite {
    pub doc_id: u32,
    pub record: SemanticRecord,
    pub record_key: [u8; 20],
    pub counter_key: [u8; 32],
    pub next_counter: [u8; 4],
}

/// Plans the remembering of `text` in namespace hash `ns`, given what the
/// counter read returned and the creation time: the text gets the id that
/// the counter hands out, and the counter moves one past it.
pub fn plan_remember(ns: &[u8; 16], text: &str, stored_counter: &Option<Vec<u8>>, created_ns: u64) -> (w:
    SemanticWrite)
    requires
        stored_doc_id(stored_counter.deep_view()) < u32::MAX,
    ensures
        w.doc_id == stored_doc_id(stored_counter.deep_view()),
        w.record.doc_id == w.doc_id,
        w.record.text@ == text@,
        w.record.created_ns == created_ns,
        w.record_key@ == record_key_bytes(ns@, w.doc_id as nat),
        w.counter_key@ == counter_key_bytes(ns@),
        w.next_counter@ == be_bytes((w.doc_id + 1) as nat, 4),
{
    let doc_id = decode_doc_id(stored_counter);
    let record = SemanticRecord { doc_id, text: text.to_owned(), created_ns };
    let record_key = semantic_record_key(ns, doc_id);
    let counter_key = counter_key(ns);
    let next_counter = u32_to_be(doc_id + 1);
    SemanticWrite { doc_id, record, record_key, counter_key, next_counter }
}

/// Document ids of one namespace are handed out one after another, from 0:
/// a namespace without a counter gets id 0, and the counter written after
/// handing out id `d` hands out `d + 1` next.
pub proof fn doc_ids_consecutive(stored: Option<Seq<u8>>)
    requires
        stored_doc_id(stored) < u32::MAX,
    ensures
        stored_doc_id(None) == 0,
        stored_doc_id(Some(be_bytes(stored_doc_id(stored) + 1, 4))) == stored_doc_id(stored) + 1,
{
    let next = stored_doc_id(stored) + 1;
    lemma_be_bytes_len(next, 4);
    lemma_pow256_values();
    lemma_be_round_trip(next, 4);
}

/// Records of different namespaces, or of different documents, never share
/// a key; nor does any namespace's counter share the index snapshot's key.
pub proof fn semantic_keys_isolated(ns1: Seq<u8>, doc1: u32, ns2: Seq<u8>, doc2: u32)
    requires
        ns1.len() == 16,
        ns2.len() == 16,
    ensures
        record_key_bytes(ns1, doc1 as nat) == record_key_bytes(ns2, doc2 as nat) <==> (ns1 == ns2
            && doc1 == doc2),
        counter_key_bytes(ns1) == counter_key_bytes(ns2) <==> ns1 == ns2,
        counter_key_bytes(ns1) != snapshot_key_bytes(),
{
    let a = record_key_bytes(ns1, doc1 as nat);
    let b = record_key_bytes(ns2, doc2 as nat);
    lemma_be_bytes_len(doc1 as nat, 4);
    lemma_be_bytes_len(doc2 as nat, 4);
    if a == b {
        assert(ns1 =~= a.take(16));
        assert(ns2 =~= b.take(16));
        assert(be_bytes(doc1 as nat, 4) =~= a.skip(16));
        assert(be_bytes(doc2 as nat, 4) =~= b.skip(16));
        lemma_pow256_values();
        lemma_be_round_trip(doc1 as nat, 4);
        lemma_be_round_trip(doc2 as nat, 4);
    }
    if counter_key_bytes(ns1) == counter_key_bytes(ns2) {
        assert(ns1 =~= counter_key_bytes(ns1).take(16));
        assert(ns2 =~= counter_key_bytes(ns2).take(16));
    }
    assert(counter_key_bytes(ns1).len() == 32);
}

/// Whether two namespace hashes are equal.
fn same_namespace(a: &[u8; 16], b: &[u8; 16]) -> (same: bool)
    ensures
        same == (a@ == b@),
{
    let mut i: usize = 0;
    while i < 16
        invariant
            i <= 16,
            forall|j: int| 0 <= j < i ==> a@[j] == b@[j],
        decreases 16 - i,
    {
        if a[i] != b[i] {
            return false;
        }
        i = i + 1;
    }
    assert(a@ =~= b@);
    true
}

/// The document ids, in order, of the candidates that belong to namespace
/// hash `ns`.
pub open spec fn namespace_doc_ids(candidates: Seq<([u8; 16], u32)>, ns: Seq<u8>) -> Seq<u32>
    decreases candidates.len(),
{
    if candidates.len() == 0 {
        Seq::empty()
    } else {
        let rest = namespace_doc_ids(candidates.drop_last(), ns);
        if candidates.last().0@ == ns {
            rest.push(candidates.last().1)
        } else {
            rest
        }
    }
}

/// How many of the nearest candidates a search for `k` results looks at.
pub open spec fn candidate_window(k: nat) -> nat {
    4 * k + 16
}

/// The result of a search for `k` neighbours in namespace hash `ns`, given
/// the candidates nearest first: among the first `4k + 16` candidates, the
/// ids of those of the namespace, at most `k` of them, nearest first.
pub open spec fn search_results(candidates: Seq<([u8; 16], u32)>, ns: Seq<u8>, k: nat) -> Seq<u32> {
    let seen = if candidates.len() < candidate_window(k) {
        candidates.len()
    } else {
        candidate_window(k)
    };
    let ids = namespace_doc_ids(candidates.take(seen as int), ns);
    ids.take(
        if ids.len() < k {
            ids.len() as int
        } else {
            k as int
        },
    )
}

proof fn lemma_namespace_doc_ids_prefix(candidates: Seq<([u8; 16], u32)>, ns: Seq<u8>, i: int, j: int)
    requires
        0 <= i <= j <= candidates.len(),
    ensures
        namespace_doc_ids(candidates.take(i), ns).len() <= namespace_doc_ids(candidates.take(j), ns).len(),
        namespace_doc_ids(candidates.take(i), ns) == namespace_doc_ids(candidates.take(j), ns).take(
            namespace_doc_ids(candidates.take(i), ns).len() as int,
        ),
    decreases j - i,
{
    if i < j {
        lemma_namespace_doc_ids_prefix(candidates, ns, i, j - 1);
        assert(candidates.take(j).drop_last() =~= candidates.take(j - 1));
        let short = namespace_doc_ids(candidates.take(i), ns);
        let mid = namespace_doc_ids(candidates.take(j - 1), ns);
        let long = namespace_doc_ids(candidates.take(j), ns);
        assert(long.take(mid.len() as int) =~= mid);
        assert(long.take(short.len() as int) =~= mid.take(short.len() as int));
    } else {
        let s = namespace_doc_ids(candidates.take(i), ns);
        assert(s.take(s.len() as int) =~= s);
    }
}

/// Some candidate among the first `seen` has namespace hash `ns` and id `id`.
pub open spec fn offered_by_namespace(
    candidates: Seq<([u8; 16], u32)>,
    seen: int,
    ns: Seq<u8>,
    id: u32,
) -> bool {
    exists|j: int|
        0 <= j < seen && j < candidates.len() && (#[trigger] candidates[j]).0@ == ns
            && candidates[j].1 == id
}

proof fn lemma_namespace_doc_ids_sound(candidates: Seq<([u8; 16], u32)>, ns: Seq<u8>)
    ensures
        forall|i: int|
            0 <= i < namespace_doc_ids(candidates, ns).len() ==> offered_by_namespace(
                candidates,
                candidates.len() as int,
                ns,
                #[trigger] namespace_doc_ids(candidates, ns)[i],
            ),
    decreases candidates.len(),
{
    if candidates.len() > 0 {
        let rest = candidates.drop_last();
        lemma_namespace_doc_ids_sound(rest, ns);
        let ids = namespace_doc_ids(candidates, ns);
        let rest_ids = namespace_doc_ids(rest, ns);
        let last = candidates.len() - 1;
        assert(candidates[last] == candidates.last());
        if candidates.last().0@ == ns {
            assert(ids == rest_ids.push(candidates.last().1));
        } else {
            assert(ids == rest_ids);
        }
        assert forall|i: int| 0 <= i < ids.len() implies offered_by_namespace(
            candidates,
            candidates.len() as int,
            ns,
            #[trigger] ids[i],
        ) by {
            if i < rest_ids.len() {
                assert(ids[i] == rest_ids[i]);
                assert(offered_by_namespace(rest, rest.len() as int, ns, rest_ids[i]));
                let j = choose|j: int|
                    0 <= j < rest.len() && j < rest.len() && (#[trigger] rest[j]).0@ == ns && rest[j].1
                        == rest_ids[i];
                assert(candidates[j] == rest[j]);
            } else {
                assert(candidates[last].0@ == ns && candidates[last].1 == ids[i]);
            }
        }
    }
}

proof fn lemma_namespace_doc_ids_complete(candidates: Seq<([u8; 16], u32)>, ns: Seq<u8>)
    ensures
        forall|j: int|
            0 <= j < candidates.len() && (#[trigger] candidates[j]).0@ == ns ==> namespace_doc_ids(
                candidates,
                ns,
            ).contains(candidates[j].1),
    decreases candidates.len(),
{
    if candidates.len() > 0 {
        let rest = candidates.drop_last();
        lemma_namespace_doc_ids_complete(rest, ns);
        let ids = namespace_doc_ids(candidates, ns);
        let rest_ids = namespace_doc_ids(rest, ns);
        let last = candidates.len() - 1;
        assert(candidates[last] == candidates.last());
        if candidates.last().0@ == ns {
            assert(ids == rest_ids.push(candidates.last().1));
        } else {
            assert(ids == rest_ids);
        }
        assert forall|j: int|
            0 <= j < candidates.len() && (#[trigger] candidates[j]).0@ == ns implies ids.contains(
                candidates[j].1,
            ) by {
            if j < last {
                assert(candidates[j] == rest[j]);
                assert(rest_ids.contains(rest[j].1));
                let i = choose|i: int| 0 <= i < rest_ids.len() && rest_ids[i] == rest[j].1;
                assert(ids[i] == rest_ids[i]);
            } else {
                assert(ids[ids.len() - 1] == candidates[j].1);
            }
        }
    }
}

/// What a namespace-restricted search returns, in terms of its inputs: at
/// most `k` ids; each one the id of a candidate among the first `4k + 16`
/// whose full namespace hash is `ns`; and, when fewer than `k` come back,
/// the id of every such candidate. No other tenant's document leaks in.
pub proof fn search_returns_only_own_namespace(
    candidates: Seq<([u8; 16], u32)>,
    ns: Seq<u8>,
    k: nat,
)
    ensures
        search_results(candidates, ns, k).len() <= k,
        forall|i: int|
            0 <= i < search_results(candidates, ns, k).len() ==> offered_by_namespace(
                candidates,
                candidate_window(k) as int,
                ns,
                #[trigger] search_results(candidates, ns, k)[i],
            ),
        search_results(candidates, ns, k).len() < k ==> forall|j: int|
            0 <= j < candidate_window(k) && j < candidates.len() && (#[trigger] candidates[j]).0@
                == ns ==> search_results(candidates, ns, k).contains(candidates[j].1),
{
    let seen = if candidates.len() < candidate_window(k) {
        candidates.len() as int
    } else {
        candidate_window(k) as int
    };
    let window = candidates.take(seen);
    let ids = namespace_doc_ids(window, ns);
    let r = search_results(candidates, ns, k);
    lemma_namespace_doc_ids_sound(window, ns);
    lemma_namespace_doc_ids_complete(window, ns);
    assert(r.len() <= k);
    assert forall|i: int| 0 <= i < r.len() implies offered_by_namespace(
        candidates,
        candidate_window(k) as int,
        ns,
        #[trigger] r[i],
    ) by {
        assert(r[i] == ids[i]);
        assert(offered_by_namespace(window, window.len() as int, ns, ids[i]));
        let j = choose|j: int|
            0 <= j < window.len() && j < window.len() && (#[trigger] window[j]).0@ == ns && window[j].1
                == ids[i];
        assert(candidates[j] == window[j]);
    }
    if r.len() < k {
        assert(r =~= ids);
        assert forall|j: int|
            0 <= j < candidate_window(k) && j < candidates.len() && (#[trigger] candidates[j]).0@
                == ns implies r.contains(candidates[j].1) by {
            assert(candidates[j] == window[j]);
            assert(ids.contains(window[j].1));
        }
    }
}

/// Keeps, from the candidates of a nearest-neighbour search (nearest
/// first, each with its namespace hash), the ids of at most `k` that belong
/// to namespace hash `ns`, looking at no more than the first `4k + 16`.
pub fn filter_search_results(candidates: &Vec<([u8; 16], u32)>, ns: &[u8; 16], k: usize) -> (doc_ids:
    Vec<u32>)
    requires
        k <= (usize::MAX - 16) / 4,
    ensures
        doc_ids@ == search_results(candidates@, ns@, k as nat),
        doc_ids@.len() <= k,
        forall|i: int|
            0 <= i < doc_ids@.len() ==> offered_by_namespace(
                candidates@,
                candidate_window(k as nat) as int,
                ns@,
                #[trigger] doc_ids@[i],
            ),
{
    let window = k * 4 + 16;
    let n = if candidates.len() < window {
        candidates.len()
    } else {
        window
    };
    let mut out: Vec<u32> = Vec::new();
    let mut i: usize = 0;
    proof {
        assert(candidates@.take(0) =~= Seq::<([u8; 16], u32)>::empty());
    }
    while i < n && out.len() < k
        invariant
            i <= n,
            n <= candidates@.len(),
            out@ == namespace_doc_ids(candidates@.take(i as int), ns@),
            out@.len() <= k,
        decreases n - i,
    {
        let c = &candidates[i];
        proof {
            assert(candidates@.take(i + 1).drop_last() =~= candidates@.take(i as int));
        }
        if same_namespace(&c.0, ns) {
            out.push(c.1);
        }
        i = i + 1;
    }
    proof {
        search_returns_only_own_namespace(candidates@, ns@, k as nat);
        lemma_namespace_doc_ids_prefix(candidates@, ns@, i as int, n as int);
        let ids = namespace_doc_ids(candidates@.take(n as int), ns@);
        if out@.len() < k {
            assert(out@ =~= ids);
            assert(ids.take(ids.len() as int) =~= ids);
        }
    }
    out
}

/// Whether a point of the index is document `doc_id` of namespace hash `ns`.
pub open spec fn is_point(point: ([u8; 16], u32), ns: Seq<u8>, doc_id: u32) -> bool {
    point.0@ == ns && point.1 == doc_id
}

/// Finds the first of the index's points (each a namespace hash and a
/// document id) that is document `doc_id` of namespace hash `ns`.
pub fn find_point(points: &Vec<([u8; 16], u32)>, ns: &[u8; 16], doc_id: u32) -> (found: Option<usize>)
    ensures
        match found {
            Some(i) => i < points@.len() && is_point(points@[i as int], ns@, doc_id) && forall|j: int|
                0 <= j < i ==> !is_point(#[trigger] points@[j], ns@, doc_id),
            None => forall|j: int| 0 <= j < points@.len() ==> !is_point(#[trigger] points@[j], ns@, doc_id),
        },
{
    let n = points.len();
    let mut i: usize = 0;
    while i < n
        invariant
            i <= n,
            n == points@.len(),
            forall|j: int| 0 <= j < i ==> !is_point(#[trigger] points@[j], ns@, doc_id),
        decreases n - i,
    {
        let p = &points[i];
        if p.1 == doc_id && same_namespace(&p.0, ns) {
            return Some(i);
        }
        i = i + 1;
    }
    None
}

} // verus!
