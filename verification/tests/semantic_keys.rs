use agentmem_core::ns_hash;
use agentmem_core::semantic::{
    counter_key, decode_doc_id, filter_search_results, find_point, index_snapshot_key,
    plan_remember, semantic_record_key,
};

#[test]
fn record_key_is_hash_then_big_endian_id() {
    let ns = ns_hash("a");
    let key = semantic_record_key(&ns, 0x0102_0304);
    assert_eq!(&key[..16], &ns[..]);
    assert_eq!(&key[16..], &[1, 2, 3, 4]);
}

#[test]
fn counter_and_snapshot_keys() {
    let ns = ns_hash("a");
    let key = counter_key(&ns);
    assert_eq!(&key[..16], &ns[..]);
    assert_eq!(&key[16..], b"semantic_next_id");
    assert_eq!(&index_snapshot_key(), b"hnsw_index_snapshot");
}

#[test]
fn doc_id_decoding() {
    assert_eq!(decode_doc_id(&None), 0);
    assert_eq!(decode_doc_id(&Some(vec![0, 0, 1, 0])), 256);
    assert_eq!(decode_doc_id(&Some(vec![0xFF, 0xFF, 0xFF, 0xFE])), 0xFFFF_FFFE);
    assert_eq!(decode_doc_id(&Some(vec![0, 0, 1])), 0);
    assert_eq!(decode_doc_id(&Some(vec![0, 0, 0, 0, 1])), 0);
}

#[test]
fn remembering_hands_out_consecutive_ids() {
    let ns = ns_hash("a");
    let first = plan_remember(&ns, "hello", &None, 5);
    assert_eq!(first.doc_id, 0);
    assert_eq!(first.record.doc_id, 0);
    assert_eq!(first.record.text, "hello");
    assert_eq!(first.record.created_ns, 5);
    assert_eq!(first.record_key, semantic_record_key(&ns, 0));
    assert_eq!(first.counter_key, counter_key(&ns));
    assert_eq!(first.next_counter, [0, 0, 0, 1]);
    let second = plan_remember(&ns, "world", &Some(first.next_counter.to_vec()), 6);
    assert_eq!(second.doc_id, 1);
    assert_eq!(second.next_counter, [0, 0, 0, 2]);
}

#[test]
fn search_keeps_own_namespace_up_to_k() {
    let a = [1u8; 16];
    let b = [2u8; 16];
    let cands = vec![(b, 9), (a, 1), (b, 2), (a, 3), (a, 4)];
    assert_eq!(filter_search_results(&cands, &a, 2), vec![1, 3]);
    assert_eq!(filter_search_results(&cands, &a, 5), vec![1, 3, 4]);
    assert_eq!(filter_search_results(&cands, &b, 5), vec![9, 2]);
    assert_eq!(filter_search_results(&cands, &[3u8; 16], 5), Vec::<u32>::new());
    assert_eq!(filter_search_results(&cands, &a, 0), Vec::<u32>::new());
}

#[test]
fn search_looks_at_no_more_than_the_candidate_window() {
    let a = [1u8; 16];
    let b = [2u8; 16];
    // k = 1 looks at the first 4 * 1 + 16 = 20 candidates.
    let mut cands: Vec<([u8; 16], u32)> = (0..20).map(|i| (b, i)).collect();
    cands.push((a, 99));
    assert_eq!(filter_search_results(&cands, &a, 1), Vec::<u32>::new());
    assert_eq!(filter_search_results(&cands, &a, 2), vec![99]);
}

#[test]
fn find_point_finds_first_match() {
    let a = [1u8; 16];
    let b = [2u8; 16];
    let points = vec![(a, 1), (b, 2), (a, 2), (a, 2)];
    assert_eq!(find_point(&points, &a, 2), Some(2));
    assert_eq!(find_point(&points, &b, 2), Some(1));
    assert_eq!(find_point(&points, &b, 1), None);
}
