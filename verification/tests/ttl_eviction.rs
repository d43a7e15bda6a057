use std::time::Duration;

use agentmem_core::episodic::{episode_entry, episodic_key};
use agentmem_core::ttl::{
    cutoff_from_age, eviction_cutoff, is_expired, select_expired, EVICTION_BATCH_CAP,
};
use agentmem_core::{ns_hash, EvictionBatch, TtlConfig};

#[test]
fn old_keys_selected_new_keys_kept() {
    let now_ns: u64 = 1_700_000_000_000_000_000;
    let old_ns = now_ns - 2 * 3_600_000_000_000_u64;
    let new_ns = now_ns - 30 * 60_000_000_000_u64;
    let mut keys = Vec::new();
    for i in 0..3_u64 {
        let e = episode_entry("ns", format!("old{i}"), String::new(), old_ns + i, [i as u8; 16]);
        keys.push(e.key.to_vec());
    }
    for i in 0..2_u64 {
        let e = episode_entry("ns", format!("new{i}"), String::new(), new_ns + i, [i as u8; 16]);
        keys.push(e.key.to_vec());
    }
    let cutoff_ns = now_ns - 3_600_000_000_000_u64;
    let evicted = select_expired(&keys, cutoff_ns);
    assert_eq!(evicted.len(), 3, "three old episodes should have been evicted");
    assert_eq!(evicted, keys[..3].to_vec());
    let remaining = keys.iter().filter(|k| !evicted.contains(k)).count();
    assert_eq!(remaining, 2, "two new episodes should remain");
}

#[test]
fn expiry_is_strictly_before_cutoff() {
    let ns = ns_hash("a");
    let key = episodic_key(&ns, 100, &[0; 16]);
    assert!(is_expired(&key, 101));
    assert!(!is_expired(&key, 100));
    assert!(!is_expired(&key, 99));
    assert!(!is_expired(&[0u8; 10], u64::MAX));
}

#[test]
fn one_pass_deletes_at_most_the_cap() {
    let ns = ns_hash("a");
    let keys: Vec<Vec<u8>> = (0..(EVICTION_BATCH_CAP as u64 + 5))
        .map(|i| episodic_key(&ns, i, &[0; 16]).to_vec())
        .collect();
    let evicted = select_expired(&keys, u64::MAX);
    assert_eq!(evicted.len(), EVICTION_BATCH_CAP);
    assert_eq!(evicted[..], keys[..EVICTION_BATCH_CAP]);
}

#[test]
fn batch_skips_fresh_and_malformed_keys() {
    let ns = ns_hash("a");
    let mut batch = EvictionBatch::new(50);
    assert!(batch.offer(episodic_key(&ns, 10, &[0; 16]).to_vec()));
    assert!(batch.offer(episodic_key(&ns, 60, &[0; 16]).to_vec()));
    assert!(batch.offer(vec![0u8; 5]));
    assert_eq!(batch.len(), 1);
    let keys = batch.into_keys();
    assert_eq!(keys, vec![episodic_key(&ns, 10, &[0; 16]).to_vec()]);
}

#[test]
fn cutoff_arithmetic() {
    assert_eq!(cutoff_from_age(100, 30), 70);
    assert_eq!(cutoff_from_age(10, 30), 0);
    assert_eq!(cutoff_from_age(10, (1u128 << 64) + 3), 7);
    let config = TtlConfig {
        episodic_max_age: Duration::from_secs(3600),
        scan_interval: Duration::from_secs(60),
    };
    assert_eq!(eviction_cutoff(7_200_000_000_000, &config), 3_600_000_000_000);
    assert_eq!(eviction_cutoff(5, &config), 0);
}
