use agentmem_core::episodic::{
    episode_entry, episode_timestamp, episodic_key, episodic_scan_bounds, Episode,
};
use agentmem_core::{ns_hash, RecentEpisodes};

fn in_range(key: &[u8], bounds: &([u8; 32], [u8; 32])) -> bool {
    key >= &bounds.0[..] && key < &bounds.1[..]
}

#[test]
fn key_layout_is_hash_timestamp_uuid_prefix() {
    let ns = [7u8; 16];
    let uuid: [u8; 16] = [
        1, 2, 3, 4, 5, 6, 7, 8, 9, 10, 11, 12, 13, 14, 15, 16,
    ];
    let key = episodic_key(&ns, 0x0102_0304_0506_0708, &uuid);
    let mut expected = Vec::new();
    expected.extend_from_slice(&ns);
    expected.extend_from_slice(&[1, 2, 3, 4, 5, 6, 7, 8]);
    expected.extend_from_slice(&[1, 2, 3, 4, 5, 6, 7, 8]);
    assert_eq!(key.to_vec(), expected);
}

#[test]
fn timestamp_read_back_from_key() {
    let ns = ns_hash("ns");
    for ts in [0u64, 1, 255, 256, 1_700_000_000_000_000_000, u64::MAX] {
        let key = episodic_key(&ns, ts, &[0xAB; 16]);
        assert_eq!(episode_timestamp(&key), Some(ts));
    }
    assert_eq!(episode_timestamp(&[0u8; 23]), None);
    assert_eq!(episode_timestamp(&[0u8; 24]), Some(0));
}

#[test]
fn scan_bounds_cover_own_namespace_only() {
    let a = ns_hash("a");
    let b = ns_hash("b");
    let bounds_a = episodic_scan_bounds(&a);
    assert_eq!(&bounds_a.0[..16], &a[..]);
    assert_eq!(&bounds_a.0[16..], &[0u8; 16][..]);
    assert_eq!(&bounds_a.1[16..], &[0xFFu8; 16][..]);
    for ts in [0u64, 42, u64::MAX - 1] {
        let own = episodic_key(&a, ts, &[3; 16]);
        let other = episodic_key(&b, ts, &[3; 16]);
        assert!(in_range(&own, &bounds_a));
        assert!(!in_range(&other, &bounds_a));
    }
}

#[test]
fn the_all_ones_key_is_the_excluded_upper_bound() {
    let a = ns_hash("a");
    let bounds = episodic_scan_bounds(&a);
    let key = episodic_key(&a, u64::MAX, &[0xFF; 16]);
    assert_eq!(key, bounds.1);
    assert!(!in_range(&key, &bounds));
}

#[test]
fn earlier_episodes_sort_first() {
    let a = ns_hash("a");
    let earlier = episodic_key(&a, 1_000, &[0xFF; 16]);
    let later = episodic_key(&a, 1_001, &[0x00; 16]);
    assert!(earlier < later);
    let wide = episodic_key(&a, 255, &[0; 16]);
    let next = episodic_key(&a, 256, &[0; 16]);
    assert!(wide < next);
}

#[test]
fn entry_holds_key_and_record() {
    let uuid = [9u8; 16];
    let entry = episode_entry("a", "act1".to_string(), "res1".to_string(), 77, uuid);
    assert_eq!(entry.key, episodic_key(&ns_hash("a"), 77, &uuid));
    assert_eq!(entry.episode.action, "act1");
    assert_eq!(entry.episode.result_summary, "res1");
    assert_eq!(entry.episode.timestamp_ns, 77);
    assert_eq!(entry.episode.action_uuid, uuid);
}

fn episode(i: u64) -> Episode {
    Episode {
        action: format!("act{i}"),
        result_summary: format!("res{i}"),
        timestamp_ns: i,
        action_uuid: [0; 16],
    }
}

#[test]
fn recent_episodes_stop_at_limit() {
    let mut recent = RecentEpisodes::new(10);
    let mut offered = 0;
    for i in 0..100u64 {
        if !recent.wants_more() {
            break;
        }
        offered += 1;
        recent.push(episode(i));
    }
    assert_eq!(offered, 10);
    let eps = recent.into_episodes();
    assert_eq!(eps.len(), 10);
    assert_eq!(eps[0].action, "act0");
    assert_eq!(eps[9].action, "act9");
}

#[test]
fn recent_episodes_take_all_below_limit() {
    let mut recent = RecentEpisodes::new(10);
    assert!(recent.push(episode(1)));
    assert!(recent.push(episode(2)));
    assert!(recent.push(episode(3)));
    let eps = recent.into_episodes();
    let actions: Vec<&str> = eps.iter().map(|e| e.action.as_str()).collect();
    assert_eq!(actions, vec!["act1", "act2", "act3"]);
}

#[test]
fn recent_episodes_with_zero_limit_take_none() {
    let mut recent = RecentEpisodes::new(0);
    assert!(!recent.wants_more());
    assert!(!recent.push(episode(1)));
    assert_eq!(recent.into_episodes().len(), 0);
}
