use vstd::prelude::*;

use crate::big_endian::{
    be_bytes, be_decode, be_to_nat, lemma_be_bytes_len, lemma_be_order, lemma_be_round_trip,
    lemma_pow256_values, u64_to_be, write_bytes,
};
use crate::namespace::{namespace_hash, ns_hash};
use crate::order::{
    bytewise_less, in_key_range, lemma_first_difference, lemma_greater_at_not_less,
    lemma_less_under_context, less_at,
};

verus! {

/// One logged action of an agent, as kept in the episodic family.
#[derive(Debug)]
pub struct Episode {
    pub action: String,
    pub result_summary: String,
    pub timestamp_ns: u64,
    pub action_uuid: [u8; 16],
}

/// Layout of an episodic key (32 bytes): the namespace hash, the timestamp
/// as 8 big-endian bytes, then the first 8 bytes of the action's UUID.
pub open spec fn episodic_key_bytes(ns: Seq<u8>, ts_ns: nat, action_uuid: Seq<u8>) -> Seq<u8> {
    ns + be_bytes(ts_ns, 8) + action_uuid.take(8)
}

/// Inclusive lower bound of a namespace's episodic keys: its hash followed
/// by 16 zero bytes.
pub open spec fn scan_lower_bound(ns: Seq<u8>) -> Seq<u8> {
    ns + Seq::new(16, |i: int| 0u8)
}

/// Exclusive upper bound of a namespace's episodic keys: its hash followed
/// by 16 bytes of `0xFF`.
pub open spec fn scan_upper_bound(ns: Seq<u8>) -> Seq<u8> {
    ns + Seq::new(16, |i: int| 0xFFu8)
}

/// The timestamp that an episodic key carries in bytes 16..24, if it is
/// long enough to carry one.
pub open spec fn key_timestamp(key: Seq<u8>) -> Option<nat> {
    if key.len() >= 24 {
        Some(be_to_nat(key.subrange(16, 24)))
    } else {
        None
    }
}

/// Builds the key under which an episode of namespace hash `ns`, logged at
/// `ts_ns`, is stored.
pub fn episodic_key(ns: &[u8; 16], ts_ns: u64, action_uuid: &[u8; 16]) -> (key: [u8; 32])
    ensures
        key@ == episodic_key_bytes(ns@, ts_ns as nat, action_uuid@),
{
    let ts = u64_to_be(ts_ns);
    let mut key = [0u8; 32];
    write_bytes(&mut key, 0, ns);
    write_bytes(&mut key, 16, &ts);
    let uuid_prefix: [u8; 8] = [
        action_uuid[0],
        action_uuid[1],
        action_uuid[2],
        action_uuid[3],
        action_uuid[4],
        action_uuid[5],
        action_uuid[6],
        action_uuid[7],
    ];
    write_bytes(&mut key, 24, &uuid_prefix);
    assert(uuid_prefix@ =~= action_uuid@.take(8));
    assert(key@ =~= episodic_key_bytes(ns@, ts_ns as nat, action_uuid@));
    key
}

/// The bounds of a scan over exactly one namespace's episodes: lower bound
/// inclusive, upper bound exclusive.
pub fn episodic_scan_bounds(ns: &[u8; 16]) -> (bounds: ([u8; 32], [u8; 32]))
    ensures
        bounds.0@ == scan_lower_bound(ns@),
        bounds.1@ == scan_upper_bound(ns@),
{
    let mut lower = [0u8; 32];
    write_bytes(&mut lower, 0, ns);
    let mut upper = [0xFFu8; 32];
    write_bytes(&mut upper, 0, ns);
    assert(lower@ =~= scan_lower_bound(ns@));
    assert(upper@ =~= scan_upper_bound(ns@));
    (lower, upper)
}

/// Reads the timestamp out of an episodic key; `None` for a key shorter
/// than 24 bytes.
pub fn episode_timestamp(key: &[u8]) -> (ts: Option<u64>)
    ensures
        ts is Some <==> key_timestamp(key@) is Some,
        ts matches Some(t) ==> key_timestamp(key@) == Some(t as nat),
{
    if key.len() >= 24 {
        Some(be_decode(key, 16, 8))
    } else {
        None
    }
}

/// An episode together with the key it is stored under.
pub struct EpisodeEntry {
    pub key: [u8; 32],
    pub episode: Episode,
}

/// Prepares the write of one episode: the key in the namespace's range and
/// the record, for an action logged at `ts_ns` with id `action_uuid`.
pub fn episode_entry(
    namespace: &str,
    action: String,
    result_summary: String,
    ts_ns: u64,
    action_uuid: [u8; 16],
) -> (entry: EpisodeEntry)
    ensures
        entry.key@ == episodic_key_bytes(namespace_hash(namespace@), ts_ns as nat, action_uuid@),
        entry.episode == (Episode { action, result_summary, timestamp_ns: ts_ns, action_uuid }),
{
    let ns = ns_hash(namespace);
    let key = episodic_key(&ns, ts_ns, &action_uuid);
    EpisodeEntry { key, episode: Episode { action, result_summary, timestamp_ns: ts_ns, action_uuid } }
}

/// The episodes gathered by a newest-first scan, never more than `limit`.
pub struct RecentEpisodes {
    limit: usize,
    episodes: Vec<Episode>,
}

impl View for RecentEpisodes {
    type V = Seq<Episode>;

    closed spec fn view(&self) -> Seq<Episode> {
        self.episodes@
    }
}

impl RecentEpisodes {
    #[verifier::type_invariant]
    spec fn within_limit(self) -> bool {
        self.episodes@.len() <= self.limit
    }

    /// How many episodes the scan may gather.
    pub closed spec fn spec_limit(self) -> nat {
        self.limit as nat
    }

    /// An empty gathering that will take at most `limit` episodes.
    pub fn new(limit: usize) -> (r: Self)
        ensures
            r@ == Seq::<Episode>::empty(),
            r.spec_limit() == limit,
    {
        RecentEpisodes { limit, episodes: Vec::new() }
    }

    /// Whether the scan should read another episode.
    pub fn wants_more(&self) -> (more: bool)
        ensures
            more == (self@.len() < self.spec_limit()),
    {
        self.episodes.len() < self.limit
    }

    /// Takes the next episode of the scan if the limit leaves room for it,
    /// and tells whether there is room for more after it.
    pub fn push(&mut self, episode: Episode) -> (more: bool)
        ensures
            final(self).spec_limit() == old(self).spec_limit(),
            old(self)@.len() < old(self).spec_limit() ==> final(self)@ == old(self)@.push(episode),
            old(self)@.len() >= old(self).spec_limit() ==> final(self)@ == old(self)@,
            final(self)@.len() <= final(self).spec_limit(),
            more == (final(self)@.len() < final(self).spec_limit()),
    {
        proof {
            use_type_invariant(&*self);
        }
        if self.episodes.len() < self.limit {
            let mut gathered = Vec::new();
            std::mem::swap(&mut gathered, &mut self.episodes);
            gathered.push(episode);
            self.episodes = gathered;
        }
        self.episodes.len() < self.limit
    }

    /// The gathered episodes, newest first.
    pub fn into_episodes(self) -> (episodes: Vec<Episode>)
        ensures
            episodes@ == self@,
            episodes@.len() <= self.spec_limit(),
    {
        proof {
            use_type_invariant(&self);
        }
        self.episodes
    }
}

/// Namespace isolation of the episodic family: the key of an episode logged
/// under one namespace hash never falls inside the scan bounds of another,
/// so a scan of one namespace reads none of another's episodes.
pub proof fn episodes_of_other_namespaces_not_scanned(
    own: Seq<u8>,
    other: Seq<u8>,
    ts_ns: u64,
    action_uuid: Seq<u8>,
)
    requires
        own.len() == 16,
        other.len() == 16,
        own != other,
        action_uuid.len() == 16,
    ensures
        !in_key_range(
            episodic_key_bytes(own, ts_ns as nat, action_uuid),
            scan_lower_bound(other),
            scan_upper_bound(other),
        ),
{
    let key = episodic_key_bytes(own, ts_ns as nat, action_uuid);
    let lower = scan_lower_bound(other);
    let upper = scan_upper_bound(other);
    lemma_be_bytes_len(ts_ns as nat, 8);
    assert(own.take(0) =~= other.take(0));
    let i = lemma_first_difference(own, other, 0);
    assert(key.take(i) =~= own.take(i));
    assert(lower.take(i) =~= other.take(i));
    assert(upper.take(i) =~= other.take(i));
    assert(key[i] == own[i] && lower[i] == other[i] && upper[i] == other[i]);
    if own[i] < other[i] {
        assert(less_at(key, lower, i));
    } else {
        lemma_greater_at_not_less(key, upper, i);
    }
}

/// The spelled-out largest 8-byte big-endian number.
proof fn lemma_max_u64_bytes()
    ensures
        be_bytes(0xFFFF_FFFF_FFFF_FFFFnat, 8) =~= Seq::new(8, |i: int| 0xFFu8),
{
    reveal_with_fuel(be_bytes, 9);
}

/// Every episode of a namespace falls inside that namespace's scan bounds,
/// save one key: the one at the largest timestamp whose UUID starts with
/// eight `0xFF` bytes, which equals the exclusive upper bound.
pub proof fn own_episodes_scanned(ns: Seq<u8>, ts_ns: u64, action_uuid: Seq<u8>)
    requires
        ns.len() == 16,
        action_uuid.len() == 16,
        !(ts_ns == u64::MAX && action_uuid.take(8) == Seq::new(8, |i: int| 0xFFu8)),
    ensures
        in_key_range(
            episodic_key_bytes(ns, ts_ns as nat, action_uuid),
            scan_lower_bound(ns),
            scan_upper_bound(ns),
        ),
{
    let key = episodic_key_bytes(ns, ts_ns as nat, action_uuid);
    let lower = scan_lower_bound(ns);
    let upper = scan_upper_bound(ns);
    lemma_be_bytes_len(ts_ns as nat, 8);
    assert(key.take(16) =~= ns);
    assert(lower.take(16) =~= ns);
    assert(upper.take(16) =~= ns);
    // Not below the lower bound.
    if key != lower {
        let i = lemma_first_difference(key, lower, 16);
        assert(lower[i] == 0);
        lemma_greater_at_not_less(key, lower, i);
    } else {
        assert forall|j: int| !#[trigger] less_at(key, lower, j) by {}
    }
    // Below the upper bound.
    if key == upper {
        let ts_bytes = be_bytes(ts_ns as nat, 8);
        assert(ts_bytes =~= key.subrange(16, 24));
        assert(ts_bytes =~= Seq::new(8, |i: int| 0xFFu8));
        lemma_max_u64_bytes();
        lemma_pow256_values();
        lemma_be_round_trip(ts_ns as nat, 8);
        lemma_be_round_trip(0xFFFF_FFFF_FFFF_FFFFnat, 8);
        assert(ts_bytes == be_bytes(0xFFFF_FFFF_FFFF_FFFFnat, 8));
        assert(ts_ns == u64::MAX);
        assert(action_uuid.take(8) =~= key.subrange(24, 32));
        assert(key.subrange(24, 32) =~= Seq::new(8, |i: int| 0xFFu8));
        assert(false);
    }
    let i = lemma_first_difference(key, upper, 16);
    assert(upper[i] == 0xFF);
    assert(less_at(key, upper, i));
}

/// Within one namespace, an earlier episode's key comes first in the
/// store's bytewise order, so a scan from the end yields the newest first.
pub proof fn episodes_ordered_by_time(
    ns: Seq<u8>,
    earlier_ns: u64,
    earlier_uuid: Seq<u8>,
    later_ns: u64,
    later_uuid: Seq<u8>,
)
    requires
        ns.len() == 16,
        earlier_uuid.len() == 16,
        later_uuid.len() == 16,
        earlier_ns < later_ns,
    ensures
        bytewise_less(
            episodic_key_bytes(ns, earlier_ns as nat, earlier_uuid),
            episodic_key_bytes(ns, later_ns as nat, later_uuid),
        ),
{
    let x = be_bytes(earlier_ns as nat, 8);
    let y = be_bytes(later_ns as nat, 8);
    lemma_be_bytes_len(earlier_ns as nat, 8);
    lemma_be_bytes_len(later_ns as nat, 8);
    lemma_pow256_values();
    lemma_be_round_trip(earlier_ns as nat, 8);
    lemma_be_round_trip(later_ns as nat, 8);
    lemma_be_order(x, y);
    let i = choose|i: int| 0 <= i < x.len() && x.take(i) == y.take(i) && x[i] < y[i];
    assert(less_at(x, y, i));
    lemma_less_under_context(ns, x, earlier_uuid.take(8), y, later_uuid.take(8), i);
}

/// The timestamp read back from an episode's key is the one it was logged
/// with: what eviction reads is what logging wrote.
pub proof fn logged_timestamp_read_back(ns: Seq<u8>, ts_ns: u64, action_uuid: Seq<u8>)
    requires
        ns.len() == 16,
        action_uuid.len() == 16,
    ensures
        key_timestamp(episodic_key_bytes(ns, ts_ns as nat, action_uuid)) == Some(ts_ns as nat),
{
    let key = episodic_key_bytes(ns, ts_ns as nat, action_uuid);
    lemma_be_bytes_len(ts_ns as nat, 8);
    assert(key.subrange(16, 24) =~= be_bytes(ts_ns as nat, 8));
    lemma_pow256_values();
    lemma_be_round_trip(ts_ns as nat, 8);
}

} // verus!
