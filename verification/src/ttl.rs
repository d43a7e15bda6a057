use std::time::Duration;
use vstd::prelude::*;

use crate::episodic::{episode_timestamp, episodic_key_bytes, key_timestamp, logged_timestamp_read_back};

verus! {

/// When eviction deletes episodes and how often it looks for them.
pub struct TtlConfig {
    pub episodic_max_age: Duration,
    pub scan_interval: Duration,
}

/// The most keys that one eviction pass deletes.
pub const EVICTION_BATCH_CAP: usize = 10_000;

/// The total number of whole nanoseconds that a duration spans.
pub uninterp spec fn duration_nanos(d: Duration) -> u128;

/// Calls `std::time::Duration::as_nanos`. Claimed: the result is the named
/// nanosecond count of `d`, which depends on `d` alone.
#[verifier::external_body]
fn duration_as_nanos(d: &Duration) -> (n: u128)
    ensures
        n == duration_nanos(*d),
{
    d.as_nanos()
}

/// The eviction cutoff for an age limit of `max_age_ns` at time `now_ns`:
/// the age is cut to its low 64 bits, and the difference stops at 0.
pub open spec fn cutoff_for_age(now_ns: u64, max_age_ns: u128) -> u64 {
    let age = (max_age_ns % 0x1_0000_0000_0000_0000) as u64;
    if age > now_ns {
        0
    } else {
        (now_ns - age) as u64
    }
}

/// The timestamp before which episodes count as expired, for an age limit
/// of `max_age_ns` nanoseconds at time `now_ns`.
pub fn cutoff_from_age(now_ns: u64, max_age_ns: u128) -> (cutoff: u64)
    ensures
        cutoff == cutoff_for_age(now_ns, max_age_ns),
{
    assert((max_age_ns as u64) == (max_age_ns % 0x1_0000_0000_0000_0000) as u64) by (bit_vector);
    let age = max_age_ns as u64;
    now_ns.saturating_sub(age)
}

/// The timestamp before which episodes count as expired under `config` at
/// time `now_ns`: `now_ns` less the maximum age, floored at 0. It never lies
/// after `now_ns`.
pub fn eviction_cutoff(now_ns: u64, config: &TtlConfig) -> (cutoff: u64)
    ensures
        cutoff == cutoff_for_age(now_ns, duration_nanos(config.episodic_max_age)),
        cutoff <= now_ns,
{
    let age = duration_as_nanos(&config.episodic_max_age);
    cutoff_from_age(now_ns, age)
}

/// An episodic key is expired when it carries a timestamp before the cutoff.
pub open spec fn key_expired(key: Seq<u8>, cutoff_ns: u64) -> bool {
    match key_timestamp(key) {
        Some(ts) => ts < cutoff_ns,
        None => false,
    }
}

/// Whether the episode stored under `key` is expired.
pub fn is_expired(key: &[u8], cutoff_ns: u64) -> (expired: bool)
    ensures
        expired == key_expired(key@, cutoff_ns),
{
    match episode_timestamp(key) {
        Some(ts) => ts < cutoff_ns,
        None => false,
    }
}

/// The keys that one eviction pass deletes, gathered while scanning: only
/// expired ones, and no more than `EVICTION_BATCH_CAP`.
pub struct EvictionBatch {
    cutoff_ns: u64,
    keys: Vec<Vec<u8>>,
}

impl View for EvictionBatch {
    type V = Seq<Seq<u8>>;

    closed spec fn view(&self) -> Seq<Seq<u8>> {
        self.keys.deep_view()
    }
}

impl EvictionBatch {
    #[verifier::type_invariant]
    spec fn only_expired(self) -> bool {
        &&& self.keys@.len() <= EVICTION_BATCH_CAP
        &&& forall|i: int|
            0 <= i < self.keys@.len() ==> key_expired(#[trigger] self.keys@[i]@, self.cutoff_ns)
    }

    /// The cutoff this pass evicts by.
    pub closed spec fn spec_cutoff(self) -> u64 {
        self.cutoff_ns
    }

    /// An empty pass evicting what is older than `cutoff_ns`.
    pub fn new(cutoff_ns: u64) -> (batch: Self)
        ensures
            batch@ == Seq::<Seq<u8>>::empty(),
            batch.spec_cutoff() == cutoff_ns,
    {
        let batch = EvictionBatch { cutoff_ns, keys: Vec::new() };
        assert(batch@ =~= Seq::<Seq<u8>>::empty());
        batch
    }

    /// Offers the next scanned key: it joins the batch if it is expired and
    /// the batch is not full. Tells whether the scan should go on.
    pub fn offer(&mut self, key: Vec<u8>) -> (more: bool)
        ensures
            final(self).spec_cutoff() == old(self).spec_cutoff(),
            (old(self)@.len() < EVICTION_BATCH_CAP && key_expired(key@, old(self).spec_cutoff()))
                ==> final(self)@ == old(self)@.push(key@),
            !(old(self)@.len() < EVICTION_BATCH_CAP && key_expired(key@, old(self).spec_cutoff()))
                ==> final(self)@ == old(self)@,
            more == (final(self)@.len() < EVICTION_BATCH_CAP),
    {
        proof {
            use_type_invariant(&*self);
        }
        let ghost before = self.keys;
        if self.keys.len() < EVICTION_BATCH_CAP && is_expired(key.as_slice(), self.cutoff_ns) {
            let mut gathered = Vec::new();
            std::mem::swap(&mut gathered, &mut self.keys);
            proof {
                assert(key.deep_view() =~= key@);
            }
            let ghost pushed = key@;
            gathered.push(key);
            assert(gathered.deep_view() =~= before.deep_view().push(pushed));
            self.keys = gathered;
        }
        self.keys.len() < EVICTION_BATCH_CAP
    }

    /// How many keys the pass deletes so far.
    pub fn len(&self) -> (n: usize)
        ensures
            n == self@.len(),
    {
        self.keys.len()
    }

    /// The keys to delete, in scan order; all expired, at most
    /// `EVICTION_BATCH_CAP` of them.
    pub fn into_keys(self) -> (keys: Vec<Vec<u8>>)
        ensures
            keys.deep_view() == self@,
            keys@.len() <= EVICTION_BATCH_CAP,
            forall|i: int| 0 <= i < keys@.len() ==> key_expired(#[trigger] keys@[i]@, self.spec_cutoff()),
    {
        proof {
            use_type_invariant(&self);
        }
        self.keys
    }
}

/// The expired keys among `keys`, in order.
pub open spec fn expired_keys(keys: Seq<Seq<u8>>, cutoff_ns: u64) -> Seq<Seq<u8>> {
    keys.filter(|k: Seq<u8>| key_expired(k, cutoff_ns))
}

/// What one eviction pass over `keys` deletes: the first
/// `EVICTION_BATCH_CAP` expired keys in scan order.
pub open spec fn eviction_selection(keys: Seq<Seq<u8>>, cutoff_ns: u64) -> Seq<Seq<u8>> {
    let expired = expired_keys(keys, cutoff_ns);
    expired.take(
        if expired.len() < EVICTION_BATCH_CAP {
            expired.len() as int
        } else {
            EVICTION_BATCH_CAP as int
        },
    )
}

/// One step of an eviction pass, in terms of the keys scanned: a pass over
/// nothing deletes nothing, and scanning one more key adds it to what is
/// deleted exactly when it is expired and fewer than `EVICTION_BATCH_CAP`
/// keys are chosen so far. Fresh keys on the way never stop the pass, and
/// the last key scanned is judged like every other.
pub proof fn eviction_pass_step(keys: Seq<Seq<u8>>, key: Seq<u8>, cutoff_ns: u64)
    ensures
        eviction_selection(Seq::empty(), cutoff_ns) == Seq::<Seq<u8>>::empty(),
        eviction_selection(keys.push(key), cutoff_ns) == if eviction_selection(keys, cutoff_ns).len()
            < EVICTION_BATCH_CAP && key_expired(key, cutoff_ns) {
            eviction_selection(keys, cutoff_ns).push(key)
        } else {
            eviction_selection(keys, cutoff_ns)
        },
{
    let pred = |k: Seq<u8>| key_expired(k, cutoff_ns);
    reveal(Seq::filter);
    assert(Seq::<Seq<u8>>::empty().filter(pred) =~= Seq::<Seq<u8>>::empty());
    let before = keys.filter(pred);
    keys.lemma_filter_push(key, pred);
    let after = keys.push(key).filter(pred);
    let sel = eviction_selection(keys, cutoff_ns);
    if before.len() < EVICTION_BATCH_CAP {
        assert(sel =~= before);
    } else {
        assert(sel =~= before.take(EVICTION_BATCH_CAP as int));
    }
    if pred(key) {
        assert(after == before.push(key));
        if before.len() < EVICTION_BATCH_CAP {
            assert(eviction_selection(keys.push(key), cutoff_ns) =~= before.push(key));
        } else {
            assert(eviction_selection(keys.push(key), cutoff_ns) =~= before.take(
                EVICTION_BATCH_CAP as int,
            ));
        }
    } else {
        assert(after == before);
    }
}

/// What one eviction pass deletes, in terms of the keys scanned: at most
/// `EVICTION_BATCH_CAP` keys, each an expired key of the scan; and, when
/// the pass is not full, every expired key of the scan.
pub proof fn eviction_selects_expired_keys(keys: Seq<Seq<u8>>, cutoff_ns: u64)
    ensures
        eviction_selection(keys, cutoff_ns).len() <= EVICTION_BATCH_CAP,
        forall|i: int|
            0 <= i < eviction_selection(keys, cutoff_ns).len() ==> key_expired(
                #[trigger] eviction_selection(keys, cutoff_ns)[i],
                cutoff_ns,
            ) && keys.contains(eviction_selection(keys, cutoff_ns)[i]),
        eviction_selection(keys, cutoff_ns).len() < EVICTION_BATCH_CAP ==> forall|j: int|
            0 <= j < keys.len() && key_expired(#[trigger] keys[j], cutoff_ns) ==> eviction_selection(
                keys,
                cutoff_ns,
            ).contains(keys[j]),
{
    let pred = |k: Seq<u8>| key_expired(k, cutoff_ns);
    let all = keys.filter(pred);
    let sel = eviction_selection(keys, cutoff_ns);
    assert(expired_keys(keys, cutoff_ns) == all);
    assert forall|i: int| 0 <= i < sel.len() implies key_expired(#[trigger] sel[i], cutoff_ns)
        && keys.contains(sel[i]) by {
        assert(sel[i] == all[i]);
        keys.lemma_filter_pred(pred, i);
        assert(all.contains(all[i]));
        keys.lemma_filter_contains_rev(pred, all[i]);
    }
    if sel.len() < EVICTION_BATCH_CAP {
        assert(sel =~= all);
        assert forall|j: int| 0 <= j < keys.len() && key_expired(#[trigger] keys[j], cutoff_ns)
            implies sel.contains(keys[j]) by {
            keys.lemma_filter_contains(pred, j);
        }
    }
}

fn copy_key(key: &Vec<u8>) -> (copy: Vec<u8>)
    ensures
        copy@ == key@,
{
    let mut copy: Vec<u8> = Vec::new();
    let n = key.len();
    let mut i: usize = 0;
    while i < n
        invariant
            i <= n,
            n == key@.len(),
            copy@ == key@.take(i as int),
        decreases n - i,
    {
        copy.push(key[i]);
        assert(key@.take(i + 1) =~= key@.take(i as int).push(key@[i as int]));
        i = i + 1;
    }
    assert(key@.take(n as int) =~= key@);
    copy
}

/// Runs one eviction pass over the scanned `keys` and returns what it
/// deletes.
pub fn select_expired(keys: &Vec<Vec<u8>>, cutoff_ns: u64) -> (selected: Vec<Vec<u8>>)
    ensures
        selected.deep_view() == eviction_selection(keys.deep_view(), cutoff_ns),
        selected@.len() <= EVICTION_BATCH_CAP,
        forall|i: int|
            0 <= i < selected@.len() ==> key_expired(#[trigger] selected@[i]@, cutoff_ns)
                && keys.deep_view().contains(selected@[i]@),
        selected@.len() < EVICTION_BATCH_CAP ==> forall|j: int|
            0 <= j < keys@.len() && key_expired(#[trigger] keys@[j]@, cutoff_ns)
                ==> selected.deep_view().contains(keys@[j]@),
{
    let ghost all = keys.deep_view();
    let ghost pred = |k: Seq<u8>| key_expired(k, cutoff_ns);
    let mut batch = EvictionBatch::new(cutoff_ns);
    let n = keys.len();
    let mut i: usize = 0;
    let mut more = true;
    proof {
        assert(all.take(0) =~= Seq::<Seq<u8>>::empty());
        reveal(Seq::filter);
        assert(all.take(0).filter(pred) =~= Seq::<Seq<u8>>::empty());
    }
    while i < n && more
        invariant
            i <= n,
            n == keys@.len(),
            all == keys.deep_view(),
            all.len() == n,
            pred == (|k: Seq<u8>| key_expired(k, cutoff_ns)),
            batch.spec_cutoff() == cutoff_ns,
            batch@ == all.take(i as int).filter(pred),
            more == (batch@.len() < EVICTION_BATCH_CAP),
        decreases n - i,
    {
        let key = copy_key(&keys[i]);
        proof {
            assert(all[i as int] == keys@[i as int]@);
            assert(all.take(i + 1) =~= all.take(i as int).push(all[i as int]));
            all.take(i as int).lemma_filter_push(all[i as int], pred);
            all.take(i as int).filter(pred).lemma_filter_len(pred);
        }
        more = batch.offer(key);
        i = i + 1;
    }
    proof {
        use_type_invariant(&batch);
        let upto = all.take(i as int).filter(pred);
        let rest = all.subrange(i as int, n as int).filter(pred);
        assert(all =~= all.take(i as int) + all.subrange(i as int, n as int));
        Seq::filter_distributes_over_add(all.take(i as int), all.subrange(i as int, n as int), pred);
        assert(expired_keys(all, cutoff_ns) == all.filter(pred));
        let whole = all.filter(pred);
        assert(whole == upto + rest);
        if i == n {
            assert(all.subrange(i as int, n as int) =~= Seq::<Seq<u8>>::empty());
            reveal(Seq::filter);
            assert(rest =~= Seq::<Seq<u8>>::empty());
            assert(whole =~= upto);
            assert(whole.take(whole.len() as int) =~= whole);
        } else {
            assert(whole.take(EVICTION_BATCH_CAP as int) =~= upto);
        }
    }
    let selected = batch.into_keys();
    proof {
        eviction_selects_expired_keys(all, cutoff_ns);
        let sel = selected.deep_view();
        assert forall|i: int| 0 <= i < selected@.len() implies key_expired(
            #[trigger] selected@[i]@,
            cutoff_ns,
        ) && all.contains(selected@[i]@) by {
            assert(sel[i] == selected@[i]@);
        }
        assert forall|j: int|
            0 <= j < keys@.len() && key_expired(#[trigger] keys@[j]@, cutoff_ns) && selected@.len()
                < EVICTION_BATCH_CAP implies sel.contains(keys@[j]@) by {
            assert(all[j] == keys@[j]@);
        }
    }
    selected
}

/// An episode is expired exactly when it was logged before the cutoff:
/// eviction judges an episode by the timestamp it was logged with.
pub proof fn episode_expired_iff_logged_before_cutoff(
    ns: Seq<u8>,
    ts_ns: u64,
    action_uuid: Seq<u8>,
    cutoff_ns: u64,
)
    requires
        ns.len() == 16,
        action_uuid.len() == 16,
    ensures
        key_expired(episodic_key_bytes(ns, ts_ns as nat, action_uuid), cutoff_ns) <==> ts_ns
            < cutoff_ns,
{
    logged_timestamp_read_back(ns, ts_ns, action_uuid);
}

} // verus!
