//! Bounded, time-limited cache of transaction hashes seen by the listener.
//!
//! A hash is remembered together with the time at which it was first seen.
//! The cache is kept bounded by size (oldest entries leave first) and by age
//! (entries older than the time-to-live leave from the front, in arrival
//! order).
use std::collections::BTreeMap;
use std::collections::VecDeque;
use vstd::prelude::*;

verus! {

/// A 256-bit transaction hash, as its high and low 128-bit halves.
pub type TxHash = (u128, u128);

/// Largest number of hashes the listener keeps.
pub const TX_DEDUP_MAX: usize = 500_000;

/// Time-to-live of a cached hash, in nanoseconds (ten minutes).
pub const TX_DEDUP_TTL_NANOS: u64 = 600_000_000_000;

/// The mathematical state of a cache.
pub struct CacheView {
    /// Each cached hash, with the time (in nanoseconds) at which it was first seen.
    pub entries: Map<TxHash, u64>,
    /// The cached hashes, oldest first.
    pub order: Seq<TxHash>,
    pub max_entries: nat,
    pub ttl: nat,
}

pub struct DedupCache {
    seen_at: BTreeMap<TxHash, u64>,
    order: VecDeque<TxHash>,
    max_entries: usize,
    ttl: u64,
}

impl View for DedupCache {
    type V = CacheView;

    closed spec fn view(&self) -> CacheView {
        CacheView {
            entries: self.seen_at@,
            order: self.order@,
            max_entries: self.max_entries as nat,
            ttl: self.ttl as nat,
        }
    }
}

/// Whether the entry for `h` counts as expired at time `now`: it is missing,
/// or more than `ttl` nanoseconds have passed since it was first seen (a
/// timestamp later than `now` counts as no time passed).
pub open spec fn is_expired(entries: Map<TxHash, u64>, h: TxHash, now: u64, ttl: nat) -> bool {
    !entries.contains_key(h) || (now >= entries[h] && now - entries[h] > ttl)
}

/// The number of expired hashes at the front of `order`, up to the first
/// one that has not expired.
pub open spec fn leading_expired(order: Seq<TxHash>, entries: Map<TxHash, u64>, now: u64, ttl: nat) -> nat
    decreases order.len(),
{
    if order.len() == 0 {
        0
    } else if is_expired(entries, order[0], now, ttl) {
        1 + leading_expired(order.drop_first(), entries, now, ttl)
    } else {
        0
    }
}

/// The cache with its first `n` hashes dropped.
pub open spec fn drop_oldest(v: CacheView, n: nat) -> CacheView {
    let rest = v.order.skip(n as int);
    CacheView { entries: v.entries.restrict(rest.to_set()), order: rest, ..v }
}

/// The cache with its oldest hashes dropped until it holds at most `max_entries`.
pub open spec fn evict_overflow(v: CacheView) -> CacheView {
    if v.order.len() > v.max_entries {
        drop_oldest(v, (v.order.len() - v.max_entries) as nat)
    } else {
        v
    }
}

/// The cache with its expired hashes dropped from the front, up to the
/// first hash that has not expired.
pub open spec fn evict_expired(v: CacheView, now: u64) -> CacheView {
    drop_oldest(v, leading_expired(v.order, v.entries, now, v.ttl))
}

/// What observing `h` at time `now` does: a cached hash is a duplicate and
/// leaves the cache as it was; a new hash is recorded at the back, then the
/// cache is trimmed to its size and cleared of expired hashes at its front.
pub open spec fn observe_spec(v: CacheView, h: TxHash, now: u64) -> (CacheView, bool) {
    if v.entries.contains_key(h) {
        (v, false)
    } else {
        let inserted = CacheView { entries: v.entries.insert(h, now), order: v.order.push(h), ..v };
        (evict_expired(evict_overflow(inserted), now), true)
    }
}

/// The arrival times of the cached hashes never decrease from the front of
/// the arrival order to its back.
pub open spec fn arrival_times_ordered(v: CacheView) -> bool {
    forall|i: int, j: int|
        0 <= i <= j < v.order.len() ==> #[trigger] v.entries[v.order[i]] <= #[trigger] v.entries[v.order[j]]
}

/// No cached hash was seen later than `now`.
pub open spec fn seen_no_later_than(v: CacheView, now: u64) -> bool {
    forall|h: TxHash| #[trigger] v.entries.contains_key(h) ==> v.entries[h] <= now
}

/// Every cached hash was seen at most `ttl` nanoseconds before `now`.
pub open spec fn all_fresh(v: CacheView, now: u64) -> bool {
    forall|h: TxHash| #[trigger] v.entries.contains_key(h) ==> now - v.entries[h] <= v.ttl
}

/// A hash that has just been observed is in the cache, as long as the cache
/// may hold at least one hash.
pub proof fn lemma_observed_hash_is_cached(v: CacheView, h: TxHash, now: u64)
    requires
        v.wf(),
        v.max_entries >= 1,
    ensures
        observe_spec(v, h, now).0.entries.contains_key(h),
{
    if !v.entries.contains_key(h) {
        let ins = CacheView { entries: v.entries.insert(h, now), order: v.order.push(h), ..v };
        lemma_push_consistent(v, h, now);
        let d: nat = if ins.order.len() > ins.max_entries {
            (ins.order.len() - ins.max_entries) as nat
        } else {
            0
        };
        lemma_drop_none(ins);
        assert(evict_overflow(ins) == drop_oldest(ins, d));
        lemma_drop_consistent(ins, d);
        let o = evict_overflow(ins);
        let last = o.order.len() - 1;
        assert(o.order[last] == ins.order[last + d]);
        assert(o.order[last] == h);
        assert(o.order.to_set().contains(h));
        assert(o.entries[h] == now);
        lemma_leading_expired_stops(o.order, o.entries, now, o.ttl, last);
        let m = leading_expired(o.order, o.entries, now, o.ttl);
        let e = drop_oldest(o, m);
        assert(e.order[last - m] == h);
        assert(e.order.to_set().contains(h));
    }
}

/// Deduplication: observing a hash a second time, right after it was
/// observed, reports a duplicate and leaves the cache unchanged.
pub proof fn lemma_repeat_is_duplicate(v: CacheView, h: TxHash, first: u64, second: u64)
    requires
        v.wf(),
        v.max_entries >= 1,
    ensures
        observe_spec(observe_spec(v, h, first).0, h, second) == (observe_spec(v, h, first).0, false),
{
    lemma_observed_hash_is_cached(v, h, first);
}

proof fn lemma_leading_expired_all(
    order: Seq<TxHash>,
    entries: Map<TxHash, u64>,
    now: u64,
    ttl: nat,
)
    ensures
        forall|j: int|
            0 <= j < leading_expired(order, entries, now, ttl) ==> is_expired(
                entries,
                #[trigger] order[j],
                now,
                ttl,
            ),
    decreases order.len(),
{
    if order.len() > 0 && is_expired(entries, order[0], now, ttl) {
        lemma_leading_expired_all(order.drop_first(), entries, now, ttl);
        lemma_leading_expired_bound(order, entries, now, ttl);
        assert forall|j: int| 0 <= j < leading_expired(order, entries, now, ttl) implies is_expired(
            entries,
            #[trigger] order[j],
            now,
            ttl,
        ) by {
            if j > 0 {
                assert(order.drop_first()[j - 1] == order[j]);
            }
        }
    }
}

/// A hash already cached is reported as a duplicate, and the cache (its
/// hashes, their arrival times and their order) is left exactly as it was.
pub proof fn lemma_observe_cached_hash(v: CacheView, h: TxHash, now: u64)
    requires
        v.entries.contains_key(h),
    ensures
        !observe_spec(v, h, now).1,
        observe_spec(v, h, now).0.entries == v.entries,
        observe_spec(v, h, now).0.order == v.order,
        observe_spec(v, h, now).0.max_entries == v.max_entries,
        observe_spec(v, h, now).0.ttl == v.ttl,
{
}

/// What observing a new hash does, in terms of arrival order and arrival
/// times alone. With `ins` the old arrival order followed by the new hash,
/// and `times` the old arrival times plus the new hash at `now`:
/// - the hash is reported new;
/// - the cache keeps a suffix of `ins`, of at most `max_entries` hashes;
/// - of the hashes that leave, all but the `ins.len() - max_entries` oldest
///   have expired (seen more than `ttl` before `now`);
/// - the oldest hash that stays has not expired;
/// - exactly the hashes kept are cached, each with its arrival time.
pub proof fn lemma_observe_new_hash(v: CacheView, h: TxHash, now: u64)
    requires
        v.wf(),
        !v.entries.contains_key(h),
    ensures
        ({
            let ins = v.order.push(h);
            let times = v.entries.insert(h, now);
            let r = observe_spec(v, h, now).0;
            let d = ins.len() - r.order.len();
            &&& observe_spec(v, h, now).1
            &&& r.max_entries == v.max_entries
            &&& r.ttl == v.ttl
            &&& r.order.len() <= ins.len()
            &&& r.order.len() <= v.max_entries
            &&& r.order == ins.skip(d)
            &&& forall|j: int|
                0 <= j < d && ins.len() - v.max_entries <= j ==> now >= times[#[trigger] ins[j]]
                    && now - times[ins[j]] > v.ttl
            &&& r.order.len() > 0 ==> !(now >= times[r.order[0]] && now - times[r.order[0]]
                > v.ttl)
            &&& forall|k: TxHash| #[trigger] r.entries.contains_key(k) <==> r.order.contains(k)
            &&& forall|k: TxHash| #[trigger] r.entries.contains_key(k) ==> r.entries[k] == times[k]
        }),
{
    let ins = v.order.push(h);
    let times = v.entries.insert(h, now);
    let iv = CacheView { entries: times, order: ins, ..v };
    lemma_push_consistent(v, h, now);
    let d1: nat = if ins.len() > v.max_entries {
        (ins.len() - v.max_entries) as nat
    } else {
        0
    };
    lemma_drop_none(iv);
    assert(evict_overflow(iv) == drop_oldest(iv, d1));
    lemma_drop_consistent(iv, d1);
    let o = drop_oldest(iv, d1);
    lemma_leading_expired_bound(o.order, o.entries, now, o.ttl);
    let m = leading_expired(o.order, o.entries, now, o.ttl);
    lemma_drop_consistent(o, m);
    lemma_leading_expired_all(o.order, o.entries, now, o.ttl);
    lemma_leading_expired_prefix(o.order, o.entries, now, o.ttl);
    let e = drop_oldest(o, m);
    assert(e == observe_spec(v, h, now).0);
    assert(e.order =~= ins.skip((d1 + m) as int));
    assert(ins.len() - e.order.len() == d1 + m);
    assert forall|j: int|
        0 <= j < d1 + m && ins.len() - v.max_entries <= j implies now >= times[#[trigger] ins[j]]
        && now - times[ins[j]] > v.ttl by {
        assert(j >= d1);
        assert(o.order[j - d1] == ins[j]);
        assert(is_expired(o.entries, o.order[j - d1], now, o.ttl));
        assert(o.order.to_set().contains(o.order[j - d1]));
    }
    if e.order.len() > 0 {
        assert(e.order[0] == o.order[m as int]);
        assert(o.order.to_set().contains(o.order[m as int]));
    }
    assert forall|k: TxHash| #[trigger] e.entries.contains_key(k) <==> e.order.contains(k) by {
        assert(e.order.to_set().contains(k) <==> e.order.contains(k));
    }
    assert forall|k: TxHash| #[trigger] e.entries.contains_key(k) implies e.entries[k] == times[k] by {
    }
}

/// Size bound without expiry: when no cached hash has expired, observing a
/// new hash keeps exactly `min(old length + 1, max_entries)` hashes; only the
/// `old length + 1 - max_entries` oldest leave, and every other hash that was
/// cached stays cached, as does the new one when there is room for any.
pub proof fn lemma_observe_without_expiry(v: CacheView, h: TxHash, now: u64)
    requires
        v.wf(),
        !v.entries.contains_key(h),
        forall|k: TxHash| #[trigger]
            v.entries.contains_key(k) ==> !(now >= v.entries[k] && now - v.entries[k] > v.ttl),
    ensures
        ({
            let n = v.order.len();
            let keep: int = if n + 1 <= v.max_entries {
                n + 1 as int
            } else {
                v.max_entries as int
            };
            let r = observe_spec(v, h, now).0;
            &&& r.order.len() == keep
            &&& r.order == v.order.push(h).skip(n + 1 - keep)
            &&& forall|j: int|
                0 <= j < n && n + 1 - keep <= j ==> #[trigger] r.entries.contains_key(v.order[j])
            &&& keep > 0 ==> r.entries.contains_key(h)
        }),
{
    lemma_observe_new_hash(v, h, now);
    let n = v.order.len();
    let ins = v.order.push(h);
    let times = v.entries.insert(h, now);
    let r = observe_spec(v, h, now).0;
    let keep: int = if n + 1 <= v.max_entries {
        n + 1 as int
    } else {
        v.max_entries as int
    };
    let d = ins.len() - r.order.len();
    if d > n + 1 - keep {
        let j = n + 1 - keep;
        assert(0 <= j < d && ins.len() - v.max_entries <= j);
        assert(now >= times[ins[j]] && now - times[ins[j]] > v.ttl);
        if j < n {
            assert(ins[j] == v.order[j]);
            assert(v.order.to_set().contains(v.order[j]));
            assert(v.entries.contains_key(v.order[j]));
        }
    }
    assert(r.order.len() == keep);
    assert forall|j: int| 0 <= j < n && n + 1 - keep <= j implies #[trigger] r.entries.contains_key(
        v.order[j],
    ) by {
        assert(r.order[j - d] == ins[j]);
        assert(ins[j] == v.order[j]);
        assert(r.order.contains(v.order[j]));
    }
    if keep > 0 {
        assert(r.order[keep - 1] == ins[n as int]);
        assert(r.order.contains(h));
    }
}

/// Time bound: when time does not run backwards, observing a new hash leaves
/// only hashes seen at most `ttl` nanoseconds ago, and keeps arrival times
/// ordered.
pub proof fn lemma_new_hash_leaves_only_fresh(v: CacheView, h: TxHash, now: u64)
    requires
        v.wf(),
        arrival_times_ordered(v),
        seen_no_later_than(v, now),
        !v.entries.contains_key(h),
    ensures
        arrival_times_ordered(observe_spec(v, h, now).0),
        seen_no_later_than(observe_spec(v, h, now).0, now),
        all_fresh(observe_spec(v, h, now).0, now),
{
    let ins = CacheView { entries: v.entries.insert(h, now), order: v.order.push(h), ..v };
    lemma_push_consistent(v, h, now);
    assert forall|i: int, j: int| 0 <= i <= j < ins.order.len() implies #[trigger] ins.entries[ins.order[i]]
        <= #[trigger] ins.entries[ins.order[j]] by {
        assert(v.order.to_set().contains(v.order[i]) || i == v.order.len());
        if j < v.order.len() {
            assert(v.order.to_set().contains(v.order[j]));
            assert(v.order[i] != h && v.order[j] != h);
            assert(v.entries[v.order[i]] <= v.entries[v.order[j]]);
        } else if i < v.order.len() {
            assert(v.order.to_set().contains(v.order[i]));
            assert(v.entries.contains_key(v.order[i]));
        }
    }
    let d: nat = if ins.order.len() > ins.max_entries {
        (ins.order.len() - ins.max_entries) as nat
    } else {
        0
    };
    lemma_drop_none(ins);
    assert(evict_overflow(ins) == drop_oldest(ins, d));
    lemma_drop_consistent(ins, d);
    let o = evict_overflow(ins);
    lemma_leading_expired_bound(o.order, o.entries, now, o.ttl);
    let m = leading_expired(o.order, o.entries, now, o.ttl);
    lemma_drop_consistent(o, m);
    lemma_leading_expired_prefix(o.order, o.entries, now, o.ttl);
    let e = drop_oldest(o, m);
    assert forall|k: TxHash| #[trigger] ins.entries.contains_key(k) implies ins.entries[k] <= now by {
        if k != h {
            assert(v.entries.contains_key(k));
        }
    }
    assert forall|i: int, j: int| 0 <= i <= j < e.order.len() implies #[trigger] e.entries[e.order[i]]
        <= #[trigger] e.entries[e.order[j]] by {
        assert(e.order[i] == ins.order[i + d + m]);
        assert(e.order[j] == ins.order[j + d + m]);
        assert(e.order.to_set().contains(e.order[i]));
        assert(e.order.to_set().contains(e.order[j]));
        assert(o.order.to_set().contains(e.order[i]));
        assert(o.order.to_set().contains(e.order[j]));
        assert(ins.entries[ins.order[i + d + m]] <= ins.entries[ins.order[j + d + m]]);
    }
    assert forall|k: TxHash| #[trigger] e.entries.contains_key(k) implies now - e.entries[k] <= e.ttl by {
        let j = choose|j: int| 0 <= j < e.order.len() && e.order[j] == k;
        assert(e.order.to_set().contains(e.order[0]));
        assert(o.order[m as int] == e.order[0]);
        assert(o.order.to_set().contains(e.order[0]));
        assert(ins.entries[ins.order[(m + d) as int]] <= ins.entries[ins.order[j + d + m]]);
        assert(o.order.to_set().contains(k));
        assert(ins.entries.contains_key(k));
        assert(ins.entries.contains_key(e.order[0]));
    }
}

impl CacheView {
    /// Every cached hash occurs once in the arrival order, the arrival order
    /// holds exactly the cached hashes, and there are at most `max_entries`.
    pub open spec fn wf(self) -> bool {
        &&& self.order.no_duplicates()
        &&& self.entries.dom() == self.order.to_set()
        &&& self.order.len() <= self.max_entries
    }
}

/// Every hash occurs once in the arrival order, and the arrival order holds
/// exactly the cached hashes.
pub open spec fn consistent(v: CacheView) -> bool {
    &&& v.order.no_duplicates()
    &&& v.entries.dom() == v.order.to_set()
}

proof fn lemma_drop_none(v: CacheView)
    requires
        consistent(v),
    ensures
        drop_oldest(v, 0) == v,
{
    assert(v.order.skip(0) =~= v.order);
    assert(v.entries.restrict(v.order.to_set()) =~= v.entries);
}

proof fn lemma_drop_consistent(v: CacheView, n: nat)
    requires
        consistent(v),
        n <= v.order.len(),
    ensures
        consistent(drop_oldest(v, n)),
        drop_oldest(v, n).order.len() == v.order.len() - n,
{
    let rest = v.order.skip(n as int);
    assert forall|i: int, j: int| 0 <= i < rest.len() && 0 <= j < rest.len() && i != j implies rest[i]
        != rest[j] by {
        assert(rest[i] == v.order[i + n]);
        assert(rest[j] == v.order[j + n]);
    }
    assert forall|k: TxHash| rest.to_set().contains(k) implies v.order.to_set().contains(k) by {
        let j = choose|j: int| 0 <= j < rest.len() && rest[j] == k;
        assert(v.order[j + n] == k);
    }
    assert(drop_oldest(v, n).entries.dom() =~= rest.to_set());
}

proof fn lemma_drop_one_more(v: CacheView, n: nat)
    requires
        consistent(v),
        n < v.order.len(),
    ensures
        drop_oldest(v, n).order.len() > 0,
        drop_oldest(v, n).order[0] == v.order[n as int],
        drop_oldest(v, n + 1).order == drop_oldest(v, n).order.subrange(
            1,
            drop_oldest(v, n).order.len() as int,
        ),
        drop_oldest(v, n + 1).entries == drop_oldest(v, n).entries.remove(v.order[n as int]),
        drop_oldest(v, n + 1).max_entries == v.max_entries,
        drop_oldest(v, n + 1).ttl == v.ttl,
{
    let a = v.order.skip(n as int);
    let b = v.order.skip(n + 1 as int);
    let k0 = v.order[n as int];
    assert(b =~= a.subrange(1, a.len() as int));
    assert forall|k: TxHash| b.to_set().contains(k) <==> (a.to_set().contains(k) && k != k0) by {
        if b.to_set().contains(k) {
            let j = choose|j: int| 0 <= j < b.len() && b[j] == k;
            assert(a[j + 1] == k);
            assert(v.order[n + 1 + j] == k);
        }
        if a.to_set().contains(k) && k != k0 {
            let j = choose|j: int| 0 <= j < a.len() && a[j] == k;
            assert(j != 0);
            assert(b[j - 1] == k);
        }
    }
    assert(v.entries.restrict(b.to_set()) =~= v.entries.restrict(a.to_set()).remove(k0));
}

proof fn lemma_leading_expired_bound(order: Seq<TxHash>, entries: Map<TxHash, u64>, now: u64, ttl: nat)
    ensures
        leading_expired(order, entries, now, ttl) <= order.len(),
    decreases order.len(),
{
    if order.len() > 0 {
        lemma_leading_expired_bound(order.drop_first(), entries, now, ttl);
    }
}

proof fn lemma_leading_expired_stops(
    order: Seq<TxHash>,
    entries: Map<TxHash, u64>,
    now: u64,
    ttl: nat,
    j: int,
)
    requires
        0 <= j < order.len(),
        !is_expired(entries, order[j], now, ttl),
    ensures
        leading_expired(order, entries, now, ttl) <= j,
    decreases j,
{
    if j > 0 && is_expired(entries, order[0], now, ttl) {
        assert(order.drop_first()[j - 1] == order[j]);
        lemma_leading_expired_stops(order.drop_first(), entries, now, ttl, j - 1);
    }
}

proof fn lemma_leading_expired_prefix(
    order: Seq<TxHash>,
    entries: Map<TxHash, u64>,
    now: u64,
    ttl: nat,
)
    ensures
        leading_expired(order, entries, now, ttl) < order.len() ==> !is_expired(
            entries,
            order[leading_expired(order, entries, now, ttl) as int],
            now,
            ttl,
        ),
    decreases order.len(),
{
    if order.len() > 0 && is_expired(entries, order[0], now, ttl) {
        lemma_leading_expired_prefix(order.drop_first(), entries, now, ttl);
        let n = leading_expired(order.drop_first(), entries, now, ttl);
        if n < order.drop_first().len() {
            assert(order.drop_first()[n as int] == order[n + 1 as int]);
        }
    }
}

/// Recording a new hash at the back keeps the cache consistent.
proof fn lemma_push_consistent(v: CacheView, h: TxHash, now: u64)
    requires
        consistent(v),
        !v.entries.contains_key(h),
    ensures
        consistent(CacheView { entries: v.entries.insert(h, now), order: v.order.push(h), ..v }),
{
    let o = v.order.push(h);
    assert(!v.order.to_set().contains(h));
    assert forall|i: int, j: int| 0 <= i < o.len() && 0 <= j < o.len() && i != j implies o[i]
        != o[j] by {
        if i == v.order.len() {
            assert(v.order.to_set().contains(o[j]));
        }
        if j == v.order.len() {
            assert(v.order.to_set().contains(o[i]));
        }
    }
    assert forall|k: TxHash| o.to_set().contains(k) <==> (v.order.to_set().contains(k) || k == h) by {
        if o.to_set().contains(k) && k != h {
            let j = choose|j: int| 0 <= j < o.len() && o[j] == k;
            assert(v.order[j] == k);
        }
        if v.order.to_set().contains(k) {
            let j = choose|j: int| 0 <= j < v.order.len() && v.order[j] == k;
            assert(o[j] == k);
        }
        if k == h {
            assert(o[v.order.len() as int] == h);
        }
    }
    assert(v.entries.insert(h, now).dom() =~= o.to_set());
}

impl DedupCache {
    pub open spec fn wf(&self) -> bool {
        self@.wf()
    }

    /// An empty cache that keeps at most `max_entries` hashes, each for at
    /// most `ttl_nanos` nanoseconds after it was first seen.
    pub fn new(max_entries: usize, ttl_nanos: u64) -> (cache: DedupCache)
        ensures
            cache.wf(),
            cache@.entries == Map::<TxHash, u64>::empty(),
            cache@.order == Seq::<TxHash>::empty(),
            cache@.max_entries == max_entries,
            cache@.ttl == ttl_nanos,
    {
        let cache = DedupCache {
            seen_at: BTreeMap::new(),
            order: VecDeque::new(),
            max_entries,
            ttl: ttl_nanos,
        };
        proof {
            assert(cache@.order.to_set() =~= Set::<TxHash>::empty());
        }
        cache
    }

    /// Records `hash` as seen at time `now` (nanoseconds), and tells whether
    /// it was new. A hash already in the cache is a duplicate: the cache is
    /// left as it was. A new hash is recorded at the back; then the oldest
    /// hashes leave until at most `max_entries` remain, and hashes at the
    /// front leave while they have expired.
    pub fn observe(&mut self, hash: TxHash, now: u64) -> (is_new: bool)
        requires
            old(self).wf(),
        ensures
            final(self).wf(),
            (final(self)@, is_new) == observe_spec(old(self)@, hash, now),
            is_new == !old(self)@.entries.contains_key(hash),
            old(self)@.max_entries >= 1 ==> final(self)@.entries.contains_key(hash),
    {
        proof {
            if old(self)@.max_entries >= 1 {
                lemma_observed_hash_is_cached(old(self)@, hash, now);
            }
        }
        if self.seen_at.contains_key(&hash) {
            return false;
        }
        let ghost pre = self@;
        self.seen_at.insert(hash, now);
        self.order.push_back(hash);
        let ghost base = self@;
        proof {
            lemma_push_consistent(pre, hash, now);
            lemma_drop_none(base);
        }
        let ghost mut dropped: nat = 0;
        while self.order.len() > self.max_entries
            invariant
                consistent(base),
                dropped <= base.order.len(),
                self@ == drop_oldest(base, dropped),
                dropped == 0 || base.order.len() - dropped >= base.max_entries,
            decreases self.order@.len(),
        {
            proof {
                lemma_drop_consistent(base, dropped);
                lemma_drop_one_more(base, dropped);
            }
            if let Some(old_hash) = self.order.pop_front() {
                self.seen_at.remove(&old_hash);
            }
            proof {
                dropped = dropped + 1;
            }
        }
        proof {
            lemma_drop_consistent(base, dropped);
            assert(self@ == evict_overflow(base));
        }
        let ghost mid = self@;
        let ghost mut gone: nat = 0;
        proof {
            lemma_drop_none(mid);
            assert(mid.order.skip(0) =~= mid.order);
        }
        loop
            invariant
                consistent(mid),
                gone <= mid.order.len(),
                self@ == drop_oldest(mid, gone),
                leading_expired(mid.order, mid.entries, now, mid.ttl) == gone + leading_expired(
                    mid.order.skip(gone as int),
                    mid.entries,
                    now,
                    mid.ttl,
                ),
            ensures
                self@ == evict_expired(mid, now),
            decreases self.order@.len(),
        {
            proof {
                lemma_drop_consistent(mid, gone);
            }
            if self.order.len() == 0 {
                break;
            }
            let front = self.order[0];
            proof {
                lemma_drop_one_more(mid, gone);
            }
            let expired = match self.seen_at.get(&front) {
                Some(seen_at) => now >= *seen_at && now - *seen_at > self.ttl,
                None => true,
            };
            assert(expired == is_expired(mid.entries, front, now, mid.ttl));
            if !expired {
                break;
            }
            self.order.pop_front();
            self.seen_at.remove(&front);
            proof {
                assert(mid.order.skip(gone as int).drop_first() =~= mid.order.skip(gone + 1 as int));
                gone = gone + 1;
            }
        }
        proof {
            lemma_leading_expired_bound(mid.order, mid.entries, now, mid.ttl);
            lemma_drop_consistent(mid, leading_expired(mid.order, mid.entries, now, mid.ttl));
        }
        true
    }

    /// Number of hashes in the cache.
    pub fn len(&self) -> (n: usize)
        ensures
            n == self@.order.len(),
    {
        self.order.len()
    }

    /// Whether `hash` is in the cache.
    pub fn contains(&self, hash: &TxHash) -> (b: bool)
        ensures
            b == self@.entries.contains_key(*hash),
    {
        self.seen_at.contains_key(hash)
    }
}

} // verus!
