//! The cache of resolved hosts.
//!
//! An entry is found by its key: the settings that the host was resolved
//! with, and the host. It is written with a time stamp, counts as absent once
//! it is older than [`TOPOLOGY_HOST_CACHE_TTL_MS`], and leaves the cache when
//! a later write finds it stale or finds the cache over
//! [`TOPOLOGY_HOST_CACHE_MAX_ENTRIES`], the oldest entries first.

use vstd::prelude::*;
use crate::topology::chain::{ChainView, HostnameChainResult};

verus! {

/// How long an entry stays valid, in milliseconds: five minutes.
pub const TOPOLOGY_HOST_CACHE_TTL_MS: i64 = 5 * 60 * 1000;

/// The number of entries that the cache holds at most after a write.
pub const TOPOLOGY_HOST_CACHE_MAX_ENTRIES: usize = 6000;

/// What an entry is found by.
#[derive(Debug)]
pub struct CacheKey {
    pub resolver_mode: String,
    pub dns_server: String,
    pub doh_provider: String,
    pub doh_custom_url: String,
    pub max_hops: usize,
    pub disable_ptr_lookups: bool,
    pub host: String,
}

/// The mathematical content of a [`CacheKey`].
pub struct KeyView {
    pub resolver_mode: Seq<char>,
    pub dns_server: Seq<char>,
    pub doh_provider: Seq<char>,
    pub doh_custom_url: Seq<char>,
    pub max_hops: usize,
    pub disable_ptr_lookups: bool,
    pub host: Seq<char>,
}

impl DeepView for CacheKey {
    type V = KeyView;

    open spec fn deep_view(&self) -> KeyView {
        KeyView {
            resolver_mode: self.resolver_mode@,
            dns_server: self.dns_server@,
            doh_provider: self.doh_provider@,
            doh_custom_url: self.doh_custom_url@,
            max_hops: self.max_hops,
            disable_ptr_lookups: self.disable_ptr_lookups,
            host: self.host@,
        }
    }
}

impl View for CacheKey {
    type V = KeyView;

    open spec fn view(&self) -> KeyView {
        self.deep_view()
    }
}

impl Clone for CacheKey {
    fn clone(&self) -> (r: Self)
        ensures
            r@ == self@,
    {
        CacheKey {
            resolver_mode: self.resolver_mode.clone(),
            dns_server: self.dns_server.clone(),
            doh_provider: self.doh_provider.clone(),
            doh_custom_url: self.doh_custom_url.clone(),
            max_hops: self.max_hops,
            disable_ptr_lookups: self.disable_ptr_lookups,
            host: self.host.clone(),
        }
    }
}

impl CacheKey {
    /// Tells whether two keys are the same.
    pub fn same(&self, other: &CacheKey) -> (r: bool)
        ensures
            r == (self@ == other@),
    {
        self.max_hops == other.max_hops && self.disable_ptr_lookups == other.disable_ptr_lookups
            && self.host == other.host && self.resolver_mode == other.resolver_mode
            && self.dns_server == other.dns_server && self.doh_provider == other.doh_provider
            && self.doh_custom_url == other.doh_custom_url
    }
}

/// A resolved host with the time at which it was written.
#[derive(Debug)]
pub struct TopologyHostCacheEntry {
    pub key: CacheKey,
    pub ts_ms: i64,
    pub value: HostnameChainResult,
}

/// The mathematical content of a [`TopologyHostCacheEntry`].
pub struct EntryView {
    pub key: KeyView,
    pub ts_ms: i64,
    pub value: ChainView,
}

impl DeepView for TopologyHostCacheEntry {
    type V = EntryView;

    open spec fn deep_view(&self) -> EntryView {
        EntryView { key: self.key@, ts_ms: self.ts_ms, value: self.value@ }
    }
}

impl View for TopologyHostCacheEntry {
    type V = EntryView;

    open spec fn view(&self) -> EntryView {
        self.deep_view()
    }
}

/// A result to be written under a key.
#[derive(Debug)]
pub struct CacheUpdate {
    pub key: CacheKey,
    pub value: HostnameChainResult,
}

/// The mathematical content of a [`CacheUpdate`].
pub struct UpdateView {
    pub key: KeyView,
    pub value: ChainView,
}

impl DeepView for CacheUpdate {
    type V = UpdateView;

    open spec fn deep_view(&self) -> UpdateView {
        UpdateView { key: self.key@, value: self.value@ }
    }
}

impl View for CacheUpdate {
    type V = UpdateView;

    open spec fn view(&self) -> UpdateView {
        self.deep_view()
    }
}

/// Whether an entry written at `ts_ms` is still valid at `now_ms`: it is
/// unless more than the time to live has passed since.
pub open spec fn fresh(ts_ms: i64, now_ms: i64) -> bool {
    now_ms - ts_ms <= TOPOLOGY_HOST_CACHE_TTL_MS
}

/// The position of the entry under `key`, or the number of entries where
/// there is none.
pub open spec fn position(entries: Seq<EntryView>, key: KeyView) -> int
    decreases entries.len(),
{
    if entries.len() == 0 {
        0
    } else if entries[0].key == key {
        0
    } else {
        1 + position(entries.drop_first(), key)
    }
}

/// Whether no two entries have the same key.
pub open spec fn distinct_keys(entries: Seq<EntryView>) -> bool {
    forall|i: int, j: int|
        0 <= i < j < entries.len() ==> (#[trigger] entries[i]).key != (#[trigger] entries[j]).key
}

/// What a read under `key` at `now_ms` finds: the value of the entry under
/// that key if there is one and it is still valid.
pub open spec fn cached(entries: Seq<EntryView>, key: KeyView, now_ms: i64) -> Option<ChainView> {
    let at = position(entries, key);
    if at < entries.len() && fresh(entries[at].ts_ms, now_ms) {
        Some(entries[at].value)
    } else {
        None
    }
}

/// The entries after `value` was written under `key` at `ts_ms`: the entry
/// under that key is replaced where it stands, or a new one is added at the
/// end.
pub open spec fn stored(entries: Seq<EntryView>, key: KeyView, ts_ms: i64, value: ChainView) -> Seq<
    EntryView,
> {
    let at = position(entries, key);
    let entry = EntryView { key, ts_ms, value };
    if at < entries.len() {
        entries.update(at, entry)
    } else {
        entries.push(entry)
    }
}

/// The entries after all of `updates` were written at `ts_ms`, in order.
pub open spec fn stored_all(entries: Seq<EntryView>, updates: Seq<UpdateView>, ts_ms: i64) -> Seq<
    EntryView,
>
    decreases updates.len(),
{
    if updates.len() == 0 {
        entries
    } else {
        let before = stored_all(entries, updates.drop_last(), ts_ms);
        stored(before, updates.last().key, ts_ms, updates.last().value)
    }
}

/// The entries that are still valid at `now_ms`, in order.
pub open spec fn swept(entries: Seq<EntryView>, now_ms: i64) -> Seq<EntryView>
    decreases entries.len(),
{
    if entries.len() == 0 {
        Seq::empty()
    } else if fresh(entries.last().ts_ms, now_ms) {
        swept(entries.drop_last(), now_ms).push(entries.last())
    } else {
        swept(entries.drop_last(), now_ms)
    }
}

/// The position of the oldest entry: the first of those with the least time
/// stamp.
pub open spec fn oldest(entries: Seq<EntryView>) -> int
    decreases entries.len(),
{
    if entries.len() <= 1 {
        0
    } else {
        let before = oldest(entries.drop_last());
        if entries.last().ts_ms < entries[before].ts_ms {
            entries.len() - 1
        } else {
            before
        }
    }
}

/// The entries without the one at position `at`.
pub open spec fn without(entries: Seq<EntryView>, at: int) -> Seq<EntryView> {
    entries.take(at) + entries.skip(at + 1)
}

/// The entries after the oldest was removed `count` times.
pub open spec fn without_oldest(entries: Seq<EntryView>, count: nat) -> Seq<EntryView>
    decreases count,
{
    if count == 0 || entries.len() == 0 {
        entries
    } else {
        without_oldest(without(entries, oldest(entries)), (count - 1) as nat)
    }
}

/// The entries after the oldest were removed, one at a time, until no more
/// than `cap` are left.
pub open spec fn evicted(entries: Seq<EntryView>, cap: nat) -> Seq<EntryView> {
    if entries.len() <= cap {
        entries
    } else {
        without_oldest(entries, (entries.len() - cap) as nat)
    }
}

/// The entries after a batch of updates was written at `ts_ms`. An empty
/// batch changes nothing. Else the updates are stored, the entries that are
/// stale at `ts_ms` are swept out, and the oldest are evicted until the cache
/// is within its bound.
pub open spec fn written(entries: Seq<EntryView>, updates: Seq<UpdateView>, ts_ms: i64) -> Seq<
    EntryView,
> {
    if updates.len() == 0 {
        entries
    } else {
        evicted(
            swept(stored_all(entries, updates, ts_ms), ts_ms),
            TOPOLOGY_HOST_CACHE_MAX_ENTRIES as nat,
        )
    }
}

/// `position` finds the first entry under the key: no entry before it has
/// the key.
pub proof fn lemma_position(entries: Seq<EntryView>, key: KeyView)
    ensures
        0 <= position(entries, key) <= entries.len(),
        position(entries, key) < entries.len() ==> entries[position(entries, key)].key == key,
        forall|i: int| 0 <= i < position(entries, key) ==> (#[trigger] entries[i]).key != key,
    decreases entries.len(),
{
    if entries.len() == 0 {
    } else if entries[0].key == key {
    } else {
        let rest = entries.drop_first();
        lemma_position(rest, key);
        assert forall|i: int| 0 <= i < position(entries, key) implies (#[trigger] entries[i]).key
            != key by {
            if i > 0 {
                assert(entries[i] == rest[i - 1]);
            }
        }
        if position(entries, key) < entries.len() {
            assert(entries[position(entries, key)] == rest[position(rest, key)]);
        }
    }
}

/// Where the keys are distinct, the entry under a key stands at the key's
/// position.
pub proof fn lemma_position_of(entries: Seq<EntryView>, at: int)
    requires
        distinct_keys(entries),
        0 <= at < entries.len(),
    ensures
        position(entries, entries[at].key) == at,
{
    lemma_position(entries, entries[at].key);
    let p = position(entries, entries[at].key);
    if p < at {
        assert(entries[p].key == entries[at].key);
    } else if p > at {
        assert(entries[at].key != entries[at].key);
    }
}

/// A write keeps the keys distinct and puts the entry at the position of its
/// key.
pub proof fn lemma_stored_keeps_distinct(
    entries: Seq<EntryView>,
    key: KeyView,
    ts_ms: i64,
    value: ChainView,
)
    requires
        distinct_keys(entries),
    ensures
        distinct_keys(stored(entries, key, ts_ms, value)),
        position(stored(entries, key, ts_ms, value), key) == position(entries, key),
        stored(entries, key, ts_ms, value)[position(entries, key)] == (EntryView {
            key,
            ts_ms,
            value,
        }),
        stored(entries, key, ts_ms, value).len() <= entries.len() + 1,
{
    lemma_position(entries, key);
    let after = stored(entries, key, ts_ms, value);
    let at = position(entries, key);
    assert(distinct_keys(after)) by {
        assert forall|i: int, j: int| 0 <= i < j < after.len() implies (#[trigger] after[i]).key != (
        #[trigger] after[j]).key by {
            if at < entries.len() {
                assert(after[i].key == entries[i].key);
                assert(after[j].key == entries[j].key);
            } else {
                if j < entries.len() {
                    assert(after[i] == entries[i] && after[j] == entries[j]);
                } else {
                    assert(after[i] == entries[i]);
                }
            }
        }
    }
    lemma_position_of(after, at);
}

/// Writing under one key changes what is found under no other key.
pub proof fn lemma_stored_other(
    entries: Seq<EntryView>,
    key: KeyView,
    ts_ms: i64,
    value: ChainView,
    other: KeyView,
    now_ms: i64,
)
    requires
        distinct_keys(entries),
        other != key,
    ensures
        cached(stored(entries, key, ts_ms, value), other, now_ms) == cached(entries, other, now_ms),
{
    let after = stored(entries, key, ts_ms, value);
    lemma_position(entries, key);
    lemma_position(entries, other);
    lemma_position(after, other);
    lemma_stored_keeps_distinct(entries, key, ts_ms, value);
    let p = position(entries, other);
    let q = position(after, other);
    if p < entries.len() {
        assert(after[p] == entries[p]);
        lemma_position_of(after, p);
    } else {
        if q < after.len() {
            if q < entries.len() {
                assert(entries[q].key == other);
            }
        }
    }
}

/// A run of updates keeps the keys distinct and adds one entry at most for
/// each update.
pub proof fn lemma_stored_all_keeps_distinct(
    entries: Seq<EntryView>,
    updates: Seq<UpdateView>,
    ts_ms: i64,
)
    requires
        distinct_keys(entries),
    ensures
        distinct_keys(stored_all(entries, updates, ts_ms)),
        stored_all(entries, updates, ts_ms).len() <= entries.len() + updates.len(),
    decreases updates.len(),
{
    if updates.len() > 0 {
        lemma_stored_all_keeps_distinct(entries, updates.drop_last(), ts_ms);
        lemma_stored_keeps_distinct(
            stored_all(entries, updates.drop_last(), ts_ms),
            updates.last().key,
            ts_ms,
            updates.last().value,
        );
    }
}

/// Sweeping keeps exactly the valid entries, in their order.
pub proof fn lemma_swept(entries: Seq<EntryView>, now_ms: i64)
    ensures
        swept(entries, now_ms).len() <= entries.len(),
        forall|i: int|
            0 <= i < swept(entries, now_ms).len() ==> fresh(
                (#[trigger] swept(entries, now_ms)[i]).ts_ms,
                now_ms,
            ) && entries.contains(swept(entries, now_ms)[i]),
        forall|i: int|
            0 <= i < entries.len() && fresh((#[trigger] entries[i]).ts_ms, now_ms) ==> swept(
                entries,
                now_ms,
            ).contains(entries[i]),
        distinct_keys(entries) ==> distinct_keys(swept(entries, now_ms)),
        (forall|i: int| 0 <= i < entries.len() ==> fresh((#[trigger] entries[i]).ts_ms, now_ms))
            ==> swept(entries, now_ms) == entries,
    decreases entries.len(),
{
    if entries.len() == 0 {
        assert(swept(entries, now_ms) =~= entries);
    } else {
        let head = entries.drop_last();
        let before = swept(head, now_ms);
        let after = swept(entries, now_ms);
        lemma_swept(head, now_ms);
        assert forall|i: int| 0 <= i < after.len() implies fresh((#[trigger] after[i]).ts_ms, now_ms)
            && entries.contains(after[i]) by {
            if i < before.len() {
                assert(after[i] == before[i]);
                assert(head.contains(before[i]));
                let k = choose|k: int| 0 <= k < head.len() && head[k] == before[i];
                assert(entries[k] == after[i]);
            } else {
                assert(entries[entries.len() - 1] == after[i]);
            }
        }
        assert forall|i: int|
            0 <= i < entries.len() && fresh((#[trigger] entries[i]).ts_ms, now_ms) implies after.contains(
            entries[i],
        ) by {
            if i < head.len() {
                assert(head[i] == entries[i]);
                assert(before.contains(head[i]));
                let k = choose|k: int| 0 <= k < before.len() && before[k] == head[i];
                assert(after[k] == entries[i]);
            } else {
                assert(after[before.len() as int] == entries[i]);
            }
        }
        if distinct_keys(entries) {
            assert(distinct_keys(head)) by {
                assert forall|i: int, j: int| 0 <= i < j < head.len() implies (
                #[trigger] head[i]).key != (#[trigger] head[j]).key by {
                    assert(head[i] == entries[i] && head[j] == entries[j]);
                }
            }
            assert forall|i: int, j: int| 0 <= i < j < after.len() implies (#[trigger] after[i]).key
                != (#[trigger] after[j]).key by {
                if j < before.len() {
                    assert(after[i] == before[i] && after[j] == before[j]);
                } else {
                    assert(after[i] == before[i]);
                    assert(head.contains(before[i]));
                    let k = choose|k: int| 0 <= k < head.len() && head[k] == before[i];
                    assert(entries[k] == head[k]);
                    assert(entries[k].key != entries[entries.len() - 1].key);
                }
            }
        }
        if forall|i: int| 0 <= i < entries.len() ==> fresh((#[trigger] entries[i]).ts_ms, now_ms) {
            assert forall|i: int| 0 <= i < head.len() implies fresh(
                (#[trigger] head[i]).ts_ms,
                now_ms,
            ) by {
                assert(head[i] == entries[i]);
            }
            assert(after =~= entries);
        }
    }
}

/// The oldest entry is no younger than any other.
pub proof fn lemma_oldest(entries: Seq<EntryView>)
    requires
        entries.len() > 0,
    ensures
        0 <= oldest(entries) < entries.len(),
        forall|i: int|
            0 <= i < entries.len() ==> entries[oldest(entries)].ts_ms <= (#[trigger] entries[i]).ts_ms,
    decreases entries.len(),
{
    if entries.len() > 1 {
        let head = entries.drop_last();
        lemma_oldest(head);
        assert forall|i: int| 0 <= i < entries.len() implies entries[oldest(entries)].ts_ms <= (
        #[trigger] entries[i]).ts_ms by {
            if i < head.len() {
                assert(head[i] == entries[i]);
            }
            assert(head[oldest(head)] == entries[oldest(head)]);
        }
    }
}

/// Removing the oldest entries takes exactly `count` of them, or all where
/// there are fewer; it keeps the others in their order; and no entry that it
/// removes is younger than one that it keeps.
pub proof fn lemma_without_oldest(entries: Seq<EntryView>, count: nat)
    ensures
        without_oldest(entries, count).len() == if count <= entries.len() {
            entries.len() - count
        } else {
            0
        },
        forall|i: int|
            0 <= i < without_oldest(entries, count).len() ==> entries.contains(
                #[trigger] without_oldest(entries, count)[i],
            ),
        distinct_keys(entries) ==> distinct_keys(without_oldest(entries, count)),
        forall|i: int, j: int|
            0 <= i < entries.len() && 0 <= j < without_oldest(entries, count).len()
                && distinct_keys(entries) && position(
                without_oldest(entries, count),
                (#[trigger] entries[i]).key,
            ) >= without_oldest(entries, count).len() ==> entries[i].ts_ms <= (
            #[trigger] without_oldest(entries, count)[j]).ts_ms,
    decreases count,
{
    let after = without_oldest(entries, count);
    if count == 0 || entries.len() == 0 {
        assert forall|i: int, j: int|
            0 <= i < entries.len() && 0 <= j < after.len() && distinct_keys(entries) && position(
                after,
                (#[trigger] entries[i]).key,
            ) >= after.len() implies entries[i].ts_ms <= (#[trigger] after[j]).ts_ms by {
            lemma_position_of(entries, i);
        }
    } else {
        let k = oldest(entries);
        lemma_oldest(entries);
        let rest = without(entries, k);
        assert(rest =~= entries.remove(k));
        lemma_without_oldest(rest, (count - 1) as nat);
        assert forall|i: int| 0 <= i < after.len() implies entries.contains(#[trigger] after[i]) by {
            assert(rest.contains(after[i]));
            let m = choose|m: int| 0 <= m < rest.len() && rest[m] == after[i];
            if m < k {
                assert(entries[m] == rest[m]);
            } else {
                assert(entries[m + 1] == rest[m]);
            }
        }
        if distinct_keys(entries) {
            assert(distinct_keys(rest)) by {
                assert forall|i: int, j: int| 0 <= i < j < rest.len() implies (
                #[trigger] rest[i]).key != (#[trigger] rest[j]).key by {
                    let a = if i < k {
                        i
                    } else {
                        i + 1
                    };
                    let b = if j < k {
                        j
                    } else {
                        j + 1
                    };
                    assert(rest[i] == entries[a] && rest[j] == entries[b]);
                }
            }
            assert forall|i: int, j: int|
                0 <= i < entries.len() && 0 <= j < after.len() && position(
                    after,
                    (#[trigger] entries[i]).key,
                ) >= after.len() implies entries[i].ts_ms <= (#[trigger] after[j]).ts_ms by {
                if i == k {
                    assert(entries.contains(after[j]));
                    let m = choose|m: int| 0 <= m < entries.len() && entries[m] == after[j];
                    assert(entries[k].ts_ms <= entries[m].ts_ms);
                } else {
                    let a = if i < k {
                        i
                    } else {
                        i - 1
                    };
                    assert(rest[a] == entries[i]);
                }
            }
        }
    }
}

/// Eviction leaves no more than `cap` entries and takes none where there are
/// no more than that; it keeps the others in their order; and no entry that
/// it removes is younger than one that it keeps.
pub proof fn lemma_evicted(entries: Seq<EntryView>, cap: nat)
    ensures
        evicted(entries, cap).len() == if entries.len() <= cap {
            entries.len()
        } else {
            cap
        },
        distinct_keys(entries) ==> distinct_keys(evicted(entries, cap)),
        forall|i: int|
            0 <= i < evicted(entries, cap).len() ==> entries.contains(
                #[trigger] evicted(entries, cap)[i],
            ),
        forall|i: int, j: int|
            0 <= i < entries.len() && 0 <= j < evicted(entries, cap).len() && distinct_keys(entries)
                && position(evicted(entries, cap), (#[trigger] entries[i]).key) >= evicted(
                entries,
                cap,
            ).len() ==> entries[i].ts_ms <= (#[trigger] evicted(entries, cap)[j]).ts_ms,
{
    if entries.len() <= cap {
        lemma_without_oldest(entries, 0);
    } else {
        lemma_without_oldest(entries, (entries.len() - cap) as nat);
    }
}

/// Tells whether an entry written at `ts_ms` is still valid at `now_ms`.
pub fn is_fresh(ts_ms: i64, now_ms: i64) -> (r: bool)
    ensures
        r == fresh(ts_ms, now_ms),
{
    (now_ms as i128) - (ts_ms as i128) <= (TOPOLOGY_HOST_CACHE_TTL_MS as i128)
}

/// Finds the entry under `key`: its position, or the number of entries where
/// there is none.
pub fn find_entry(entries: &Vec<TopologyHostCacheEntry>, key: &CacheKey) -> (at: usize)
    ensures
        at == position(entries.deep_view(), key@),
        at <= entries@.len(),
{
    let ghost all = entries.deep_view();
    let mut i: usize = 0;
    proof {
        lemma_position(all, key@);
    }
    while i < entries.len()
        invariant
            i <= entries@.len(),
            all == entries.deep_view(),
            forall|k: int| 0 <= k < i ==> (#[trigger] all[k]).key != key@,
            0 <= position(all, key@) <= all.len(),
            position(all, key@) < all.len() ==> all[position(all, key@)].key == key@,
            forall|k: int| 0 <= k < position(all, key@) ==> (#[trigger] all[k]).key != key@,
        decreases entries@.len() - i,
    {
        if entries[i].key.same(key) {
            proof {
                assert(all[i as int].key == key@);
            }
            return i;
        }
        i += 1;
    }
    i
}

/// Writes `value` under `key`: over the entry under that key where there is
/// one, else as a new entry at the end.
pub fn store_entry(
    entries: &mut Vec<TopologyHostCacheEntry>,
    key: CacheKey,
    ts_ms: i64,
    value: HostnameChainResult,
)
    ensures
        final(entries).deep_view() == stored(old(entries).deep_view(), key@, ts_ms, value@),
{
    let at = find_entry(entries, &key);
    let entry = TopologyHostCacheEntry { key, ts_ms, value };
    if at < entries.len() {
        entries[at] = entry;
    } else {
        entries.push(entry);
    }
}

/// Removing a stale entry changes nothing for the sweep.
pub proof fn lemma_swept_remove(entries: Seq<EntryView>, at: int, now_ms: i64)
    requires
        0 <= at < entries.len(),
        !fresh(entries[at].ts_ms, now_ms),
    ensures
        swept(entries.remove(at), now_ms) == swept(entries, now_ms),
    decreases entries.len(),
{
    let shorter = entries.remove(at);
    if at == entries.len() - 1 {
        assert(shorter =~= entries.drop_last());
    } else {
        assert(shorter.drop_last() =~= entries.drop_last().remove(at));
        assert(shorter.last() == entries.last());
        assert(entries.drop_last()[at] == entries[at]);
        lemma_swept_remove(entries.drop_last(), at, now_ms);
    }
}

/// Removes the entries that are stale at `now_ms`.
pub fn sweep(entries: &mut Vec<TopologyHostCacheEntry>, now_ms: i64)
    ensures
        final(entries).deep_view() == swept(old(entries).deep_view(), now_ms),
{
    let ghost start = entries.deep_view();
    let mut i: usize = 0;
    while i < entries.len()
        invariant
            i <= entries@.len(),
            swept(start, now_ms) == swept(entries.deep_view(), now_ms),
            forall|k: int| 0 <= k < i ==> fresh((#[trigger] entries.deep_view()[k]).ts_ms, now_ms),
        decreases entries@.len() - i,
    {
        let ghost before = entries.deep_view();
        if is_fresh(entries[i].ts_ms, now_ms) {
            i += 1;
        } else {
            let _stale = entries.remove(i);
            proof {
                assert(entries.deep_view() =~= before.remove(i as int));
                lemma_swept_remove(before, i as int, now_ms);
            }
        }
    }
    proof {
        lemma_swept(entries.deep_view(), now_ms);
    }
}

/// Finds the oldest entry: the first of those with the least time stamp.
pub fn oldest_entry(entries: &Vec<TopologyHostCacheEntry>) -> (at: usize)
    requires
        entries@.len() > 0,
    ensures
        at == oldest(entries.deep_view()),
        at < entries@.len(),
{
    let ghost all = entries.deep_view();
    let mut best: usize = 0;
    let mut i: usize = 1;
    while i < entries.len()
        invariant
            1 <= i <= entries@.len(),
            all == entries.deep_view(),
            best < i,
            best == oldest(all.take(i as int)),
        decreases entries@.len() - i,
    {
        proof {
            assert(all.take(i + 1).drop_last() =~= all.take(i as int));
            assert(all.take(i + 1).last() == all[i as int]);
        }
        if entries[i].ts_ms < entries[best].ts_ms {
            best = i;
        }
        i += 1;
    }
    proof {
        assert(all.take(entries@.len() as int) =~= all);
    }
    best
}

/// Removes the oldest entries, one at a time, until no more than `cap` are
/// left.
pub fn evict(entries: &mut Vec<TopologyHostCacheEntry>, cap: usize)
    ensures
        final(entries).deep_view() == evicted(old(entries).deep_view(), cap as nat),
{
    let ghost start = entries.deep_view();
    while entries.len() > cap
        invariant
            evicted(start, cap as nat) == evicted(entries.deep_view(), cap as nat),
        decreases entries@.len(),
    {
        let ghost before = entries.deep_view();
        let at = oldest_entry(entries);
        let _oldest = entries.remove(at);
        proof {
            let rest = without(before, at as int);
            let count = (before.len() - cap) as nat;
            assert(entries.deep_view() =~= rest);
            assert(rest.len() == before.len() - 1);
            assert(evicted(before, cap as nat) == without_oldest(before, count));
            assert(without_oldest(before, count) == without_oldest(rest, (count - 1) as nat));
            assert(without_oldest(rest, 0) == rest);
            assert(evicted(rest, cap as nat) == without_oldest(rest, (count - 1) as nat));
        }
    }
}

/// The cache of resolved hosts. No two of its entries have the same key.
#[derive(Debug)]
pub struct TopologyHostCache {
    pub(crate) entries: Vec<TopologyHostCacheEntry>,
}

impl View for TopologyHostCache {
    type V = Seq<EntryView>;

    closed spec fn view(&self) -> Seq<EntryView> {
        self.entries.deep_view()
    }
}

impl TopologyHostCache {
    #[verifier::type_invariant]
    spec fn well_formed(self) -> bool {
        distinct_keys(self.entries.deep_view())
    }

    /// The cache without entries.
    pub fn new() -> (cache: TopologyHostCache)
        ensures
            cache@.len() == 0,
    {
        let entries: Vec<TopologyHostCacheEntry> = Vec::new();
        TopologyHostCache { entries }
    }

    /// The number of entries, stale ones included.
    pub fn len(&self) -> (n: usize)
        ensures
            n == self@.len(),
    {
        self.entries.len()
    }

    /// Reads the value under `key` at the time `now_ms`. An entry that is
    /// older than the time to live counts as absent, though it may still be
    /// held.
    pub fn get(&self, key: &CacheKey, now_ms: i64) -> (r: Option<HostnameChainResult>)
        ensures
            r.deep_view() == cached(self@, key@, now_ms),
            distinct_keys(self@),
    {
        proof {
            use_type_invariant(self);
        }
        let at = find_entry(&self.entries, key);
        if at < self.entries.len() && is_fresh(self.entries[at].ts_ms, now_ms) {
            Some(self.entries[at].value.clone())
        } else {
            None
        }
    }

    /// Writes a batch of results at the time `write_ts`. An empty batch
    /// changes nothing. Else each result is written under its key, a later
    /// one over an earlier one under the same key; then every entry that is
    /// stale at `write_ts` is removed; then, while the cache holds more than
    /// [`TOPOLOGY_HOST_CACHE_MAX_ENTRIES`], its oldest entry is removed.
    pub fn write_batch(&mut self, updates: &Vec<CacheUpdate>, write_ts: i64)
        ensures
            final(self)@ == written(old(self)@, updates.deep_view(), write_ts),
            distinct_keys(old(self)@),
            distinct_keys(final(self)@),
            updates@.len() > 0 ==> final(self)@.len() <= TOPOLOGY_HOST_CACHE_MAX_ENTRIES,
    {
        proof {
            use_type_invariant(&*self);
        }
        if updates.len() == 0 {
            return ;
        }
        let ghost start = self@;
        let ghost all = updates.deep_view();
        let mut entries: Vec<TopologyHostCacheEntry> = Vec::new();
        core::mem::swap(&mut self.entries, &mut entries);
        let mut i: usize = 0;
        while i < updates.len()
            invariant
                i <= updates@.len(),
                all == updates.deep_view(),
                entries.deep_view() == stored_all(start, all.take(i as int), write_ts),
            decreases updates@.len() - i,
        {
            proof {
                assert(all.take(i + 1).drop_last() =~= all.take(i as int));
            }
            store_entry(&mut entries, updates[i].key.clone(), write_ts, updates[i].value.clone());
            i += 1;
        }
        proof {
            assert(all.take(updates@.len() as int) =~= all);
            lemma_stored_all_keeps_distinct(start, all, write_ts);
            lemma_swept(stored_all(start, all, write_ts), write_ts);
            lemma_evicted(
                swept(stored_all(start, all, write_ts), write_ts),
                TOPOLOGY_HOST_CACHE_MAX_ENTRIES as nat,
            );
        }
        sweep(&mut entries, write_ts);
        evict(&mut entries, TOPOLOGY_HOST_CACHE_MAX_ENTRIES);
        self.entries = entries;
    }
}

/// The value of the last of `updates` under `key`.
pub open spec fn last_value(updates: Seq<UpdateView>, key: KeyView) -> Option<ChainView>
    decreases updates.len(),
{
    if updates.len() == 0 {
        None
    } else if updates.last().key == key {
        Some(updates.last().value)
    } else {
        last_value(updates.drop_last(), key)
    }
}

/// Where the keys are distinct, an entry that the cache holds stands at the
/// position of its key.
pub proof fn lemma_position_of_held(entries: Seq<EntryView>, entry: EntryView)
    requires
        distinct_keys(entries),
        entries.contains(entry),
    ensures
        position(entries, entry.key) < entries.len(),
        entries[position(entries, entry.key)] == entry,
{
    let at = choose|at: int| 0 <= at < entries.len() && entries[at] == entry;
    lemma_position_of(entries, at);
}

/// After a run of updates the cache holds, under a key that was updated, the
/// value of the last update under it with the time of the write.
pub proof fn lemma_stored_all_value(
    entries: Seq<EntryView>,
    updates: Seq<UpdateView>,
    ts_ms: i64,
    key: KeyView,
)
    requires
        distinct_keys(entries),
        last_value(updates, key) is Some,
    ensures
        stored_all(entries, updates, ts_ms).contains(
            EntryView { key, ts_ms, value: last_value(updates, key)->0 },
        ),
    decreases updates.len(),
{
    let head = updates.drop_last();
    let last = updates.last();
    let before = stored_all(entries, head, ts_ms);
    let after = stored_all(entries, updates, ts_ms);
    lemma_stored_all_keeps_distinct(entries, head, ts_ms);
    lemma_stored_keeps_distinct(before, last.key, ts_ms, last.value);
    lemma_position(before, last.key);
    if last.key == key {
        assert(after[position(before, key)] == (EntryView { key, ts_ms, value: last.value }));
    } else {
        lemma_stored_all_value(entries, head, ts_ms, key);
        let entry = EntryView { key, ts_ms, value: last_value(updates, key)->0 };
        let at = choose|at: int| 0 <= at < before.len() && before[at] == entry;
        assert(after[at] == entry);
    }
}

/// A key under which a run of updates writes a value is the key of one of
/// the updates.
pub proof fn lemma_last_value_key(updates: Seq<UpdateView>, key: KeyView)
    ensures
        last_value(updates, key) is Some <==> exists|u: int|
            0 <= u < updates.len() && (#[trigger] updates[u]).key == key,
    decreases updates.len(),
{
    if updates.len() > 0 {
        let head = updates.drop_last();
        lemma_last_value_key(head, key);
        if updates.last().key == key {
            assert(updates[updates.len() - 1].key == key);
        } else if last_value(head, key) is Some {
            let u = choose|u: int| 0 <= u < head.len() && (#[trigger] head[u]).key == key;
            assert(updates[u] == head[u]);
        } else {
            assert forall|u: int| 0 <= u < updates.len() implies (#[trigger] updates[u]).key
                != key by {
                if u < head.len() {
                    assert(head[u] == updates[u]);
                }
            }
        }
    }
}

/// Every entry that the cache holds after a run of updates was held before,
/// or carries the time of the write and a key that one of the updates wrote
/// under.
pub proof fn lemma_stored_all_origin(entries: Seq<EntryView>, updates: Seq<UpdateView>, ts_ms: i64)
    ensures
        forall|i: int|
            0 <= i < stored_all(entries, updates, ts_ms).len() ==> entries.contains(
                #[trigger] stored_all(entries, updates, ts_ms)[i],
            ) || (stored_all(entries, updates, ts_ms)[i].ts_ms == ts_ms && last_value(
                updates,
                stored_all(entries, updates, ts_ms)[i].key,
            ) is Some),
    decreases updates.len(),
{
    let after = stored_all(entries, updates, ts_ms);
    if updates.len() == 0 {
        assert forall|i: int| 0 <= i < after.len() implies entries.contains(#[trigger] after[i]) by {
            assert(entries[i] == after[i]);
        }
    } else {
        let head = updates.drop_last();
        let last = updates.last();
        let before = stored_all(entries, head, ts_ms);
        lemma_stored_all_origin(entries, head, ts_ms);
        lemma_position(before, last.key);
        let at = position(before, last.key);
        assert forall|i: int| 0 <= i < after.len() implies entries.contains(#[trigger] after[i]) || (
        after[i].ts_ms == ts_ms && last_value(updates, after[i].key) is Some) by {
            if i != at {
                assert(after[i] == before[i]);
            }
        }
    }
}

/// A value written in a batch is found under its key for as long as the time
/// to live lasts, whatever the write had to evict. This holds where every
/// entry held before is older than the write, and the batch writes no more
/// values than the cache holds: the entries that leave are the oldest, and
/// those of the batch are the youngest.
pub proof fn lemma_written_then_cached(
    entries: Seq<EntryView>,
    updates: Seq<UpdateView>,
    ts_ms: i64,
    key: KeyView,
    now_ms: i64,
)
    requires
        distinct_keys(entries),
        last_value(updates, key) is Some,
        forall|i: int| 0 <= i < entries.len() ==> (#[trigger] entries[i]).ts_ms < ts_ms,
        updates.len() <= TOPOLOGY_HOST_CACHE_MAX_ENTRIES,
        fresh(ts_ms, now_ms),
    ensures
        cached(written(entries, updates, ts_ms), key, now_ms) == last_value(updates, key),
{
    let cap = TOPOLOGY_HOST_CACHE_MAX_ENTRIES as nat;
    let entry = EntryView { key, ts_ms, value: last_value(updates, key)->0 };
    let all = stored_all(entries, updates, ts_ms);
    lemma_stored_all_value(entries, updates, ts_ms, key);
    lemma_stored_all_keeps_distinct(entries, updates, ts_ms);
    lemma_stored_all_origin(entries, updates, ts_ms);
    lemma_swept(all, ts_ms);
    let at = choose|at: int| 0 <= at < all.len() && all[at] == entry;
    assert(fresh(all[at].ts_ms, ts_ms));
    let kept = swept(all, ts_ms);
    assert(kept.contains(entry));
    lemma_position_of_held(kept, entry);
    let held = position(kept, key);
    let after = evicted(kept, cap);
    lemma_evicted(kept, cap);
    lemma_position(after, key);
    if position(after, key) >= after.len() {
        assert(after.len() == cap) by {
            if kept.len() <= cap {
                assert(after == kept);
            }
        }
        let keys = Seq::new(after.len(), |j: int| after[j].key);
        let written_keys = Seq::new(updates.len(), |u: int| updates[u].key);
        assert(keys.no_duplicates()) by {
            assert forall|i: int, j: int| 0 <= i < keys.len() && 0 <= j < keys.len() && i != j implies keys[i]
                != keys[j] by {
                if i < j {
                    assert(after[i].key != after[j].key);
                } else {
                    assert(after[j].key != after[i].key);
                }
            }
        }
        keys.unique_seq_to_set();
        written_keys.lemma_cardinality_of_set();
        let more = keys.to_set().insert(key);
        assert(!keys.to_set().contains(key)) by {
            if keys.contains(key) {
                let j = choose|j: int| 0 <= j < keys.len() && keys[j] == key;
                assert(after[j].key == key);
            }
        }
        assert(more.subset_of(written_keys.to_set())) by {
            assert forall|k: KeyView| more.contains(k) implies written_keys.to_set().contains(k) by {
                lemma_last_value_key(updates, k);
                if k != key {
                    assert(keys.contains(k));
                    let j = choose|j: int| 0 <= j < keys.len() && keys[j] == k;
                    assert(after[j].key == k);
                    assert(kept[held].ts_ms <= after[j].ts_ms);
                    assert(kept.contains(after[j]));
                    let m = choose|m: int| 0 <= m < kept.len() && kept[m] == after[j];
                    assert(all.contains(kept[m]));
                    let n = choose|n: int| 0 <= n < all.len() && all[n] == kept[m];
                    if entries.contains(all[n]) {
                        let o = choose|o: int| 0 <= o < entries.len() && entries[o] == all[n];
                        assert(entries[o].ts_ms < ts_ms);
                    }
                    assert(last_value(updates, k) is Some);
                }
                let u = choose|u: int| 0 <= u < updates.len() && (#[trigger] updates[u]).key == k;
                assert(written_keys[u] == k);
            }
        }
        vstd::set_lib::lemma_len_subset(more, written_keys.to_set());
        assert(keys.to_set().finite());
        assert(more.len() == keys.to_set().len() + 1);
    }
    let found = position(after, key);
    assert(kept.contains(after[found]));
    lemma_position_of_held(kept, after[found]);
}

/// A read never brings a value that is older than the time to live.
pub proof fn lemma_cached_is_fresh(entries: Seq<EntryView>, key: KeyView, now_ms: i64)
    ensures
        cached(entries, key, now_ms) is Some ==> exists|i: int|
            0 <= i < entries.len() && (#[trigger] entries[i]).key == key && fresh(
                entries[i].ts_ms,
                now_ms,
            ) && cached(entries, key, now_ms) == Some(entries[i].value),
{
    lemma_position(entries, key);
}

} // verus!
