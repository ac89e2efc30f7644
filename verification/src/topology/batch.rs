//! Resolving hosts in batches: what has to be looked up, in which portions,
//! and how the results come together.
//!
//! A batch runs in three steps. [`plan_topology_batch`] brings the requested
//! names into normal form, drops repetitions and sorts out what the cache
//! still knows. The caller resolves the rest, and probes the service hosts,
//! in the portions that [`chunks`] cuts. [`resolve_topology_batch`] writes
//! the new results to the cache and lists the resolutions in the order of the
//! request.

use vstd::prelude::*;
use crate::topology::cache::{
    cached, distinct_keys, fresh, last_value, lemma_written_then_cached, written, CacheKey,
    CacheUpdate, EntryView, KeyView, TopologyHostCache, UpdateView,
    TOPOLOGY_HOST_CACHE_MAX_ENTRIES,
};
use crate::topology::chain::{ChainView, HostnameChainResult};
use crate::topology::names::{
    no_repeats, normalize_domain, normalized, unique_hosts, unique_names,
};
use crate::topology::settings::{SettingsView, TopologySettings};
use crate::text::str_eq;

verus! {

/// How many hosts are resolved at the same time.
pub const RESOLVE_PARALLELISM: usize = 16;

/// How many hosts are probed at the same time.
pub const PROBE_PARALLELISM: usize = 8;

/// Whether a host answers on HTTPS and on HTTP.
#[derive(Debug)]
pub struct ServiceProbeResult {
    pub host: String,
    pub https_up: bool,
    pub http_up: bool,
}

/// The mathematical content of a [`ServiceProbeResult`].
pub struct ProbeView {
    pub host: Seq<char>,
    pub https_up: bool,
    pub http_up: bool,
}

impl DeepView for ServiceProbeResult {
    type V = ProbeView;

    open spec fn deep_view(&self) -> ProbeView {
        ProbeView { host: self.host@, https_up: self.https_up, http_up: self.http_up }
    }
}

impl View for ServiceProbeResult {
    type V = ProbeView;

    open spec fn view(&self) -> ProbeView {
        self.deep_view()
    }
}

/// What a batch comes to: the resolutions in the order of the request, and
/// the probes in the order in which they ended.
#[derive(Debug)]
pub struct TopologyBatchResult {
    pub resolutions: Vec<HostnameChainResult>,
    pub probes: Vec<ServiceProbeResult>,
}

/// The mathematical content of a [`TopologyBatchResult`].
pub struct BatchView {
    pub resolutions: Seq<ChainView>,
    pub probes: Seq<ProbeView>,
}

impl DeepView for TopologyBatchResult {
    type V = BatchView;

    open spec fn deep_view(&self) -> BatchView {
        BatchView {
            resolutions: self.resolutions.deep_view(),
            probes: self.probes.deep_view(),
        }
    }
}

impl View for TopologyBatchResult {
    type V = BatchView;

    open spec fn view(&self) -> BatchView {
        self.deep_view()
    }
}

/// A host, in normal form, with what resolving it came to.
#[derive(Debug)]
pub struct HostResult {
    pub host: String,
    pub value: HostnameChainResult,
}

/// The mathematical content of a [`HostResult`].
pub struct HostResultView {
    pub host: Seq<char>,
    pub value: ChainView,
}

impl DeepView for HostResult {
    type V = HostResultView;

    open spec fn deep_view(&self) -> HostResultView {
        HostResultView { host: self.host@, value: self.value@ }
    }
}

impl View for HostResult {
    type V = HostResultView;

    open spec fn view(&self) -> HostResultView {
        self.deep_view()
    }
}

/// What is to be done for a request.
#[derive(Debug)]
pub struct BatchPlan {
    /// The requested hosts in normal form, each once, in the order first
    /// seen.
    pub hosts: Vec<String>,
    /// Those of the hosts that the cache knows, with what it knows.
    pub cached: Vec<HostResult>,
    /// Those of the hosts that have to be resolved.
    pub unresolved: Vec<String>,
    /// The service hosts in normal form, each once, in the order first seen.
    pub probe_hosts: Vec<String>,
}

/// The mathematical content of a [`BatchPlan`].
pub struct PlanView {
    pub hosts: Seq<Seq<char>>,
    pub cached: Seq<HostResultView>,
    pub unresolved: Seq<Seq<char>>,
    pub probe_hosts: Seq<Seq<char>>,
}

impl DeepView for BatchPlan {
    type V = PlanView;

    open spec fn deep_view(&self) -> PlanView {
        PlanView {
            hosts: self.hosts.deep_view(),
            cached: self.cached.deep_view(),
            unresolved: self.unresolved.deep_view(),
            probe_hosts: self.probe_hosts.deep_view(),
        }
    }
}

impl View for BatchPlan {
    type V = PlanView;

    open spec fn view(&self) -> PlanView {
        self.deep_view()
    }
}

/// The key under which `host` is cached when resolved with `settings`.
pub open spec fn key_for(settings: SettingsView, host: Seq<char>) -> KeyView {
    KeyView {
        resolver_mode: settings.resolver_mode,
        dns_server: settings.dns_server,
        doh_provider: settings.doh_provider_key,
        doh_custom_url: settings.doh_custom_key,
        max_hops: settings.max_hops,
        disable_ptr_lookups: settings.disable_ptr_lookups,
        host,
    }
}

/// Builds the key under which `host` is cached when resolved with
/// `settings`.
pub fn cache_key(settings: &TopologySettings, host: &str) -> (key: CacheKey)
    ensures
        key@ == key_for(settings@, host@),
{
    CacheKey {
        resolver_mode: settings.resolver_mode.clone(),
        dns_server: settings.dns_server.clone(),
        doh_provider: settings.doh_provider_key.clone(),
        doh_custom_url: settings.doh_custom_key.clone(),
        max_hops: settings.max_hops,
        disable_ptr_lookups: settings.disable_ptr_lookups,
        host: String::from_str(host),
    }
}

/// Those of `hosts` that the cache holds a valid entry for, in order, each
/// with the value of that entry.
pub open spec fn hits(
    entries: Seq<EntryView>,
    settings: SettingsView,
    hosts: Seq<Seq<char>>,
    now_ms: i64,
) -> Seq<HostResultView>
    decreases hosts.len(),
{
    if hosts.len() == 0 {
        Seq::empty()
    } else {
        let before = hits(entries, settings, hosts.drop_last(), now_ms);
        match cached(entries, key_for(settings, hosts.last()), now_ms) {
            Some(value) => before.push(HostResultView { host: hosts.last(), value }),
            None => before,
        }
    }
}

/// Those of `hosts` that the cache holds no valid entry for, in order.
pub open spec fn misses(
    entries: Seq<EntryView>,
    settings: SettingsView,
    hosts: Seq<Seq<char>>,
    now_ms: i64,
) -> Seq<Seq<char>>
    decreases hosts.len(),
{
    if hosts.len() == 0 {
        Seq::empty()
    } else {
        let before = misses(entries, settings, hosts.drop_last(), now_ms);
        if cached(entries, key_for(settings, hosts.last()), now_ms) is None {
            before.push(hosts.last())
        } else {
            before
        }
    }
}

/// The names of a list where there is one, else none.
pub open spec fn names_or_none(values: Option<Seq<Seq<char>>>) -> Seq<Seq<char>> {
    match values {
        Some(v) => v,
        None => Seq::empty(),
    }
}

/// What [`plan_topology_batch`] returns.
pub open spec fn planned(
    entries: Seq<EntryView>,
    settings: SettingsView,
    hostnames: Seq<Seq<char>>,
    service_hosts: Option<Seq<Seq<char>>>,
    now_ms: i64,
) -> PlanView {
    let hosts = unique_names(hostnames);
    PlanView {
        hosts,
        cached: hits(entries, settings, hosts, now_ms),
        unresolved: misses(entries, settings, hosts, now_ms),
        probe_hosts: unique_names(names_or_none(service_hosts)),
    }
}

/// Plans a batch at the time `now_ms`: which hosts are asked for, which of
/// them the cache still knows under the given settings, which have to be
/// resolved, and which hosts are to be probed.
pub fn plan_topology_batch(
    cache: &TopologyHostCache,
    settings: &TopologySettings,
    hostnames: &Vec<String>,
    service_hosts: &Option<Vec<String>>,
    now_ms: i64,
) -> (plan: BatchPlan)
    ensures
        plan@ == planned(
            cache@,
            settings@,
            hostnames.deep_view(),
            service_hosts.deep_view(),
            now_ms,
        ),
        no_repeats(plan@.hosts),
        no_repeats(plan@.probe_hosts),
{
    let hosts = unique_hosts(hostnames);
    let ghost all = hosts.deep_view();
    let mut found: Vec<HostResult> = Vec::new();
    let mut unresolved: Vec<String> = Vec::new();
    let mut i: usize = 0;
    while i < hosts.len()
        invariant
            i <= hosts@.len(),
            all == hosts.deep_view(),
            found.deep_view() == hits(cache@, settings@, all.take(i as int), now_ms),
            unresolved.deep_view() == misses(cache@, settings@, all.take(i as int), now_ms),
        decreases hosts@.len() - i,
    {
        let host = &hosts[i];
        proof {
            assert(all.take(i + 1).drop_last() =~= all.take(i as int));
        }
        let key = cache_key(settings, host.as_str());
        match cache.get(&key, now_ms) {
            Some(value) => {
                found.push(HostResult { host: host.clone(), value });
            },
            None => {
                unresolved.push(host.clone());
            },
        }
        i += 1;
    }
    proof {
        assert(all.take(hosts@.len() as int) =~= all);
    }
    let probe_hosts = match service_hosts {
        Some(list) => unique_hosts(list),
        None => unique_hosts(&Vec::new()),
    };
    BatchPlan { hosts, cached: found, unresolved, probe_hosts }
}

/// `values` cut into portions of `size`, the last one possibly shorter.
pub open spec fn chunked(values: Seq<Seq<char>>, size: nat) -> Seq<Seq<Seq<char>>>
    decreases values.len(),
{
    if values.len() == 0 || size == 0 {
        Seq::empty()
    } else if values.len() <= size {
        seq![values]
    } else {
        seq![values.take(size as int)] + chunked(values.skip(size as int), size)
    }
}

/// The portions put together again.
pub open spec fn joined(portions: Seq<Seq<Seq<char>>>) -> Seq<Seq<char>>
    decreases portions.len(),
{
    if portions.len() == 0 {
        Seq::empty()
    } else {
        portions[0] + joined(portions.drop_first())
    }
}

/// Cutting into portions loses nothing and changes no order; no portion is
/// empty or longer than `size`, and only the last may be shorter.
pub proof fn lemma_chunked(values: Seq<Seq<char>>, size: nat)
    requires
        size > 0,
    ensures
        joined(chunked(values, size)) == values,
        forall|i: int|
            0 <= i < chunked(values, size).len() ==> 1 <= (#[trigger] chunked(values, size)[i]).len()
                <= size,
        forall|i: int|
            0 <= i < chunked(values, size).len() - 1 ==> (#[trigger] chunked(values, size)[i]).len()
                == size,
    decreases values.len(),
{
    let portions = chunked(values, size);
    if values.len() == 0 {
        assert(joined(portions) =~= values);
    } else if values.len() <= size {
        assert(portions.drop_first() =~= Seq::<Seq<Seq<char>>>::empty());
        assert(joined(portions.drop_first()) =~= Seq::<Seq<char>>::empty());
        assert(portions[0] == values);
        assert(joined(portions) =~= values);
    } else {
        let rest = chunked(values.skip(size as int), size);
        lemma_chunked(values.skip(size as int), size);
        assert(portions.drop_first() =~= rest);
        assert(joined(portions) =~= values);
        assert forall|i: int| 0 <= i < portions.len() implies 1 <= (#[trigger] portions[i]).len()
            <= size by {
            if i > 0 {
                assert(portions[i] == rest[i - 1]);
            }
        }
        assert forall|i: int| 0 <= i < portions.len() - 1 implies (#[trigger] portions[i]).len()
            == size by {
            if i > 0 {
                assert(portions[i] == rest[i - 1]);
            }
        }
    }
}

/// Cuts `values` into portions of `size`, in order; the last portion holds
/// what is left.
pub fn chunks(values: &Vec<String>, size: usize) -> (r: Vec<Vec<String>>)
    requires
        size > 0,
    ensures
        r.deep_view() == chunked(values.deep_view(), size as nat),
{
    let ghost all = values.deep_view();
    let n: usize = values.len();
    let mut out: Vec<Vec<String>> = Vec::new();
    let mut start: usize = 0;
    proof {
        assert(all.skip(0) =~= all);
    }
    while start < n
        invariant
            start <= n == values@.len(),
            size > 0,
            all == values.deep_view(),
            chunked(all, size as nat) == out.deep_view() + chunked(all.skip(start as int), size as nat),
        decreases n - start,
    {
        let end: usize = if n - start <= size {
            n
        } else {
            start + size
        };
        let mut portion: Vec<String> = Vec::new();
        let mut i: usize = start;
        while i < end
            invariant
                start <= i <= end <= n == values@.len(),
                portion@.len() == i - start,
                forall|k: int| 0 <= k < i - start ==> (#[trigger] portion@[k])@ == values@[start + k]@,
            decreases end - i,
        {
            portion.push(values[i].clone());
            i += 1;
        }
        let ghost rest = all.skip(start as int);
        let ghost cut = portion.deep_view();
        proof {
            if n - start <= size {
                assert(cut =~= rest);
            } else {
                assert(cut =~= rest.take(size as int));
                assert(rest.skip(size as int) =~= all.skip(end as int));
            }
        }
        out.push(portion);
        start = end;
    }
    out
}

/// The portions in which the unresolved hosts of a plan are resolved, each
/// portion at the same time: 16 hosts at most.
pub fn resolve_chunks(unresolved: &Vec<String>) -> (r: Vec<Vec<String>>)
    ensures
        r.deep_view() == chunked(unresolved.deep_view(), RESOLVE_PARALLELISM as nat),
{
    chunks(unresolved, RESOLVE_PARALLELISM)
}

/// The portions in which the service hosts of a plan are probed, each
/// portion at the same time: 8 hosts at most.
pub fn probe_chunks(probe_hosts: &Vec<String>) -> (r: Vec<Vec<String>>)
    ensures
        r.deep_view() == chunked(probe_hosts.deep_view(), PROBE_PARALLELISM as nat),
{
    chunks(probe_hosts, PROBE_PARALLELISM)
}

/// The two addresses at which a host is probed: over HTTPS and over HTTP.
pub fn probe_urls(host: &str) -> (r: (String, String))
    ensures
        r.0@ == "https://"@ + host@,
        r.1@ == "http://"@ + host@,
{
    (String::from_str("https://").concat(host), String::from_str("http://").concat(host))
}

/// The new results with the hosts they stand for: each result whose name,
/// brought into normal form, is not empty, under that name.
pub open spec fn fresh_results(resolved: Seq<ChainView>) -> Seq<HostResultView>
    decreases resolved.len(),
{
    if resolved.len() == 0 {
        Seq::empty()
    } else {
        let before = fresh_results(resolved.drop_last());
        let host = normalized(resolved.last().name);
        if host.len() > 0 {
            before.push(HostResultView { host, value: resolved.last() })
        } else {
            before
        }
    }
}

/// The cache updates that stand for `results` under `settings`.
pub open spec fn updates_for(settings: SettingsView, results: Seq<HostResultView>) -> Seq<
    UpdateView,
> {
    Seq::new(
        results.len(),
        |i: int| UpdateView { key: key_for(settings, results[i].host), value: results[i].value },
    )
}

/// The value of the last of `results` for `host`.
pub open spec fn found_for(results: Seq<HostResultView>, host: Seq<char>) -> Option<ChainView>
    decreases results.len(),
{
    if results.len() == 0 {
        None
    } else if results.last().host == host {
        Some(results.last().value)
    } else {
        found_for(results.drop_last(), host)
    }
}

/// The resolutions of `hosts`, in order: for each host the value of the last
/// of `results` for it; a host without a result is left out.
pub open spec fn assembled(hosts: Seq<Seq<char>>, results: Seq<HostResultView>) -> Seq<ChainView>
    decreases hosts.len(),
{
    if hosts.len() == 0 {
        Seq::empty()
    } else {
        let before = assembled(hosts.drop_last(), results);
        match found_for(results, hosts.last()) {
            Some(value) => before.push(value),
            None => before,
        }
    }
}

/// The last result for a host among two lists put together is the last in
/// the second list, or else the last in the first.
pub proof fn lemma_found_for_joined(
    first: Seq<HostResultView>,
    second: Seq<HostResultView>,
    host: Seq<char>,
)
    ensures
        found_for(first + second, host) == match found_for(second, host) {
            Some(value) => Some(value),
            None => found_for(first, host),
        },
    decreases second.len(),
{
    if second.len() == 0 {
        assert(first + second =~= first);
    } else {
        assert((first + second).drop_last() =~= first + second.drop_last());
        assert((first + second).last() == second.last());
        lemma_found_for_joined(first, second.drop_last(), host);
    }
}

/// Finds the last of `results` for `host`.
pub fn find_result<'a>(results: &'a Vec<HostResult>, host: &str) -> (r: Option<
    &'a HostnameChainResult,
>)
    ensures
        r.deep_view() == found_for(results.deep_view(), host@),
{
    let ghost all = results.deep_view();
    let mut i: usize = results.len();
    proof {
        assert(all.take(i as int) =~= all);
    }
    while i > 0
        invariant
            i <= results@.len(),
            all == results.deep_view(),
            found_for(all, host@) == found_for(all.take(i as int), host@),
        decreases i,
    {
        proof {
            assert(all.take(i as int).drop_last() =~= all.take(i - 1));
        }
        if str_eq(results[i - 1].host.as_str(), host) {
            return Some(&results[i - 1].value);
        }
        i -= 1;
    }
    None
}

/// Pairs each new result with the host it stands for.
pub fn host_results(resolved: &Vec<HostnameChainResult>) -> (r: Vec<HostResult>)
    ensures
        r.deep_view() == fresh_results(resolved.deep_view()),
{
    let ghost all = resolved.deep_view();
    let mut out: Vec<HostResult> = Vec::new();
    let mut i: usize = 0;
    while i < resolved.len()
        invariant
            i <= resolved@.len(),
            all == resolved.deep_view(),
            out.deep_view() == fresh_results(all.take(i as int)),
        decreases resolved@.len() - i,
    {
        proof {
            assert(all.take(i + 1).drop_last() =~= all.take(i as int));
        }
        let host = normalize_domain(resolved[i].name.as_str());
        if host.as_str().unicode_len() > 0 {
            out.push(HostResult { host, value: resolved[i].clone() });
        }
        i += 1;
    }
    proof {
        assert(all.take(resolved@.len() as int) =~= all);
    }
    out
}

/// Ends a batch at the time `write_ts`.
///
/// `resolved` holds what resolving the plan's unresolved hosts came to, in
/// the order in which the resolutions ended; `probes` holds the results of
/// the probes. Each result whose name is not empty is written to the cache
/// under its host and the settings, all in one write. The resolutions are
/// then listed in the order of the plan's hosts: for each host the newest
/// result, else what the cache knew when the batch was planned. The probes
/// are handed on as they came.
pub fn resolve_topology_batch(
    cache: &mut TopologyHostCache,
    settings: &TopologySettings,
    plan: &BatchPlan,
    resolved: &Vec<HostnameChainResult>,
    probes: Vec<ServiceProbeResult>,
    write_ts: i64,
) -> (r: TopologyBatchResult)
    ensures
        final(cache)@ == written(
            old(cache)@,
            updates_for(settings@, fresh_results(resolved.deep_view())),
            write_ts,
        ),
        distinct_keys(old(cache)@),
        distinct_keys(final(cache)@),
        r@.resolutions == assembled(
            plan@.hosts,
            plan@.cached + fresh_results(resolved.deep_view()),
        ),
        r@.probes == probes.deep_view(),
{
    let fresh = host_results(resolved);
    let ghost results = fresh.deep_view();
    let mut updates: Vec<CacheUpdate> = Vec::new();
    let mut i: usize = 0;
    while i < fresh.len()
        invariant
            i <= fresh@.len(),
            results == fresh.deep_view(),
            updates@.len() == i,
            forall|k: int|
                0 <= k < i ==> (#[trigger] updates@[k])@ == (UpdateView {
                    key: key_for(settings@, results[k].host),
                    value: results[k].value,
                }),
        decreases fresh@.len() - i,
    {
        updates.push(
            CacheUpdate {
                key: cache_key(settings, fresh[i].host.as_str()),
                value: fresh[i].value.clone(),
            },
        );
        i += 1;
    }
    proof {
        assert(updates.deep_view() =~= updates_for(settings@, results));
    }
    cache.write_batch(&updates, write_ts);
    let ghost hosts = plan@.hosts;
    let ghost known = plan@.cached;
    let mut resolutions: Vec<HostnameChainResult> = Vec::new();
    let mut j: usize = 0;
    while j < plan.hosts.len()
        invariant
            j <= plan.hosts@.len(),
            hosts == plan@.hosts,
            known == plan@.cached,
            results == fresh.deep_view(),
            resolutions.deep_view() == assembled(hosts.take(j as int), known + results),
        decreases plan.hosts@.len() - j,
    {
        let host = &plan.hosts[j];
        proof {
            assert(hosts.take(j + 1).drop_last() =~= hosts.take(j as int));
            lemma_found_for_joined(known, results, host@);
        }
        let value = match find_result(&fresh, host.as_str()) {
            Some(value) => Some(value),
            None => find_result(&plan.cached, host.as_str()),
        };
        match value {
            Some(value) => {
                resolutions.push(value.clone());
            },
            None => {},
        }
        j += 1;
    }
    proof {
        assert(hosts.take(plan.hosts@.len() as int) =~= hosts);
    }
    TopologyBatchResult { resolutions, probes }
}

/// Where every host has a result, the resolutions are as many as the hosts
/// and stand in their order.
pub proof fn lemma_assembled_in_order(hosts: Seq<Seq<char>>, results: Seq<HostResultView>)
    requires
        forall|i: int| 0 <= i < hosts.len() ==> found_for(results, #[trigger] hosts[i]) is Some,
    ensures
        assembled(hosts, results).len() == hosts.len(),
        forall|i: int|
            0 <= i < hosts.len() ==> Some(#[trigger] assembled(hosts, results)[i]) == found_for(
                results,
                hosts[i],
            ),
    decreases hosts.len(),
{
    if hosts.len() > 0 {
        let head = hosts.drop_last();
        assert forall|i: int| 0 <= i < head.len() implies found_for(results, #[trigger] head[i])
            is Some by {
            assert(head[i] == hosts[i]);
        }
        lemma_assembled_in_order(head, results);
        assert(found_for(results, hosts[hosts.len() - 1]) is Some);
        assert forall|i: int| 0 <= i < hosts.len() implies Some(
            #[trigger] assembled(hosts, results)[i],
        ) == found_for(results, hosts[i]) by {
            if i < head.len() {
                assert(assembled(hosts, results)[i] == assembled(head, results)[i]);
                assert(head[i] == hosts[i]);
            }
        }
    }
}

/// There are no more resolutions than hosts.
pub proof fn lemma_assembled_len(hosts: Seq<Seq<char>>, results: Seq<HostResultView>)
    ensures
        assembled(hosts, results).len() <= hosts.len(),
    decreases hosts.len(),
{
    if hosts.len() > 0 {
        lemma_assembled_len(hosts.drop_last(), results);
    }
}

/// A host that has to be resolved is one that the cache holds no valid entry
/// for.
pub proof fn lemma_misses(
    entries: Seq<EntryView>,
    settings: SettingsView,
    hosts: Seq<Seq<char>>,
    now_ms: i64,
    host: Seq<char>,
)
    ensures
        misses(entries, settings, hosts, now_ms).contains(host) <==> hosts.contains(host) && cached(
            entries,
            key_for(settings, host),
            now_ms,
        ) is None,
    decreases hosts.len(),
{
    let all = misses(entries, settings, hosts, now_ms);
    if hosts.len() > 0 {
        let head = hosts.drop_last();
        let before = misses(entries, settings, head, now_ms);
        lemma_misses(entries, settings, head, now_ms, host);
        if all.contains(host) {
            let k = choose|k: int| 0 <= k < all.len() && all[k] == host;
            if k < before.len() {
                assert(before[k] == host);
                assert(before.contains(host));
                let m = choose|m: int| 0 <= m < head.len() && head[m] == host;
                assert(hosts[m] == host);
            } else {
                assert(hosts[hosts.len() - 1] == host);
            }
        }
        if hosts.contains(host) && cached(entries, key_for(settings, host), now_ms) is None {
            let m = choose|m: int| 0 <= m < hosts.len() && hosts[m] == host;
            if m < head.len() {
                assert(head[m] == host);
                assert(head.contains(host));
                let k = choose|k: int| 0 <= k < before.len() && before[k] == host;
                assert(all[k] == host);
            } else {
                assert(all[before.len() as int] == host);
            }
        }
    }
}

/// The last update under the key of a host is the last result for that host.
pub proof fn lemma_updates_for(settings: SettingsView, results: Seq<HostResultView>, host: Seq<char>)
    ensures
        last_value(updates_for(settings, results), key_for(settings, host)) == found_for(
            results,
            host,
        ),
    decreases results.len(),
{
    let updates = updates_for(settings, results);
    if results.len() > 0 {
        assert(updates.drop_last() =~= updates_for(settings, results.drop_last()));
        assert(updates.last().key == key_for(settings, results.last().host));
        lemma_updates_for(settings, results.drop_last(), host);
    }
}

/// There are no more new results than resolutions.
pub proof fn lemma_fresh_results_len(resolved: Seq<ChainView>)
    ensures
        fresh_results(resolved).len() <= resolved.len(),
    decreases resolved.len(),
{
    if resolved.len() > 0 {
        lemma_fresh_results_len(resolved.drop_last());
    }
}

/// A host that one batch has resolved is not resolved again by a batch with
/// the same settings that is planned while the entry is valid: it is not
/// among the hosts that the later plan leaves unresolved, and the later
/// batch finds what the first has found. This holds whatever the write of
/// the first batch had to evict, where every entry held before is older than
/// that write and the batch has resolved no more hosts than the cache holds.
pub proof fn lemma_resolved_once(
    entries: Seq<EntryView>,
    settings: SettingsView,
    resolved: Seq<ChainView>,
    write_ts: i64,
    hostnames: Seq<Seq<char>>,
    service_hosts: Option<Seq<Seq<char>>>,
    now_ms: i64,
    host: Seq<char>,
)
    requires
        distinct_keys(entries),
        found_for(fresh_results(resolved), host) is Some,
        forall|i: int| 0 <= i < entries.len() ==> (#[trigger] entries[i]).ts_ms < write_ts,
        resolved.len() <= TOPOLOGY_HOST_CACHE_MAX_ENTRIES,
        fresh(write_ts, now_ms),
    ensures
        ({
            let later = written(
                entries,
                updates_for(settings, fresh_results(resolved)),
                write_ts,
            );
            &&& cached(later, key_for(settings, host), now_ms) == found_for(
                fresh_results(resolved),
                host,
            )
            &&& !planned(later, settings, hostnames, service_hosts, now_ms).unresolved.contains(
                host,
            )
        }),
{
    let results = fresh_results(resolved);
    let updates = updates_for(settings, results);
    let later = written(entries, updates, write_ts);
    lemma_updates_for(settings, results, host);
    lemma_fresh_results_len(resolved);
    lemma_written_then_cached(entries, updates, write_ts, key_for(settings, host), now_ms);
    lemma_misses(later, settings, unique_names(hostnames), now_ms, host);
}

} // verus!
