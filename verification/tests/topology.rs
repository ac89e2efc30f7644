use domain_audit::dns::{Channel, DnsSnapshot, Question, RecordKind, Reply};
use domain_audit::topology::batch::{
    cache_key, chunks, plan_topology_batch, probe_chunks, probe_urls, resolve_chunks,
    resolve_topology_batch, ServiceProbeResult,
};
use domain_audit::topology::cache::{
    CacheUpdate, TopologyHostCache, TOPOLOGY_HOST_CACHE_MAX_ENTRIES, TOPOLOGY_HOST_CACHE_TTL_MS,
};
use domain_audit::topology::chain::{resolve_chain_for_host, ChainProgress, HostnameChainResult};
use domain_audit::topology::doh::{
    clean_values, doh_race_endpoints, doh_record_type, doh_values, query_doh_records,
};
use domain_audit::topology::names::{normalize_domain, unique_hosts};
use domain_audit::topology::settings::{
    map_dns_server_to_doh_endpoint, resolve_dns_server, resolve_doh_endpoints, topology_settings,
    TopologySettings,
};

fn texts(values: &[&str]) -> Vec<String> {
    values.iter().map(|v| v.to_string()).collect()
}

struct Net {
    records: Vec<(RecordKind, Channel, String, Vec<String>)>,
    asked: Vec<(RecordKind, Channel, String)>,
}

impl Net {
    fn new() -> Net {
        Net { records: Vec::new(), asked: Vec::new() }
    }

    fn with(mut self, kind: RecordKind, channel: Channel, name: &str, values: &[&str]) -> Net {
        self.records.push((kind, channel, name.to_string(), texts(values)));
        self
    }

    fn answer(&mut self, question: &Question) -> Reply {
        self.asked.push((question.kind, question.channel, question.name.clone()));
        for (kind, channel, name, values) in &self.records {
            if *kind == question.kind && *channel == question.channel && *name == question.name {
                return Reply::Records(values.clone());
            }
        }
        Reply::Failed("timed out".to_string())
    }
}

fn resolve(net: &mut Net, endpoints: &[&str], host: &str, hops: usize, no_ptr: bool) -> HostnameChainResult {
    let endpoints = texts(endpoints);
    let mut dns = DnsSnapshot::new();
    for _ in 0..1000 {
        match resolve_chain_for_host(&dns, &endpoints, host, hops, no_ptr) {
            ChainProgress::Need(questions) => {
                assert!(!questions.is_empty());
                for question in questions {
                    assert!(dns.find(question.kind, question.channel, &question.name).is_none());
                    let reply = net.answer(&question);
                    dns.record(question, reply);
                }
            }
            ChainProgress::Done(result) => return result,
        }
    }
    panic!("the resolution did not end");
}

fn settings() -> TopologySettings {
    topology_settings(None, None, None, None, None, None, None, None)
}

fn result_for(host: &str, ip: &str) -> HostnameChainResult {
    HostnameChainResult {
        name: host.to_string(),
        chain: vec![host.to_string()],
        terminal: host.to_string(),
        ipv4: vec![ip.to_string()],
        ipv6: Vec::new(),
        reverse_hostnames: Vec::new(),
        error: None,
    }
}

#[test]
fn host_names_are_trimmed_undotted_and_lowered() {
    assert_eq!(normalize_domain("  WWW.Example.COM.. \n"), "www.example.com");
    assert_eq!(normalize_domain("example.com"), "example.com");
    assert_eq!(normalize_domain(" . "), "");
    assert_eq!(normalize_domain(""), "");
    assert_eq!(normalize_domain("a. .b"), "a. .b");
    assert_eq!(normalize_domain("BÜCHER.example"), "bücher.example");
}

#[test]
fn repeated_hosts_keep_their_first_place() {
    let hosts = unique_hosts(&texts(&["b.example", "a.example", "b.example"]));
    assert_eq!(hosts, texts(&["b.example", "a.example"]));
    let mixed = unique_hosts(&texts(&[" B.example. ", "", "a.example", "b.EXAMPLE", " . "]));
    assert_eq!(mixed, texts(&["b.example", "a.example"]));
    assert!(unique_hosts(&Vec::new()).is_empty());
}

#[test]
fn the_server_is_selected_as_asked() {
    assert_eq!(resolve_dns_server(None, None, None), "1.1.1.1");
    assert_eq!(resolve_dns_server(Some(" 8.8.4.4 "), None, None), "8.8.4.4");
    assert_eq!(resolve_dns_server(Some("CUSTOM"), Some(" 10.0.0.53 "), None), "10.0.0.53");
    assert_eq!(resolve_dns_server(Some("Custom"), Some("  "), None), "Custom");
    assert_eq!(resolve_dns_server(Some("custom"), None, Some("google")), "custom");
    assert_eq!(resolve_dns_server(Some(""), None, Some(" Google ")), "8.8.8.8");
    assert_eq!(resolve_dns_server(Some("__legacy__"), None, Some("QUAD9")), "9.9.9.9");
    assert_eq!(resolve_dns_server(Some("__legacy__"), None, Some("cloudflare")), "1.1.1.1");
    assert_eq!(resolve_dns_server(Some("__legacy__"), None, Some("other")), "1.1.1.1");
    assert_eq!(resolve_dns_server(Some("__legacy__"), None, None), "1.1.1.1");
}

#[test]
fn servers_map_to_their_endpoints() {
    let cf = "https://cloudflare-dns.com/dns-query";
    let google = "https://dns.google/resolve";
    let quad9 = "https://dns.quad9.net:5053/dns-query";
    assert_eq!(map_dns_server_to_doh_endpoint("1.1.1.1", None), cf);
    assert_eq!(map_dns_server_to_doh_endpoint(" 1.0.0.1 ", Some("https://x/")), cf);
    assert_eq!(map_dns_server_to_doh_endpoint("8.8.8.8", None), google);
    assert_eq!(map_dns_server_to_doh_endpoint("8.8.4.4", None), google);
    assert_eq!(map_dns_server_to_doh_endpoint("9.9.9.9", None), quad9);
    assert_eq!(map_dns_server_to_doh_endpoint("149.112.112.112", None), quad9);
    assert_eq!(map_dns_server_to_doh_endpoint("custom", Some(" https://x/ ")), "https://x/");
    assert_eq!(map_dns_server_to_doh_endpoint("custom", Some(" ")), cf);
    assert_eq!(map_dns_server_to_doh_endpoint("10.0.0.53", Some("https://x/")), "https://x/");
    assert_eq!(map_dns_server_to_doh_endpoint("10.0.0.53", None), cf);
}

#[test]
fn endpoints_are_listed_once_each() {
    let cf = "https://cloudflare-dns.com/dns-query";
    let google = "https://dns.google/resolve";
    let quad9 = "https://dns.quad9.net:5053/dns-query";
    assert_eq!(resolve_doh_endpoints(None, None, None, None), texts(&[cf, google, quad9]));
    assert_eq!(
        resolve_doh_endpoints(Some("9.9.9.9"), None, None, None),
        texts(&[quad9, cf, google])
    );
    assert_eq!(
        resolve_doh_endpoints(Some("custom"), Some("10.0.0.53"), Some("https://x/"), None),
        texts(&["https://x/", cf, google, quad9])
    );
}

#[test]
fn settings_come_with_defaults_and_bounds() {
    let plain = settings();
    assert_eq!(plain.max_hops, 15);
    assert_eq!(plain.lookup_timeout_ms, 1200);
    assert!(!plain.disable_ptr_lookups);
    assert_eq!(plain.resolver_mode, "dns");
    assert_eq!(plain.dns_server, "1.1.1.1");
    assert!(plain.doh_endpoints.is_empty());
    assert_eq!(plain.doh_provider_key, "cloudflare");
    assert_eq!(plain.doh_custom_key, "");
    let low = topology_settings(Some(0), None, None, None, None, None, Some(1), Some(true));
    assert_eq!((low.max_hops, low.lookup_timeout_ms, low.disable_ptr_lookups), (1, 250, true));
    let high = topology_settings(Some(200), None, None, None, None, None, Some(60000), None);
    assert_eq!((high.max_hops, high.lookup_timeout_ms), (15, 10000));
    let doh = topology_settings(
        Some(7),
        Some(" Google "),
        Some(" https://x/ "),
        Some(" DoH "),
        Some("8.8.8.8"),
        None,
        Some(900),
        None,
    );
    assert_eq!(doh.max_hops, 7);
    assert_eq!(doh.lookup_timeout_ms, 900);
    assert_eq!(doh.resolver_mode, "doh");
    assert_eq!(doh.doh_provider_key, "google");
    assert_eq!(doh.doh_custom_key, "https://x/");
    assert_eq!(doh.doh_endpoints[0], "https://dns.google/resolve");
    assert_eq!(doh.doh_endpoints.len(), 3);
}

#[test]
fn doh_answers_are_trimmed_and_listed_once() {
    let answers = vec![
        Some(" 192.0.2.1 ".to_string()),
        None,
        Some("".to_string()),
        Some("192.0.2.1".to_string()),
        Some("192.0.2.2".to_string()),
    ];
    assert_eq!(doh_values(&answers, RecordKind::A), texts(&["192.0.2.1", "192.0.2.2"]));
    let names = vec![Some(" Target.Example.COM. ".to_string()), Some(" . ".to_string())];
    assert_eq!(doh_values(&names, RecordKind::Cname), texts(&["target.example.com"]));
    assert_eq!(doh_values(&names, RecordKind::A), texts(&["Target.Example.COM.", "."]));
    assert!(doh_values(&Vec::new(), RecordKind::A).is_empty());
}

#[test]
fn a_race_has_three_runners_and_the_first_answer_wins() {
    let five = texts(&["a", "b", "c", "d", "e"]);
    assert_eq!(doh_race_endpoints(&five), texts(&["a", "b", "c"]));
    assert_eq!(doh_race_endpoints(&texts(&["a"])), texts(&["a"]));
    assert!(doh_race_endpoints(&Vec::new()).is_empty());
    let responses = vec![
        vec![None, Some(" ".to_string())],
        vec![Some("192.0.2.9".to_string())],
        vec![Some("192.0.2.10".to_string())],
    ];
    assert_eq!(query_doh_records(&responses, RecordKind::A), texts(&["192.0.2.9"]));
    assert!(query_doh_records(&Vec::new(), RecordKind::A).is_empty());
    assert_eq!(doh_record_type(RecordKind::Cname).as_deref(), Some("CNAME"));
    assert_eq!(doh_record_type(RecordKind::A).as_deref(), Some("A"));
    assert_eq!(doh_record_type(RecordKind::Aaaa).as_deref(), Some("AAAA"));
    assert_eq!(doh_record_type(RecordKind::Address), None);
}

#[test]
fn a_name_without_records_is_unresolved() {
    let mut net = Net::new();
    let result = resolve(&mut net, &[], "Nothing.Example.", 15, false);
    assert_eq!(result.name, "nothing.example");
    assert_eq!(result.chain, texts(&["nothing.example"]));
    assert_eq!(result.terminal, "nothing.example");
    assert!(result.ipv4.is_empty() && result.ipv6.is_empty());
    assert!(result.reverse_hostnames.is_empty());
    assert_eq!(result.error.as_deref(), Some("no CNAME/A/AAAA records found"));
    assert_eq!(
        net.asked,
        vec![
            (RecordKind::Cname, Channel::Resolver, "nothing.example".to_string()),
            (RecordKind::A, Channel::Resolver, "nothing.example".to_string()),
            (RecordKind::Aaaa, Channel::Resolver, "nothing.example".to_string()),
        ]
    );
    let mut net = Net::new();
    let with_doh = resolve(&mut net, &["https://dns.google/resolve"], "nothing.example", 15, false);
    assert_eq!(with_doh.error.as_deref(), Some("no CNAME/A/AAAA records found"));
    assert_eq!(with_doh.chain.len(), 1);
    assert_eq!(net.asked.len(), 6);
}

#[test]
fn an_empty_name_is_an_error_at_once() {
    let mut net = Net::new();
    let result = resolve(&mut net, &[], " . ", 15, false);
    assert_eq!(result.name, "");
    assert!(result.chain.is_empty());
    assert_eq!(result.terminal, "");
    assert_eq!(result.error.as_deref(), Some("empty hostname"));
    assert!(net.asked.is_empty());
}

#[test]
fn a_chain_is_followed_to_its_addresses() {
    let mut net = Net::new()
        .with(RecordKind::Cname, Channel::Resolver, "www.example.com", &["Edge.Example.NET."])
        .with(RecordKind::Cname, Channel::Resolver, "edge.example.net", &["lb.example.org."])
        .with(RecordKind::A, Channel::Resolver, "lb.example.org", &["192.0.2.1", "192.0.2.1", "192.0.2.2"])
        .with(RecordKind::Aaaa, Channel::Resolver, "lb.example.org", &["2001:db8::1"])
        .with(RecordKind::Ptr, Channel::Resolver, "192.0.2.1", &["LB1.example.org.", "lb1.example.org"])
        .with(RecordKind::Ptr, Channel::Resolver, "2001:db8::1", &["lb6.example.org."]);
    let result = resolve(&mut net, &[], "www.example.com", 15, false);
    assert_eq!(result.chain, texts(&["www.example.com", "edge.example.net", "lb.example.org"]));
    assert_eq!(result.terminal, "lb.example.org");
    assert_eq!(result.ipv4, texts(&["192.0.2.1", "192.0.2.2"]));
    assert_eq!(result.ipv6, texts(&["2001:db8::1"]));
    assert_eq!(result.error, None);
    assert_eq!(result.reverse_hostnames.len(), 2);
    assert_eq!(result.reverse_hostnames[0].ip, "192.0.2.1");
    assert_eq!(result.reverse_hostnames[0].hostnames, texts(&["lb1.example.org"]));
    assert_eq!(result.reverse_hostnames[1].ip, "2001:db8::1");
    assert_eq!(result.reverse_hostnames[1].hostnames, texts(&["lb6.example.org"]));
}

#[test]
fn a_chain_stops_at_a_name_met_before_and_at_the_hop_limit() {
    let mut net = Net::new()
        .with(RecordKind::Cname, Channel::Resolver, "a.example", &["b.example"])
        .with(RecordKind::Cname, Channel::Resolver, "b.example", &["a.example"]);
    let looped = resolve(&mut net, &[], "a.example", 15, true);
    assert_eq!(looped.chain, texts(&["a.example", "b.example"]));
    assert_eq!(looped.terminal, "b.example");
    assert_eq!(looped.error, None);
    let mut net = Net::new()
        .with(RecordKind::Cname, Channel::Resolver, "h0.example", &["h1.example"])
        .with(RecordKind::Cname, Channel::Resolver, "h1.example", &["h2.example"])
        .with(RecordKind::Cname, Channel::Resolver, "h2.example", &["h3.example"]);
    let limited = resolve(&mut net, &[], "h0.example", 2, true);
    assert_eq!(limited.chain, texts(&["h0.example", "h1.example", "h2.example"]));
    assert!(!net.asked.contains(&(RecordKind::Cname, Channel::Resolver, "h2.example".to_string())));
}

#[test]
fn endpoints_are_asked_only_for_what_the_resolver_lacks() {
    let endpoint = ["https://dns.google/resolve"];
    let mut net = Net::new()
        .with(RecordKind::Cname, Channel::Https, "www.example.com", &["target.example.com"])
        .with(RecordKind::A, Channel::Resolver, "target.example.com", &["192.0.2.1"])
        .with(RecordKind::Aaaa, Channel::Https, "target.example.com", &["2001:db8::5", "2001:db8::6"]);
    let result = resolve(&mut net, &endpoint, "www.example.com", 15, true);
    assert_eq!(result.chain, texts(&["www.example.com", "target.example.com"]));
    assert_eq!(result.ipv4, texts(&["192.0.2.1"]));
    assert_eq!(result.ipv6, texts(&["2001:db8::5", "2001:db8::6"]));
    assert!(!net.asked.contains(&(RecordKind::A, Channel::Https, "target.example.com".to_string())));
    assert!(net.asked.contains(&(RecordKind::Aaaa, Channel::Https, "target.example.com".to_string())));
    assert!(result.reverse_hostnames.is_empty());
    let mut net = Net::new()
        .with(RecordKind::Cname, Channel::Https, "www.example.com", &["target.example.com"]);
    let without = resolve(&mut net, &[], "www.example.com", 15, true);
    assert_eq!(without.chain, texts(&["www.example.com"]));
    assert!(net.asked.iter().all(|(_, channel, _)| *channel == Channel::Resolver));
}

#[test]
fn both_families_are_asked_at_the_same_time() {
    let mut dns = DnsSnapshot::new();
    dns.record(Question::new(RecordKind::Cname, "example.com"), Reply::Records(Vec::new()));
    match resolve_chain_for_host(&dns, &Vec::new(), "example.com", 15, false) {
        ChainProgress::Need(questions) => {
            let kinds: Vec<RecordKind> = questions.iter().map(|q| q.kind).collect();
            assert_eq!(kinds, vec![RecordKind::A, RecordKind::Aaaa]);
        }
        ChainProgress::Done(_) => panic!("done without addresses"),
    }
    dns.record(Question::new(RecordKind::A, "example.com"), Reply::Failed("timeout".to_string()));
    match resolve_chain_for_host(&dns, &Vec::new(), "example.com", 15, false) {
        ChainProgress::Need(questions) => {
            assert_eq!(questions.len(), 1);
            assert_eq!(questions[0].kind, RecordKind::Aaaa);
        }
        ChainProgress::Done(_) => panic!("done without addresses"),
    }
}

#[test]
fn addresses_that_are_no_addresses_are_not_looked_up_in_reverse() {
    let mut net = Net::new()
        .with(RecordKind::A, Channel::Https, "odd.example", &["not-an-address", "192.0.2.77"])
        .with(RecordKind::Ptr, Channel::Resolver, "192.0.2.77", &[" . "]);
    let result = resolve(&mut net, &["https://dns.google/resolve"], "odd.example", 15, false);
    assert_eq!(result.ipv4, texts(&["not-an-address", "192.0.2.77"]));
    assert!(result.reverse_hostnames.is_empty());
    assert!(!net.asked.contains(&(RecordKind::Ptr, Channel::Resolver, "not-an-address".to_string())));
    assert!(net.asked.contains(&(RecordKind::Ptr, Channel::Resolver, "192.0.2.77".to_string())));
}

#[test]
fn cache_entries_expire_after_five_minutes() {
    assert_eq!(TOPOLOGY_HOST_CACHE_TTL_MS, 300_000);
    assert_eq!(TOPOLOGY_HOST_CACHE_MAX_ENTRIES, 6000);
    let settings = settings();
    let key = cache_key(&settings, "a.example");
    let mut cache = TopologyHostCache::new();
    assert!(cache.get(&key, 0).is_none());
    cache.write_batch(
        &vec![CacheUpdate { key: cache_key(&settings, "a.example"), value: result_for("a.example", "192.0.2.1") }],
        1_000,
    );
    assert_eq!(cache.len(), 1);
    assert_eq!(cache.get(&key, 1_000).expect("hit").ipv4, texts(&["192.0.2.1"]));
    assert!(cache.get(&key, 301_000).is_some());
    assert!(cache.get(&key, 301_001).is_none());
    assert!(cache.get(&key, 0).is_some());
    assert_eq!(cache.len(), 1);
    let other = topology_settings(Some(3), None, None, None, None, None, None, None);
    assert!(cache.get(&cache_key(&other, "a.example"), 1_000).is_none());
    assert!(cache.get(&cache_key(&settings, "b.example"), 1_000).is_none());
}

#[test]
fn a_write_refreshes_sweeps_and_evicts_the_oldest() {
    let settings = settings();
    let mut cache = TopologyHostCache::new();
    let update = |host: &str, ip: &str| CacheUpdate {
        key: cache_key(&settings, host),
        value: result_for(host, ip),
    };
    cache.write_batch(&vec![update("old.example", "192.0.2.1"), update("kept.example", "192.0.2.2")], 0);
    cache.write_batch(&vec![update("kept.example", "192.0.2.3")], 200_000);
    assert_eq!(cache.len(), 2);
    assert_eq!(
        cache.get(&cache_key(&settings, "kept.example"), 200_000).expect("hit").ipv4,
        texts(&["192.0.2.3"])
    );
    cache.write_batch(&Vec::new(), 900_000);
    assert_eq!(cache.len(), 2);
    cache.write_batch(&vec![update("new.example", "192.0.2.4")], 400_000);
    assert_eq!(cache.len(), 2);
    assert!(cache.get(&cache_key(&settings, "old.example"), 400_000).is_none());
    assert!(cache.get(&cache_key(&settings, "kept.example"), 400_000).is_some());
    let mut many = Vec::new();
    for n in 0..TOPOLOGY_HOST_CACHE_MAX_ENTRIES {
        many.push(update(&format!("h{}.example", n), "192.0.2.9"));
    }
    cache.write_batch(&many, 400_001);
    assert_eq!(cache.len(), TOPOLOGY_HOST_CACHE_MAX_ENTRIES);
    assert!(cache.get(&cache_key(&settings, "kept.example"), 400_001).is_none());
    assert!(cache.get(&cache_key(&settings, "new.example"), 400_001).is_none());
    assert!(cache.get(&cache_key(&settings, "h0.example"), 400_001).is_some());
    assert!(cache.get(&cache_key(&settings, "h5999.example"), 400_001).is_some());
}

#[test]
fn hosts_are_cut_into_portions() {
    let hosts: Vec<String> = (0..35).map(|n| format!("h{}.example", n)).collect();
    let portions = resolve_chunks(&hosts);
    assert_eq!(portions.iter().map(|p| p.len()).collect::<Vec<_>>(), vec![16, 16, 3]);
    assert_eq!(portions.concat(), hosts);
    let probes = probe_chunks(&hosts[..16].to_vec());
    assert_eq!(probes.iter().map(|p| p.len()).collect::<Vec<_>>(), vec![8, 8]);
    assert!(chunks(&Vec::new(), 4).is_empty());
    assert_eq!(chunks(&texts(&["a", "b", "c"]), 1).len(), 3);
}

#[test]
fn probes_go_to_both_schemes() {
    let (https, http) = probe_urls("example.com");
    assert_eq!(https, "https://example.com");
    assert_eq!(http, "http://example.com");
}

#[test]
fn a_batch_lists_each_host_once_in_the_order_asked() {
    let settings = settings();
    let mut cache = TopologyHostCache::new();
    let plan = plan_topology_batch(
        &cache,
        &settings,
        &texts(&["b.example", "a.example", "b.example"]),
        &Some(texts(&["svc.example", "SVC.example."])),
        10,
    );
    assert_eq!(plan.hosts, texts(&["b.example", "a.example"]));
    assert_eq!(plan.unresolved, texts(&["b.example", "a.example"]));
    assert!(plan.cached.is_empty());
    assert_eq!(plan.probe_hosts, texts(&["svc.example"]));
    let resolved = vec![result_for("a.example", "192.0.2.1"), result_for("b.example", "192.0.2.2")];
    let probes = vec![ServiceProbeResult { host: "svc.example".to_string(), https_up: true, http_up: false }];
    let result = resolve_topology_batch(&mut cache, &settings, &plan, &resolved, probes, 20);
    assert_eq!(result.resolutions.len(), 2);
    assert_eq!(result.resolutions[0].name, "b.example");
    assert_eq!(result.resolutions[1].name, "a.example");
    assert_eq!(result.probes.len(), 1);
    assert!(result.probes[0].https_up && !result.probes[0].http_up);
    assert_eq!(cache.len(), 2);
}

#[test]
fn a_second_batch_within_the_time_to_live_resolves_nothing() {
    let settings = settings();
    let mut cache = TopologyHostCache::new();
    let names = texts(&["www.example.com"]);
    let first = plan_topology_batch(&cache, &settings, &names, &None, 1_000);
    assert_eq!(first.unresolved, names);
    let resolved = vec![result_for("www.example.com", "192.0.2.1")];
    let _ = resolve_topology_batch(&mut cache, &settings, &first, &resolved, Vec::new(), 1_500);
    let second = plan_topology_batch(&cache, &settings, &texts(&["WWW.example.com."]), &None, 200_000);
    assert!(second.unresolved.is_empty());
    assert_eq!(second.cached.len(), 1);
    assert_eq!(second.cached[0].host, "www.example.com");
    let again = resolve_topology_batch(&mut cache, &settings, &second, &Vec::new(), Vec::new(), 200_500);
    assert_eq!(again.resolutions.len(), 1);
    assert_eq!(again.resolutions[0].ipv4, texts(&["192.0.2.1"]));
    let late = plan_topology_batch(&cache, &settings, &names, &None, 301_501);
    assert_eq!(late.unresolved, names);
    let other = topology_settings(None, None, None, Some("doh"), None, None, None, None);
    let elsewhere = plan_topology_batch(&cache, &other, &names, &None, 2_000);
    assert_eq!(elsewhere.unresolved, names);
}

#[test]
fn a_host_without_a_result_is_left_out_and_new_results_win() {
    let settings = settings();
    let mut cache = TopologyHostCache::new();
    let names = texts(&["a.example", "b.example", "c.example"]);
    let warm = plan_topology_batch(&cache, &settings, &texts(&["a.example"]), &None, 0);
    let _ = resolve_topology_batch(
        &mut cache,
        &settings,
        &warm,
        &vec![result_for("a.example", "192.0.2.1")],
        Vec::new(),
        0,
    );
    let plan = plan_topology_batch(&cache, &settings, &names, &None, 10);
    assert_eq!(plan.unresolved, texts(&["b.example", "c.example"]));
    let mut unnamed = result_for("", "192.0.2.8");
    unnamed.name = " . ".to_string();
    let resolved = vec![
        result_for("c.example", "192.0.2.3"),
        unnamed,
        result_for("A.example.", "192.0.2.9"),
        result_for("c.example", "192.0.2.4"),
    ];
    let result = resolve_topology_batch(&mut cache, &settings, &plan, &resolved, Vec::new(), 20);
    let found: Vec<(String, String)> =
        result.resolutions.iter().map(|r| (r.name.clone(), r.ipv4[0].clone())).collect();
    assert_eq!(
        found,
        vec![
            ("A.example.".to_string(), "192.0.2.9".to_string()),
            ("c.example".to_string(), "192.0.2.4".to_string()),
        ]
    );
    assert_eq!(cache.len(), 2);
}

fn run_batch(
    cache: &mut TopologyHostCache,
    net: &mut Net,
    hosts: &[&str],
    now_ms: i64,
) -> Vec<HostnameChainResult> {
    let settings = settings();
    let plan = plan_topology_batch(cache, &settings, &texts(hosts), &None, now_ms);
    let mut resolved = Vec::new();
    for portion in resolve_chunks(&plan.unresolved) {
        for host in portion {
            resolved.push(resolve(net, &[], &host, settings.max_hops, settings.disable_ptr_lookups));
        }
    }
    resolve_topology_batch(cache, &settings, &plan, &resolved, Vec::new(), now_ms).resolutions
}

#[test]
fn a_host_in_the_cache_costs_no_lookup() {
    let mut cache = TopologyHostCache::new();
    let mut net = Net::new()
        .with(RecordKind::A, Channel::Resolver, "www.example.com", &["192.0.2.1"])
        .with(RecordKind::A, Channel::Resolver, "other.example.com", &["192.0.2.2"]);
    let first = run_batch(&mut cache, &mut net, &["www.example.com"], 1_000);
    assert_eq!(first.len(), 1);
    assert_eq!(first[0].ipv4, texts(&["192.0.2.1"]));
    let after_first = net.asked.len();
    assert!(after_first > 0);
    let second = run_batch(&mut cache, &mut net, &["www.example.com"], 300_000);
    assert_eq!(net.asked.len(), after_first);
    assert_eq!(second.len(), 1);
    assert_eq!(second[0].ipv4, first[0].ipv4);
    let mixed = run_batch(&mut cache, &mut net, &["other.example.com", "www.example.com"], 300_500);
    assert!(net.asked.len() > after_first);
    assert!(net.asked[after_first..]
        .iter()
        .all(|(_, _, name)| name == "other.example.com" || name == "192.0.2.2"));
    assert_eq!(mixed.len(), 2);
    assert_eq!(mixed[0].name, "other.example.com");
    let after_mixed = net.asked.len();
    let late = run_batch(&mut cache, &mut net, &["www.example.com"], 302_000);
    assert!(net.asked.len() > after_mixed);
    assert_eq!(late.len(), 1);
}

#[test]
fn what_the_endpoints_answer_is_read_clean() {
    let endpoint = ["https://dns.google/resolve"];
    let mut net = Net::new()
        .with(RecordKind::Cname, Channel::Https, "www.example.com", &["  ", " Target.Example.COM. "])
        .with(
            RecordKind::A,
            Channel::Https,
            "target.example.com",
            &["192.0.2.9", " 192.0.2.9 ", "", "192.0.2.10", "192.0.2.9"],
        )
        .with(
            RecordKind::Aaaa,
            Channel::Https,
            "target.example.com",
            &["2001:db8::5", "2001:db8::5"],
        )
        .with(RecordKind::Ptr, Channel::Resolver, "192.0.2.9", &["Host.Example.", "host.example", " "])
        .with(RecordKind::Ptr, Channel::Resolver, "2001:db8::5", &["six.example."]);
    let result = resolve(&mut net, &endpoint, "www.example.com", 15, false);
    assert_eq!(result.chain, texts(&["www.example.com", "target.example.com"]));
    assert_eq!(result.ipv4, texts(&["192.0.2.9", "192.0.2.10"]));
    assert_eq!(result.ipv6, texts(&["2001:db8::5"]));
    assert_eq!(result.reverse_hostnames.len(), 2);
    assert_eq!(result.reverse_hostnames[0].ip, "192.0.2.9");
    assert_eq!(result.reverse_hostnames[0].hostnames, texts(&["host.example"]));
    assert_eq!(result.reverse_hostnames[1].ip, "2001:db8::5");
    assert_eq!(result.reverse_hostnames[1].hostnames, texts(&["six.example"]));
    let asked_ptr = net
        .asked
        .iter()
        .filter(|(kind, _, name)| *kind == RecordKind::Ptr && name == "192.0.2.9")
        .count();
    assert_eq!(asked_ptr, 1);
}

#[test]
fn an_address_of_both_families_is_looked_up_in_reverse_once() {
    let endpoint = ["https://dns.google/resolve"];
    let mut net = Net::new()
        .with(RecordKind::A, Channel::Https, "odd.example", &["192.0.2.1"])
        .with(RecordKind::Aaaa, Channel::Https, "odd.example", &["192.0.2.1", "2001:db8::1"])
        .with(RecordKind::Ptr, Channel::Resolver, "192.0.2.1", &["one.example"])
        .with(RecordKind::Ptr, Channel::Resolver, "2001:db8::1", &["two.example"]);
    let result = resolve(&mut net, &endpoint, "odd.example", 15, false);
    let ips: Vec<&str> = result.reverse_hostnames.iter().map(|r| r.ip.as_str()).collect();
    assert_eq!(ips, vec!["192.0.2.1", "2001:db8::1"]);
}

#[test]
fn recorded_values_are_cleaned_as_an_answer_is() {
    assert_eq!(
        clean_values(&texts(&[" a.example ", "", "a.example", "B.example."]), RecordKind::A),
        texts(&["a.example", "B.example."])
    );
    assert_eq!(
        clean_values(&texts(&[" A.example. ", "a.example", " . "]), RecordKind::Cname),
        texts(&["a.example"])
    );
    assert!(clean_values(&Vec::new(), RecordKind::A).is_empty());
}

#[test]
fn what_a_batch_writes_into_a_full_cache_is_found_again() {
    let settings = settings();
    let mut cache = TopologyHostCache::new();
    let update = |host: String| CacheUpdate {
        key: cache_key(&settings, &host),
        value: result_for(&host, "192.0.2.9"),
    };
    let first: Vec<CacheUpdate> =
        (0..TOPOLOGY_HOST_CACHE_MAX_ENTRIES).map(|n| update(format!("h{}.example", n))).collect();
    cache.write_batch(&first, 1_000);
    assert_eq!(cache.len(), TOPOLOGY_HOST_CACHE_MAX_ENTRIES);
    let second = vec![update("new.example".to_string()), update("h7.example".to_string())];
    cache.write_batch(&second, 2_000);
    assert_eq!(cache.len(), TOPOLOGY_HOST_CACHE_MAX_ENTRIES);
    assert!(cache.get(&cache_key(&settings, "new.example"), 2_000).is_some());
    assert!(cache.get(&cache_key(&settings, "h7.example"), 2_000).is_some());
    assert!(cache.get(&cache_key(&settings, "new.example"), 302_000).is_some());
    assert!(cache.get(&cache_key(&settings, "h0.example"), 2_000).is_none());
    assert!(cache.get(&cache_key(&settings, "h1.example"), 2_000).is_some());
}

#[test]
fn an_entry_refreshed_at_the_time_of_the_entries_held_may_leave() {
    let settings = settings();
    let mut cache = TopologyHostCache::new();
    let update = |host: String| CacheUpdate {
        key: cache_key(&settings, &host),
        value: result_for(&host, "192.0.2.9"),
    };
    let first: Vec<CacheUpdate> =
        (0..TOPOLOGY_HOST_CACHE_MAX_ENTRIES).map(|n| update(format!("h{}.example", n))).collect();
    cache.write_batch(&first, 1_000);
    let second = vec![update("h0.example".to_string()), update("new.example".to_string())];
    cache.write_batch(&second, 1_000);
    assert_eq!(cache.len(), TOPOLOGY_HOST_CACHE_MAX_ENTRIES);
    assert!(cache.get(&cache_key(&settings, "h0.example"), 1_000).is_none());
    assert!(cache.get(&cache_key(&settings, "new.example"), 1_000).is_some());
}
