//! The choices that shape a batch: which resolver to ask, which
//! DNS-over-HTTPS endpoints stand behind it, and the bounds on hops and
//! timeouts.

use vstd::prelude::*;
use crate::text::{
    chars_of, eq_ignore_ascii_case, eq_ignore_case, lowercase, str_eq, string_of, to_lowercase,
    trim, trimmed,
};
use crate::topology::names::{dedup, distinct, lemma_distinct, no_repeats};

verus! {

/// The fewest and the most hops that a chain may be followed.
pub const MIN_HOPS: usize = 1;

pub const MAX_HOPS: usize = 15;

/// The bounds of the time given to one lookup, in milliseconds, and the time
/// given where the caller names none.
pub const MIN_LOOKUP_TIMEOUT_MS: u32 = 250;

pub const MAX_LOOKUP_TIMEOUT_MS: u32 = 10000;

pub const DEFAULT_LOOKUP_TIMEOUT_MS: u32 = 1200;

/// `value` where there is one, else `fallback`.
pub open spec fn or_text(value: Option<Seq<char>>, fallback: Seq<char>) -> Seq<char> {
    match value {
        Some(v) => v,
        None => fallback,
    }
}

/// The DNS-over-HTTPS endpoint of Cloudflare.
pub open spec fn cloudflare_endpoint() -> Seq<char> {
    "https://cloudflare-dns.com/dns-query"@
}

/// The DNS-over-HTTPS endpoint of Google.
pub open spec fn google_endpoint() -> Seq<char> {
    "https://dns.google/resolve"@
}

/// The DNS-over-HTTPS endpoint of Quad9.
pub open spec fn quad9_endpoint() -> Seq<char> {
    "https://dns.quad9.net:5053/dns-query"@
}

/// The server that [`resolve_dns_server`] selects.
///
/// The selection, trimmed, defaults to `1.1.1.1`. Where it reads `custom` in
/// any letter case and a custom server is given, that server is taken. Else
/// the selection itself is taken unless it is empty or reads `__legacy__`;
/// then the provider decides: `google` and `quad9` name their servers, and
/// anything else names Cloudflare's.
pub open spec fn selected_server(
    dns_server: Option<Seq<char>>,
    custom_dns_server: Option<Seq<char>>,
    legacy_provider: Option<Seq<char>>,
) -> Seq<char> {
    let selected = trimmed(or_text(dns_server, "1.1.1.1"@));
    let custom = trimmed(or_text(custom_dns_server, Seq::empty()));
    let provider = lowercase(trimmed(or_text(legacy_provider, "cloudflare"@)));
    if eq_ignore_ascii_case(selected, "custom"@) && custom.len() > 0 {
        custom
    } else if selected.len() > 0 && selected != "__legacy__"@ {
        selected
    } else if provider == "google"@ {
        "8.8.8.8"@
    } else if provider == "quad9"@ {
        "9.9.9.9"@
    } else {
        "1.1.1.1"@
    }
}

/// The endpoint that [`map_dns_server_to_doh_endpoint`] selects.
///
/// A server that reads `custom` takes the custom URL where one is given. The
/// public servers of Cloudflare, Google and Quad9 take their own endpoints.
/// Any other server takes the custom URL where one is given and Cloudflare's
/// endpoint where none is.
pub open spec fn endpoint_for(dns_server: Seq<char>, custom_doh_url: Option<Seq<char>>) -> Seq<
    char,
> {
    let server = trimmed(dns_server);
    let custom = trimmed(or_text(custom_doh_url, Seq::empty()));
    if eq_ignore_ascii_case(server, "custom"@) && custom.len() > 0 {
        custom
    } else if server == "1.1.1.1"@ || server == "1.0.0.1"@ {
        cloudflare_endpoint()
    } else if server == "8.8.8.8"@ || server == "8.8.4.4"@ {
        google_endpoint()
    } else if server == "9.9.9.9"@ || server == "149.112.112.112"@ {
        quad9_endpoint()
    } else if custom.len() > 0 {
        custom
    } else {
        cloudflare_endpoint()
    }
}

/// The endpoints that [`resolve_doh_endpoints`] lists: the one of the
/// selected server first, then the three public ones, none of them twice.
pub open spec fn endpoints_for(
    dns_server: Option<Seq<char>>,
    custom_dns_server: Option<Seq<char>>,
    custom_doh_url: Option<Seq<char>>,
    legacy_provider: Option<Seq<char>>,
) -> Seq<Seq<char>> {
    distinct(
        seq![
            endpoint_for(
                selected_server(dns_server, custom_dns_server, legacy_provider),
                custom_doh_url,
            ),
            cloudflare_endpoint(),
            google_endpoint(),
            quad9_endpoint(),
        ],
    )
}

/// Trims a text.
pub fn trim_text(text: &str) -> (r: String)
    ensures
        r@ == trimmed(text@),
{
    let chars = chars_of(text);
    let inner = trim(&chars);
    string_of(&inner)
}

/// Trims a text where there is one, and the fallback where there is none.
pub fn trimmed_or(value: Option<&str>, fallback: &str) -> (r: String)
    ensures
        r@ == trimmed(or_text(value.deep_view(), fallback@)),
{
    match value {
        Some(v) => trim_text(v),
        None => trim_text(fallback),
    }
}

/// Tells whether `text` reads `custom`, in any letter case.
pub fn reads_custom(text: &str) -> (r: bool)
    ensures
        r == eq_ignore_ascii_case(text@, "custom"@),
{
    let a = chars_of(text);
    let b = chars_of("custom");
    eq_ignore_case(&a, &b)
}

/// Selects the recursive server to ask.
pub fn resolve_dns_server(
    dns_server: Option<&str>,
    custom_dns_server: Option<&str>,
    legacy_provider: Option<&str>,
) -> (r: String)
    ensures
        r@ == selected_server(
            dns_server.deep_view(),
            custom_dns_server.deep_view(),
            legacy_provider.deep_view(),
        ),
{
    proof {
        reveal_strlit("");
    }
    let selected = trimmed_or(dns_server, "1.1.1.1");
    if reads_custom(selected.as_str()) {
        let custom = trimmed_or(custom_dns_server, "");
        if custom.as_str().unicode_len() > 0 {
            return custom;
        }
    }
    if selected.as_str().unicode_len() > 0 && !str_eq(selected.as_str(), "__legacy__") {
        return selected;
    }
    let named = trimmed_or(legacy_provider, "cloudflare");
    let provider = to_lowercase(named.as_str());
    if str_eq(provider.as_str(), "google") {
        String::from_str("8.8.8.8")
    } else if str_eq(provider.as_str(), "quad9") {
        String::from_str("9.9.9.9")
    } else {
        String::from_str("1.1.1.1")
    }
}

/// Selects the DNS-over-HTTPS endpoint that stands for a recursive server.
pub fn map_dns_server_to_doh_endpoint(dns_server: &str, custom_doh_url: Option<&str>) -> (r: String)
    ensures
        r@ == endpoint_for(dns_server@, custom_doh_url.deep_view()),
{
    proof {
        reveal_strlit("");
    }
    let server = trim_text(dns_server);
    let custom = trimmed_or(custom_doh_url, "");
    let has_custom = custom.as_str().unicode_len() > 0;
    if reads_custom(server.as_str()) && has_custom {
        return custom;
    }
    let s = server.as_str();
    if str_eq(s, "1.1.1.1") || str_eq(s, "1.0.0.1") {
        String::from_str("https://cloudflare-dns.com/dns-query")
    } else if str_eq(s, "8.8.8.8") || str_eq(s, "8.8.4.4") {
        String::from_str("https://dns.google/resolve")
    } else if str_eq(s, "9.9.9.9") || str_eq(s, "149.112.112.112") {
        String::from_str("https://dns.quad9.net:5053/dns-query")
    } else if has_custom {
        custom
    } else {
        String::from_str("https://cloudflare-dns.com/dns-query")
    }
}

/// Lists the DNS-over-HTTPS endpoints to fall back on, the preferred one
/// first; no endpoint is listed twice.
pub fn resolve_doh_endpoints(
    dns_server: Option<&str>,
    custom_dns_server: Option<&str>,
    custom_doh_url: Option<&str>,
    legacy_provider: Option<&str>,
) -> (r: Vec<String>)
    ensures
        r.deep_view() == endpoints_for(
            dns_server.deep_view(),
            custom_dns_server.deep_view(),
            custom_doh_url.deep_view(),
            legacy_provider.deep_view(),
        ),
        no_repeats(r.deep_view()),
        1 <= r@.len() <= 4,
{
    let selected = resolve_dns_server(dns_server, custom_dns_server, legacy_provider);
    let preferred = map_dns_server_to_doh_endpoint(selected.as_str(), custom_doh_url);
    let ghost first = preferred@;
    let mut all: Vec<String> = Vec::new();
    all.push(preferred);
    all.push(String::from_str("https://cloudflare-dns.com/dns-query"));
    all.push(String::from_str("https://dns.google/resolve"));
    all.push(String::from_str("https://dns.quad9.net:5053/dns-query"));
    let ghost listed = seq![first, cloudflare_endpoint(), google_endpoint(), quad9_endpoint()];
    proof {
        assert(all.deep_view() =~= listed);
        lemma_distinct(listed);
        lemma_distinct_keeps_first(listed);
    }
    dedup(&all)
}

/// Where `values` is not empty, neither is `distinct(values)`.
pub proof fn lemma_distinct_keeps_first(values: Seq<Seq<char>>)
    requires
        values.len() > 0,
    ensures
        distinct(values).len() > 0,
        distinct(values)[0] == values[0],
    decreases values.len(),
{
    if values.len() == 1 {
        assert(values.drop_last() =~= Seq::<Seq<char>>::empty());
        assert(distinct(values.drop_last()) =~= Seq::<Seq<char>>::empty());
    } else {
        lemma_distinct_keeps_first(values.drop_last());
    }
}

/// What a batch is resolved with.
#[derive(Debug)]
pub struct TopologySettings {
    /// How many aliases a chain is followed through, from 1 to 15.
    pub max_hops: usize,
    /// The time given to one lookup, from 250 to 10000 milliseconds.
    pub lookup_timeout_ms: u32,
    /// Whether reverse lookups are left out.
    pub disable_ptr_lookups: bool,
    /// `doh` where the DNS-over-HTTPS endpoints may be asked.
    pub resolver_mode: String,
    /// The recursive server to ask.
    pub dns_server: String,
    /// The DNS-over-HTTPS endpoints to fall back on; none unless the mode is
    /// `doh`.
    pub doh_endpoints: Vec<String>,
    /// The provider as it enters the cache key.
    pub doh_provider_key: String,
    /// The custom endpoint as it enters the cache key.
    pub doh_custom_key: String,
}

/// The mathematical content of a [`TopologySettings`].
pub struct SettingsView {
    pub max_hops: usize,
    pub lookup_timeout_ms: u32,
    pub disable_ptr_lookups: bool,
    pub resolver_mode: Seq<char>,
    pub dns_server: Seq<char>,
    pub doh_endpoints: Seq<Seq<char>>,
    pub doh_provider_key: Seq<char>,
    pub doh_custom_key: Seq<char>,
}

impl DeepView for TopologySettings {
    type V = SettingsView;

    open spec fn deep_view(&self) -> SettingsView {
        SettingsView {
            max_hops: self.max_hops,
            lookup_timeout_ms: self.lookup_timeout_ms,
            disable_ptr_lookups: self.disable_ptr_lookups,
            resolver_mode: self.resolver_mode@,
            dns_server: self.dns_server@,
            doh_endpoints: self.doh_endpoints.deep_view(),
            doh_provider_key: self.doh_provider_key@,
            doh_custom_key: self.doh_custom_key@,
        }
    }
}

impl View for TopologySettings {
    type V = SettingsView;

    open spec fn view(&self) -> SettingsView {
        self.deep_view()
    }
}

/// The number of hops for a request: 15 where none is named, else the named
/// number brought into the range from 1 to 15.
pub open spec fn hops_for(max_hops: Option<u8>) -> usize {
    match max_hops {
        None => MAX_HOPS,
        Some(n) => if n < 1 {
            MIN_HOPS
        } else if n > 15 {
            MAX_HOPS
        } else {
            n as usize
        },
    }
}

/// The time for one lookup: 1200 ms where none is named, else the named time
/// brought into the range from 250 to 10000 ms.
pub open spec fn timeout_for(lookup_timeout_ms: Option<u32>) -> u32 {
    match lookup_timeout_ms {
        None => DEFAULT_LOOKUP_TIMEOUT_MS,
        Some(n) => if n < MIN_LOOKUP_TIMEOUT_MS {
            MIN_LOOKUP_TIMEOUT_MS
        } else if n > MAX_LOOKUP_TIMEOUT_MS {
            MAX_LOOKUP_TIMEOUT_MS
        } else {
            n
        },
    }
}

/// The settings that [`topology_settings`] derives from a request.
pub open spec fn settings_for(
    max_hops: Option<u8>,
    doh_provider: Option<Seq<char>>,
    doh_custom_url: Option<Seq<char>>,
    resolver_mode: Option<Seq<char>>,
    dns_server: Option<Seq<char>>,
    custom_dns_server: Option<Seq<char>>,
    lookup_timeout_ms: Option<u32>,
    disable_ptr_lookups: Option<bool>,
) -> SettingsView {
    let mode = lowercase(trimmed(or_text(resolver_mode, "dns"@)));
    let server = selected_server(dns_server, custom_dns_server, doh_provider);
    SettingsView {
        max_hops: hops_for(max_hops),
        lookup_timeout_ms: timeout_for(lookup_timeout_ms),
        disable_ptr_lookups: match disable_ptr_lookups {
            Some(b) => b,
            None => false,
        },
        resolver_mode: mode,
        dns_server: server,
        doh_endpoints: if mode == "doh"@ {
            endpoints_for(Some(server), custom_dns_server, doh_custom_url, doh_provider)
        } else {
            Seq::empty()
        },
        doh_provider_key: lowercase(trimmed(or_text(doh_provider, "cloudflare"@))),
        doh_custom_key: trimmed(or_text(doh_custom_url, Seq::empty())),
    }
}

/// Derives the settings of a batch from what the caller asked for, with the
/// defaults and bounds that apply.
pub fn topology_settings(
    max_hops: Option<u8>,
    doh_provider: Option<&str>,
    doh_custom_url: Option<&str>,
    resolver_mode: Option<&str>,
    dns_server: Option<&str>,
    custom_dns_server: Option<&str>,
    lookup_timeout_ms: Option<u32>,
    disable_ptr_lookups: Option<bool>,
) -> (r: TopologySettings)
    ensures
        r@ == settings_for(
            max_hops,
            doh_provider.deep_view(),
            doh_custom_url.deep_view(),
            resolver_mode.deep_view(),
            dns_server.deep_view(),
            custom_dns_server.deep_view(),
            lookup_timeout_ms,
            disable_ptr_lookups,
        ),
        MIN_HOPS <= r.max_hops <= MAX_HOPS,
        MIN_LOOKUP_TIMEOUT_MS <= r.lookup_timeout_ms <= MAX_LOOKUP_TIMEOUT_MS,
{
    proof {
        reveal_strlit("");
        assert(""@ =~= Seq::<char>::empty());
    }
    let hops: usize = match max_hops {
        None => MAX_HOPS,
        Some(n) => if n < 1 {
            MIN_HOPS
        } else if n > 15 {
            MAX_HOPS
        } else {
            n as usize
        },
    };
    let timeout: u32 = match lookup_timeout_ms {
        None => DEFAULT_LOOKUP_TIMEOUT_MS,
        Some(n) => if n < MIN_LOOKUP_TIMEOUT_MS {
            MIN_LOOKUP_TIMEOUT_MS
        } else if n > MAX_LOOKUP_TIMEOUT_MS {
            MAX_LOOKUP_TIMEOUT_MS
        } else {
            n
        },
    };
    let disable = match disable_ptr_lookups {
        Some(b) => b,
        None => false,
    };
    let mode_text = trimmed_or(resolver_mode, "dns");
    let mode = to_lowercase(mode_text.as_str());
    let server = resolve_dns_server(dns_server, custom_dns_server, doh_provider);
    let endpoints = if str_eq(mode.as_str(), "doh") {
        resolve_doh_endpoints(
            Some(server.as_str()),
            custom_dns_server,
            doh_custom_url,
            doh_provider,
        )
    } else {
        let none: Vec<String> = Vec::new();
        proof {
            assert(none.deep_view() =~= Seq::<Seq<char>>::empty());
        }
        none
    };
    let provider_text = trimmed_or(doh_provider, "cloudflare");
    TopologySettings {
        max_hops: hops,
        lookup_timeout_ms: timeout,
        disable_ptr_lookups: disable,
        resolver_mode: mode,
        dns_server: server,
        doh_endpoints: endpoints,
        doh_provider_key: to_lowercase(provider_text.as_str()),
        doh_custom_key: trimmed_or(doh_custom_url, ""),
    }
}

} // verus!
