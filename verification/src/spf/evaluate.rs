//! Evaluation of a domain's policy for one candidate address.
//!
//! The evaluation reads the answers in a [`DnsSnapshot`]. Where it meets a
//! lookup that has no answer yet it stops and names the question; with the
//! answer recorded, a new call goes further. Its result is a function of the
//! answers alone, given by [`evaluate`].

use vstd::prelude::*;
use crate::address::{address_of, ip_matches_cidr, matches_cidr, parse_address, IpAddress};
use crate::dns::{
    ask, lemma_record, Channel, DnsSnapshot, DnsView, Question, QuestionView, RecordKind, Reply,
    ReplyView,
};
use crate::spf::record::{
    has_spf_tag, lemma_minus_all_record, parse_spf, parsed_spf, starts_with_spf_tag,
    MechanismView, ModifierView, RecordView, SPFMechanism, SPFModifier, SPFRecord,
};
use crate::text::{chars_of, ends_with, has_suffix, lowercase, str_eq, to_lowercase};

verus! {

/// The number of lookups that one evaluation may count before a mechanism
/// that needs another one ends it.
pub const MAX_LOOKUPS: u32 = 10;

/// How deep records may include or redirect to one another.
pub const MAX_DEPTH: u32 = 10;

/// The outcome of an evaluation: the verdict, why, and how many lookups were
/// counted.
#[derive(Debug)]
pub struct SPFSimulation {
    pub result: String,
    pub reasons: Vec<String>,
    pub lookups: u32,
}

/// The mathematical content of an [`SPFSimulation`].
pub struct SimulationView {
    pub result: Seq<char>,
    pub reasons: Seq<Seq<char>>,
    pub lookups: u32,
}

impl DeepView for SPFSimulation {
    type V = SimulationView;

    open spec fn deep_view(&self) -> SimulationView {
        SimulationView {
            result: self.result@,
            reasons: self.reasons.deep_view(),
            lookups: self.lookups,
        }
    }
}

impl View for SPFSimulation {
    type V = SimulationView;

    open spec fn view(&self) -> SimulationView {
        self.deep_view()
    }
}

/// How far an evaluation got with the answers at hand.
#[derive(Debug)]
pub enum SpfProgress {
    /// The answer to this question is needed next.
    Need(Question),
    /// The evaluation is complete.
    Done(SPFSimulation),
    /// The evaluation cannot go on: the candidate address is malformed, or a
    /// lookup failed. The text says which.
    Failed(String),
}

/// The mathematical content of an [`SpfProgress`].
pub enum ProgressView {
    Need(QuestionView),
    Done(SimulationView),
    Failed(Seq<char>),
}

impl DeepView for SpfProgress {
    type V = ProgressView;

    open spec fn deep_view(&self) -> ProgressView {
        match self {
            SpfProgress::Need(q) => ProgressView::Need(q@),
            SpfProgress::Done(s) => ProgressView::Done(s@),
            SpfProgress::Failed(m) => ProgressView::Failed(m@),
        }
    }
}

impl View for SpfProgress {
    type V = ProgressView;

    open spec fn view(&self) -> ProgressView {
        self.deep_view()
    }
}

/// What one mechanism comes to.
pub enum Check {
    /// The answer to this question is needed next.
    Need(Question),
    /// A lookup failed.
    Failed(String),
    /// The evaluation ends here with this outcome.
    Stop(SPFSimulation),
    /// The mechanism matches; the lookup count stands at the given number.
    Matched(u32),
    /// The mechanism does not match; the lookup count stands at the given
    /// number.
    Unmatched(u32),
}

/// The mathematical content of a [`Check`].
pub enum CheckView {
    Need(QuestionView),
    Failed(Seq<char>),
    Stop(SimulationView),
    Matched(u32),
    Unmatched(u32),
}

impl DeepView for Check {
    type V = CheckView;

    open spec fn deep_view(&self) -> CheckView {
        match self {
            Check::Need(q) => CheckView::Need(q@),
            Check::Failed(m) => CheckView::Failed(m@),
            Check::Stop(s) => CheckView::Stop(s@),
            Check::Matched(n) => CheckView::Matched(*n),
            Check::Unmatched(n) => CheckView::Unmatched(*n),
        }
    }
}

impl View for Check {
    type V = CheckView;

    open spec fn view(&self) -> CheckView {
        self.deep_view()
    }
}

/// One more lookup; the count stays at the largest number it can hold.
pub open spec fn bump(n: u32) -> u32 {
    if n < u32::MAX {
        (n + 1) as u32
    } else {
        n
    }
}

/// The sum of two counts; it stays at the largest number a count can hold.
pub open spec fn count_sum(a: u32, b: u32) -> u32 {
    if a + b > u32::MAX {
        u32::MAX
    } else {
        (a + b) as u32
    }
}

/// What a record that redirects comes to, given what the evaluation of the
/// target comes to on its own: the verdict and the reasons of the target,
/// with the lookups that the record itself has counted added to the
/// target's.
pub open spec fn redirected(lookups: u32, target: ProgressView) -> ProgressView {
    match target {
        ProgressView::Done(s) => ProgressView::Done(
            SimulationView {
                result: s.result,
                reasons: s.reasons,
                lookups: count_sum(lookups, s.lookups),
            },
        ),
        other => other,
    }
}

/// An outcome with a single reason.
pub open spec fn outcome(result: Seq<char>, reason: Seq<char>, lookups: u32) -> SimulationView {
    SimulationView { result, reasons: seq![reason], lookups }
}

/// The verdict that a matching mechanism's qualifier stands for.
pub open spec fn verdict(qualifier: Option<Seq<char>>) -> Seq<char> {
    if qualifier == Some("-"@) {
        "fail"@
    } else if qualifier == Some("~"@) {
        "softfail"@
    } else if qualifier == Some("?"@) {
        "neutral"@
    } else {
        "pass"@
    }
}

/// The first of `values` that begins with the version tag.
pub open spec fn selected_record(values: Seq<Seq<char>>) -> Option<Seq<char>>
    decreases values.len(),
{
    if values.len() == 0 {
        None
    } else if has_spf_tag(values[0]) {
        Some(values[0])
    } else {
        selected_record(values.drop_first())
    }
}

/// The value of the first modifier whose key is `redirect`.
pub open spec fn redirect_of(modifiers: Seq<ModifierView>) -> Option<Seq<char>>
    decreases modifiers.len(),
{
    if modifiers.len() == 0 {
        None
    } else if modifiers[0].key == "redirect"@ {
        Some(modifiers[0].value)
    } else {
        redirect_of(modifiers.drop_first())
    }
}

/// Whether one of `values` spells the address `ip`.
pub open spec fn holds_address(values: Seq<Seq<char>>, ip: IpAddress) -> bool {
    exists|i: int| 0 <= i < values.len() && address_of(#[trigger] values[i]) == Some(ip)
}

/// Whether a mechanism of this name counts as a lookup.
pub open spec fn consumes_lookup(name: Seq<char>) -> bool {
    name == "a"@ || name == "mx"@ || name == "ptr"@ || name == "include"@ || name == "exists"@
}

/// Goes through `hosts` in order, passing over those whose lower-case form
/// does not end with `suffix` where one is given, and looks for the first
/// whose addresses hold `ip`.
pub open spec fn first_host_with(
    dns: DnsView,
    hosts: Seq<Seq<char>>,
    suffix: Option<Seq<char>>,
    ip: IpAddress,
    lookups: u32,
) -> CheckView
    decreases hosts.len(),
{
    if hosts.len() == 0 {
        CheckView::Unmatched(lookups)
    } else if suffix is Some && !ends_with(lowercase(hosts[0]), suffix->0) {
        first_host_with(dns, hosts.drop_first(), suffix, ip, lookups)
    } else {
        match dns.answer(ask(RecordKind::Address, hosts[0])) {
            None => CheckView::Need(ask(RecordKind::Address, hosts[0])),
            Some(ReplyView::Failed(message)) => CheckView::Failed(message),
            Some(ReplyView::Records(values)) => if holds_address(values, ip) {
                CheckView::Matched(lookups)
            } else {
                first_host_with(dns, hosts.drop_first(), suffix, ip, lookups)
            },
        }
    }
}

/// What the mechanism `m` of `domain`'s record comes to for `ip`, with
/// `lookups` counted before it.
///
/// `ip4` and `ip6` test the address against the value and count nothing.
/// `a`, `mx`, `ptr`, `include` and `exists` first count one lookup and end the
/// evaluation with `permerror` if the count then exceeds [`MAX_LOOKUPS`].
/// `a` looks for the address among those of the target, `mx` among those of
/// the target's mail exchanges, `ptr` among those of the names that the
/// address points back to and that end with the target. `exists` matches if
/// the target has any address. `include` evaluates the policy of the target
/// with the same count and matches if that comes to `pass`; a `permerror`
/// there ends the evaluation here too, and so does an inclusion deeper than
/// [`MAX_DEPTH`]. `all` matches. Any other name matches nothing and counts
/// nothing. The target is the value of the mechanism, or the domain where it
/// has none; `include` and `exists` take the empty name then.
pub open spec fn check(
    dns: DnsView,
    domain: Seq<char>,
    ip: IpAddress,
    ip_text: Seq<char>,
    m: MechanismView,
    lookups: u32,
    depth: nat,
) -> CheckView
    decreases MAX_DEPTH + 1 - depth, 0nat, 0nat,
{
    let target = match m.value {
        Some(v) => v,
        None => domain,
    };
    let named = match m.value {
        Some(v) => v,
        None => Seq::<char>::empty(),
    };
    let counted = bump(lookups);
    if m.mechanism == "ip4"@ || m.mechanism == "ip6"@ {
        if m.value is Some && matches_cidr(ip, m.value->0) {
            CheckView::Matched(lookups)
        } else {
            CheckView::Unmatched(lookups)
        }
    } else if consumes_lookup(m.mechanism) {
        if counted > MAX_LOOKUPS {
            CheckView::Stop(outcome("permerror"@, "lookup limit reached"@, counted))
        } else if m.mechanism == "a"@ {
            match dns.answer(ask(RecordKind::Address, target)) {
                None => CheckView::Need(ask(RecordKind::Address, target)),
                Some(ReplyView::Failed(message)) => CheckView::Failed(message),
                Some(ReplyView::Records(values)) => if holds_address(values, ip) {
                    CheckView::Matched(counted)
                } else {
                    CheckView::Unmatched(counted)
                },
            }
        } else if m.mechanism == "mx"@ {
            match dns.answer(ask(RecordKind::Mx, target)) {
                None => CheckView::Need(ask(RecordKind::Mx, target)),
                Some(ReplyView::Failed(message)) => CheckView::Failed(message),
                Some(ReplyView::Records(hosts)) => first_host_with(dns, hosts, None, ip, counted),
            }
        } else if m.mechanism == "ptr"@ {
            match dns.answer(ask(RecordKind::Ptr, ip_text)) {
                None => CheckView::Need(ask(RecordKind::Ptr, ip_text)),
                Some(ReplyView::Failed(message)) => CheckView::Failed(message),
                Some(ReplyView::Records(hosts)) => first_host_with(
                    dns,
                    hosts,
                    Some(lowercase(target)),
                    ip,
                    counted,
                ),
            }
        } else if m.mechanism == "include"@ {
            if depth >= MAX_DEPTH {
                CheckView::Stop(outcome("permerror"@, "recursion limit reached"@, counted))
            } else {
                match evaluate(dns, named, ip, ip_text, counted, depth + 1) {
                    ProgressView::Need(q) => CheckView::Need(q),
                    ProgressView::Failed(message) => CheckView::Failed(message),
                    ProgressView::Done(nested) => if nested.result == "permerror"@ {
                        CheckView::Stop(nested)
                    } else if nested.result == "pass"@ {
                        CheckView::Matched(nested.lookups)
                    } else {
                        CheckView::Unmatched(nested.lookups)
                    },
                }
            }
        } else {
            match dns.answer(ask(RecordKind::Address, named)) {
                None => CheckView::Need(ask(RecordKind::Address, named)),
                Some(ReplyView::Failed(message)) => CheckView::Failed(message),
                Some(ReplyView::Records(values)) => if values.len() > 0 {
                    CheckView::Matched(counted)
                } else {
                    CheckView::Unmatched(counted)
                },
            }
        }
    } else if m.mechanism == "all"@ {
        CheckView::Matched(lookups)
    } else {
        CheckView::Unmatched(lookups)
    }
}

/// What the mechanisms of `record` from position `index` on come to, left to
/// right: the first that matches gives the verdict of its qualifier. Where
/// none matches, the record's `redirect` modifier, if it has one, hands the
/// evaluation over to another domain: that domain is evaluated on its own,
/// with a count of its own, and its verdict and reasons are the result, with
/// its count added to the count so far. Without a redirection the verdict is
/// `neutral`. A redirection deeper than [`MAX_DEPTH`] ends the evaluation
/// with `permerror`.
pub open spec fn evaluate_from(
    dns: DnsView,
    domain: Seq<char>,
    ip: IpAddress,
    ip_text: Seq<char>,
    record: RecordView,
    index: nat,
    lookups: u32,
    depth: nat,
) -> ProgressView
    decreases MAX_DEPTH + 1 - depth, 1nat, record.mechanisms.len() - index,
{
    if index >= record.mechanisms.len() {
        match redirect_of(record.modifiers) {
            Some(next) => if depth >= MAX_DEPTH {
                ProgressView::Done(outcome("permerror"@, "recursion limit reached"@, lookups))
            } else {
                redirected(lookups, evaluate(dns, next, ip, ip_text, 0, depth + 1))
            },
            None => ProgressView::Done(outcome("neutral"@, "no matching mechanism"@, lookups)),
        }
    } else {
        let m = record.mechanisms[index as int];
        match check(dns, domain, ip, ip_text, m, lookups, depth) {
            CheckView::Need(q) => ProgressView::Need(q),
            CheckView::Failed(message) => ProgressView::Failed(message),
            CheckView::Stop(end) => ProgressView::Done(end),
            CheckView::Matched(n) => ProgressView::Done(
                outcome(verdict(m.qualifier), "matched mechanism "@ + m.mechanism, n),
            ),
            CheckView::Unmatched(n) => evaluate_from(
                dns,
                domain,
                ip,
                ip_text,
                record,
                index + 1,
                n,
                depth,
            ),
        }
    }
}

/// What the policy of `domain` comes to for `ip`, with `lookups` counted
/// before it, at nesting depth `depth`.
///
/// Fetching the TXT records counts one lookup. The first record that begins
/// with the version tag is the policy; without one the verdict is `neutral`.
/// A lookup that failed ends the evaluation with its message.
pub open spec fn evaluate(
    dns: DnsView,
    domain: Seq<char>,
    ip: IpAddress,
    ip_text: Seq<char>,
    lookups: u32,
    depth: nat,
) -> ProgressView
    decreases MAX_DEPTH + 1 - depth, 2nat, 0nat,
{
    match dns.answer(ask(RecordKind::Txt, domain)) {
        None => ProgressView::Need(ask(RecordKind::Txt, domain)),
        Some(ReplyView::Failed(message)) => ProgressView::Failed(message),
        Some(ReplyView::Records(values)) => {
            let counted = bump(lookups);
            let parsed = match selected_record(values) {
                Some(text) => parsed_spf(text),
                None => None,
            };
            match parsed {
                None => ProgressView::Done(outcome("neutral"@, "no spf record"@, counted)),
                Some(record) => evaluate_from(dns, domain, ip, ip_text, record, 0, counted, depth),
            }
        },
    }
}

/// What [`simulate_spf`] returns for the candidate address spelled by
/// `ip_text`.
pub open spec fn simulated(dns: DnsView, domain: Seq<char>, ip_text: Seq<char>) -> ProgressView {
    match address_of(ip_text) {
        None => ProgressView::Failed("invalid IP address syntax"@),
        Some(ip) => evaluate(dns, domain, ip, ip_text, 0, 0),
    }
}

/// Counts one more lookup.
pub fn count_lookup(lookups: u32) -> (n: u32)
    ensures
        n == bump(lookups),
{
    if lookups < u32::MAX {
        lookups + 1
    } else {
        lookups
    }
}

/// Adds two counts.
pub fn add_counts(a: u32, b: u32) -> (n: u32)
    ensures
        n == count_sum(a, b),
{
    if a > u32::MAX - b {
        u32::MAX
    } else {
        a + b
    }
}

/// Builds an outcome with a single reason.
pub fn single_outcome(result: &str, reason: String, lookups: u32) -> (s: SPFSimulation)
    ensures
        s@ == outcome(result@, reason@, lookups),
{
    let ghost text = reason@;
    let mut reasons: Vec<String> = Vec::new();
    reasons.push(reason);
    proof {
        assert(reasons.deep_view() =~= seq![text]);
    }
    SPFSimulation { result: String::from_str(result), reasons, lookups }
}

/// The verdict that a matching mechanism's qualifier stands for: `fail` for
/// `-`, `softfail` for `~`, `neutral` for `?`, and `pass` for `+`, for none
/// and for anything else.
pub fn verdict_for(qualifier: &Option<String>) -> (r: String)
    ensures
        r@ == verdict(qualifier.deep_view()),
{
    match qualifier {
        Some(q) => {
            if str_eq(q.as_str(), "-") {
                String::from_str("fail")
            } else if str_eq(q.as_str(), "~") {
                String::from_str("softfail")
            } else if str_eq(q.as_str(), "?") {
                String::from_str("neutral")
            } else {
                String::from_str("pass")
            }
        },
        None => String::from_str("pass"),
    }
}

/// Picks the policy among the TXT records of a domain: the first value that
/// begins with `v=spf1`, in any letter case.
pub fn select_spf_record(values: &Vec<String>) -> (r: Option<&String>)
    ensures
        r.deep_view() == selected_record(values.deep_view()),
{
    let ghost all = values.deep_view();
    let mut i: usize = 0;
    proof {
        assert(all.skip(0) =~= all);
    }
    while i < values.len()
        invariant
            i <= values@.len(),
            all == values.deep_view(),
            selected_record(all) == selected_record(all.skip(i as int)),
        decreases values@.len() - i,
    {
        let chars = chars_of(values[i].as_str());
        proof {
            assert(all.skip(i as int).drop_first() =~= all.skip(i + 1));
        }
        if starts_with_spf_tag(&chars) {
            return Some(&values[i]);
        }
        i += 1;
    }
    None
}

/// Finds the target of a record's redirection: the value of the first
/// modifier whose key is `redirect`.
pub fn redirect_target(modifiers: &Vec<SPFModifier>) -> (r: Option<&String>)
    ensures
        r.deep_view() == redirect_of(modifiers.deep_view()),
{
    let ghost all = modifiers.deep_view();
    let mut i: usize = 0;
    proof {
        assert(all.skip(0) =~= all);
    }
    while i < modifiers.len()
        invariant
            i <= modifiers@.len(),
            all == modifiers.deep_view(),
            redirect_of(all) == redirect_of(all.skip(i as int)),
        decreases modifiers@.len() - i,
    {
        proof {
            assert(all.skip(i as int).drop_first() =~= all.skip(i + 1));
        }
        if str_eq(modifiers[i].key.as_str(), "redirect") {
            return Some(&modifiers[i].value);
        }
        i += 1;
    }
    None
}

/// Tells whether one of `values` spells the address `ip`.
pub fn contains_address(values: &Vec<String>, ip: IpAddress) -> (r: bool)
    ensures
        r == holds_address(values.deep_view(), ip),
{
    let ghost all = values.deep_view();
    let mut i: usize = 0;
    while i < values.len()
        invariant
            i <= values@.len(),
            all == values.deep_view(),
            forall|k: int| 0 <= k < i ==> address_of(#[trigger] all[k]) != Some(ip),
        decreases values@.len() - i,
    {
        match parse_address(values[i].as_str()) {
            Some(found) => {
                if found == ip {
                    proof {
                        assert(address_of(all[i as int]) == Some(ip));
                    }
                    return true;
                }
            },
            None => {},
        }
        i += 1;
    }
    false
}

/// Goes through `hosts` in order and looks up the addresses of each until one
/// holds `ip`. Where `suffix` is given, a host whose lower-case form does not
/// end with it is passed over.
pub fn first_host(
    dns: &DnsSnapshot,
    hosts: &Vec<String>,
    suffix: Option<&Vec<char>>,
    ip: IpAddress,
    lookups: u32,
) -> (r: Check)
    ensures
        r@ == first_host_with(dns@, hosts.deep_view(), suffix.deep_view(), ip, lookups),
{
    let ghost all = hosts.deep_view();
    let ghost wanted = suffix.deep_view();
    let mut i: usize = 0;
    proof {
        assert(all.skip(0) =~= all);
    }
    while i < hosts.len()
        invariant
            i <= hosts@.len(),
            all == hosts.deep_view(),
            wanted == suffix.deep_view(),
            first_host_with(dns@, all, wanted, ip, lookups) == first_host_with(
                dns@,
                all.skip(i as int),
                wanted,
                ip,
                lookups,
            ),
        decreases hosts@.len() - i,
    {
        let host = &hosts[i];
        proof {
            assert(all.skip(i as int).drop_first() =~= all.skip(i + 1));
        }
        let passed_over = match suffix {
            Some(s) => {
                let lowered = to_lowercase(host.as_str());
                let lowered_chars = chars_of(lowered.as_str());
                proof {
                    assert(s.deep_view() =~= s@);
                }
                !has_suffix(&lowered_chars, s)
            },
            None => false,
        };
        if !passed_over {
            match dns.find(RecordKind::Address, Channel::Resolver, host.as_str()) {
                None => {
                    return Check::Need(Question::new(RecordKind::Address, host.as_str()));
                },
                Some(reply) => match reply {
                    Reply::Failed(message) => {
                        return Check::Failed(message.clone());
                    },
                    Reply::Records(values) => {
                        if contains_address(values, ip) {
                            return Check::Matched(lookups);
                        }
                    },
                },
            }
        }
        i += 1;
    }
    Check::Unmatched(lookups)
}

/// Works out one mechanism.
pub fn check_mechanism(
    dns: &DnsSnapshot,
    domain: &str,
    ip: IpAddress,
    ip_text: &str,
    m: &SPFMechanism,
    lookups: u32,
    depth: u32,
) -> (r: Check)
    requires
        depth <= MAX_DEPTH,
    ensures
        r@ == check(dns@, domain@, ip, ip_text@, m@, lookups, depth as nat),
    decreases MAX_DEPTH + 1 - depth, 0nat, 0nat,
{
    let name = m.mechanism.as_str();
    let target: &str = match &m.value {
        Some(v) => v.as_str(),
        None => domain,
    };
    let named: &str = match &m.value {
        Some(v) => v.as_str(),
        None => "",
    };
    proof {
        reveal_strlit("");
        assert(""@ =~= Seq::<char>::empty());
    }
    let counted = count_lookup(lookups);
    if str_eq(name, "ip4") || str_eq(name, "ip6") {
        let matched = match &m.value {
            Some(v) => ip_matches_cidr(ip, v.as_str()),
            None => false,
        };
        if matched {
            Check::Matched(lookups)
        } else {
            Check::Unmatched(lookups)
        }
    } else if str_eq(name, "a") || str_eq(name, "mx") || str_eq(name, "ptr") || str_eq(
        name,
        "include",
    ) || str_eq(name, "exists") {
        if counted > MAX_LOOKUPS {
            Check::Stop(
                single_outcome("permerror", String::from_str("lookup limit reached"), counted),
            )
        } else if str_eq(name, "a") {
            match dns.find(RecordKind::Address, Channel::Resolver, target) {
                None => Check::Need(Question::new(RecordKind::Address, target)),
                Some(reply) => match reply {
                    Reply::Failed(message) => Check::Failed(message.clone()),
                    Reply::Records(values) => if contains_address(values, ip) {
                        Check::Matched(counted)
                    } else {
                        Check::Unmatched(counted)
                    },
                },
            }
        } else if str_eq(name, "mx") {
            match dns.find(RecordKind::Mx, Channel::Resolver, target) {
                None => Check::Need(Question::new(RecordKind::Mx, target)),
                Some(reply) => match reply {
                    Reply::Failed(message) => Check::Failed(message.clone()),
                    Reply::Records(hosts) => first_host(dns, hosts, None, ip, counted),
                },
            }
        } else if str_eq(name, "ptr") {
            match dns.find(RecordKind::Ptr, Channel::Resolver, ip_text) {
                None => Check::Need(Question::new(RecordKind::Ptr, ip_text)),
                Some(reply) => match reply {
                    Reply::Failed(message) => Check::Failed(message.clone()),
                    Reply::Records(hosts) => {
                        let lowered = to_lowercase(target);
                        let suffix = chars_of(lowered.as_str());
                        proof {
                            assert(Some(&suffix).deep_view() =~= Some(lowercase(target@)));
                        }
                        first_host(dns, hosts, Some(&suffix), ip, counted)
                    },
                },
            }
        } else if str_eq(name, "include") {
            if depth >= MAX_DEPTH {
                Check::Stop(
                    single_outcome(
                        "permerror",
                        String::from_str("recursion limit reached"),
                        counted,
                    ),
                )
            } else {
                match evaluate_domain(dns, named, ip, ip_text, counted, depth + 1) {
                    SpfProgress::Need(q) => Check::Need(q),
                    SpfProgress::Failed(message) => Check::Failed(message),
                    SpfProgress::Done(nested) => if str_eq(nested.result.as_str(), "permerror") {
                        Check::Stop(nested)
                    } else if str_eq(nested.result.as_str(), "pass") {
                        Check::Matched(nested.lookups)
                    } else {
                        Check::Unmatched(nested.lookups)
                    },
                }
            }
        } else {
            match dns.find(RecordKind::Address, Channel::Resolver, named) {
                None => Check::Need(Question::new(RecordKind::Address, named)),
                Some(reply) => match reply {
                    Reply::Failed(message) => Check::Failed(message.clone()),
                    Reply::Records(values) => if values.len() > 0 {
                        Check::Matched(counted)
                    } else {
                        Check::Unmatched(counted)
                    },
                },
            }
        }
    } else if str_eq(name, "all") {
        Check::Matched(lookups)
    } else {
        Check::Unmatched(lookups)
    }
}

/// Evaluates the mechanisms of a parsed record from the first on, then its
/// redirection.
pub fn evaluate_record(
    dns: &DnsSnapshot,
    domain: &str,
    ip: IpAddress,
    ip_text: &str,
    record: &SPFRecord,
    lookups: u32,
    depth: u32,
) -> (r: SpfProgress)
    requires
        depth <= MAX_DEPTH,
    ensures
        r@ == evaluate_from(dns@, domain@, ip, ip_text@, record@, 0, lookups, depth as nat),
    decreases MAX_DEPTH + 1 - depth, 1nat, 0nat,
{
    let mut i: usize = 0;
    let mut counted: u32 = lookups;
    while i < record.mechanisms.len()
        invariant
            i <= record.mechanisms@.len(),
            depth <= MAX_DEPTH,
            evaluate_from(dns@, domain@, ip, ip_text@, record@, 0, lookups, depth as nat)
                == evaluate_from(
                dns@,
                domain@,
                ip,
                ip_text@,
                record@,
                i as nat,
                counted,
                depth as nat,
            ),
        decreases record.mechanisms@.len() - i,
    {
        let m = &record.mechanisms[i];
        match check_mechanism(dns, domain, ip, ip_text, m, counted, depth) {
            Check::Need(q) => {
                return SpfProgress::Need(q);
            },
            Check::Failed(message) => {
                return SpfProgress::Failed(message);
            },
            Check::Stop(end) => {
                return SpfProgress::Done(end);
            },
            Check::Matched(n) => {
                let result = verdict_for(&m.qualifier);
                let reason = String::from_str("matched mechanism ").concat(m.mechanism.as_str());
                return SpfProgress::Done(single_outcome(result.as_str(), reason, n));
            },
            Check::Unmatched(n) => {
                counted = n;
            },
        }
        i += 1;
    }
    match redirect_target(&record.modifiers) {
        Some(next) => {
            if depth >= MAX_DEPTH {
                SpfProgress::Done(
                    single_outcome(
                        "permerror",
                        String::from_str("recursion limit reached"),
                        counted,
                    ),
                )
            } else {
                match evaluate_domain(dns, next.as_str(), ip, ip_text, 0, depth + 1) {
                    SpfProgress::Done(found) => SpfProgress::Done(
                        SPFSimulation {
                            result: found.result,
                            reasons: found.reasons,
                            lookups: add_counts(counted, found.lookups),
                        },
                    ),
                    other => other,
                }
            }
        },
        None => SpfProgress::Done(
            single_outcome("neutral", String::from_str("no matching mechanism"), counted),
        ),
    }
}

/// Evaluates the policy of `domain` at nesting depth `depth`, with `lookups`
/// counted before it.
pub fn evaluate_domain(
    dns: &DnsSnapshot,
    domain: &str,
    ip: IpAddress,
    ip_text: &str,
    lookups: u32,
    depth: u32,
) -> (r: SpfProgress)
    requires
        depth <= MAX_DEPTH,
    ensures
        r@ == evaluate(dns@, domain@, ip, ip_text@, lookups, depth as nat),
    decreases MAX_DEPTH + 1 - depth, 2nat, 0nat,
{
    match dns.find(RecordKind::Txt, Channel::Resolver, domain) {
        None => SpfProgress::Need(Question::new(RecordKind::Txt, domain)),
        Some(reply) => match reply {
            Reply::Failed(message) => SpfProgress::Failed(message.clone()),
            Reply::Records(values) => {
                let counted = count_lookup(lookups);
                let parsed = match select_spf_record(values) {
                    Some(text) => parse_spf(text.as_str()),
                    None => None,
                };
                match parsed {
                    None => SpfProgress::Done(
                        single_outcome("neutral", String::from_str("no spf record"), counted),
                    ),
                    Some(record) => evaluate_record(
                        dns,
                        domain,
                        ip,
                        ip_text,
                        &record,
                        counted,
                        depth,
                    ),
                }
            },
        },
    }
}

/// Evaluates the policy of `domain` for the candidate address that `ip`
/// spells, as far as the answers in `dns` allow.
///
/// Returns `Failed` where `ip` spells no address or a lookup on the way has
/// failed, `Need` with the first question on the way that `dns` cannot
/// answer, and otherwise `Done` with the verdict, its reason and the number
/// of lookups counted.
pub fn simulate_spf(dns: &DnsSnapshot, domain: &str, ip: &str) -> (r: SpfProgress)
    ensures
        r@ == simulated(dns@, domain@, ip@),
{
    match parse_address(ip) {
        None => SpfProgress::Failed(String::from_str("invalid IP address syntax")),
        Some(address) => evaluate_domain(dns, domain, address, ip, 0, 0),
    }
}

/// The names that `check` tells apart are pairwise different texts.
pub proof fn lemma_mechanism_names()
    ensures
        !consumes_lookup("ip4"@),
        !consumes_lookup("ip6"@),
        !consumes_lookup("all"@),
        "all"@ != "ip4"@,
        "all"@ != "ip6"@,
        "a"@ != "ip4"@,
        "a"@ != "ip6"@,
        "mx"@ != "ip4"@,
        "mx"@ != "ip6"@,
        "ptr"@ != "ip4"@,
        "ptr"@ != "ip6"@,
        "include"@ != "ip4"@,
        "include"@ != "ip6"@,
        "exists"@ != "ip4"@,
        "exists"@ != "ip6"@,
        "include"@ != "a"@,
        "include"@ != "mx"@,
        "include"@ != "ptr"@,
{
    reveal_strlit("ip4");
    reveal_strlit("ip6");
    reveal_strlit("all");
    reveal_strlit("a");
    reveal_strlit("mx");
    reveal_strlit("ptr");
    reveal_strlit("include");
    reveal_strlit("exists");
    assert("ip4"@.len() == 3 && "ip6"@.len() == 3 && "all"@.len() == 3 && "ptr"@.len() == 3);
    assert("a"@.len() == 1 && "mx"@.len() == 2 && "include"@.len() == 7 && "exists"@.len() == 6);
    assert("all"@[0] == 'a' && "ip4"@[0] == 'i' && "ip6"@[0] == 'i' && "ptr"@[0] == 'p');
}

/// A record whose first mechanism is `all` gives the verdict of that
/// mechanism's qualifier for every candidate address and whatever else the
/// snapshot holds, and counts the fetch of the record and nothing more. With
/// the qualifier `-` the verdict is `fail`.
pub proof fn lemma_all_first(
    dns: DnsView,
    domain: Seq<char>,
    ip: IpAddress,
    ip_text: Seq<char>,
    values: Seq<Seq<char>>,
    text: Seq<char>,
    record: RecordView,
)
    requires
        dns.answer(ask(RecordKind::Txt, domain)) == Some(ReplyView::Records(values)),
        selected_record(values) == Some(text),
        parsed_spf(text) == Some(record),
        record.mechanisms.len() > 0,
        record.mechanisms[0].mechanism == "all"@,
    ensures
        evaluate(dns, domain, ip, ip_text, 0, 0) == ProgressView::Done(
            outcome(verdict(record.mechanisms[0].qualifier), "matched mechanism "@ + "all"@, 1),
        ),
        record.mechanisms[0].qualifier == Some("-"@) ==> evaluate(dns, domain, ip, ip_text, 0, 0)
            == ProgressView::Done(outcome("fail"@, "matched mechanism "@ + "all"@, 1)),
{
    lemma_mechanism_names();
    let m = record.mechanisms[0];
    assert(check(dns, domain, ip, ip_text, m, 1, 0) == CheckView::Matched(1));
    assert(evaluate_from(dns, domain, ip, ip_text, record, 0, 1, 0) == ProgressView::Done(
        outcome(verdict(m.qualifier), "matched mechanism "@ + m.mechanism, 1),
    ));
}

/// A domain whose policy is the record `v=spf1 -all` fails every candidate
/// address: the verdict is `fail`, the one reason is that `all` matched, and
/// the fetch of the record is the one lookup counted.
pub proof fn lemma_minus_all(
    dns: DnsView,
    domain: Seq<char>,
    ip_text: Seq<char>,
    values: Seq<Seq<char>>,
)
    requires
        address_of(ip_text) is Some,
        dns.answer(ask(RecordKind::Txt, domain)) == Some(ReplyView::Records(values)),
        selected_record(values) == Some("v=spf1 -all"@),
    ensures
        simulated(dns, domain, ip_text) == ProgressView::Done(
            SimulationView {
                result: "fail"@,
                reasons: seq!["matched mechanism all"@],
                lookups: 1,
            },
        ),
{
    lemma_minus_all_record();
    let record = parsed_spf("v=spf1 -all"@)->0;
    let ip = address_of(ip_text)->0;
    lemma_all_first(dns, domain, ip, ip_text, values, "v=spf1 -all"@, record);
    reveal_strlit("matched mechanism ");
    reveal_strlit("all");
    reveal_strlit("matched mechanism all");
    assert("matched mechanism "@ + "all"@ =~= "matched mechanism all"@);
}

/// A mechanism that needs a lookup when [`MAX_LOOKUPS`] are already counted
/// ends the evaluation: the verdict is `permerror`, no mechanism after it is
/// looked at, and no further question is asked.
pub proof fn lemma_lookup_limit(
    dns: DnsView,
    domain: Seq<char>,
    ip: IpAddress,
    ip_text: Seq<char>,
    record: RecordView,
    index: nat,
    lookups: u32,
    depth: nat,
)
    requires
        index < record.mechanisms.len(),
        consumes_lookup(record.mechanisms[index as int].mechanism),
        lookups >= MAX_LOOKUPS,
    ensures
        evaluate_from(dns, domain, ip, ip_text, record, index, lookups, depth)
            == ProgressView::Done(
            outcome("permerror"@, "lookup limit reached"@, bump(lookups)),
        ),
{
    lemma_mechanism_names();
    let m = record.mechanisms[index as int];
    assert(check(dns, domain, ip, ip_text, m, lookups, depth) == CheckView::Stop(
        outcome("permerror"@, "lookup limit reached"@, bump(lookups)),
    ));
}

/// Where the evaluation of an included domain ends with `permerror`, the
/// evaluation of the including record ends with the same outcome.
pub proof fn lemma_limit_in_include(
    dns: DnsView,
    domain: Seq<char>,
    ip: IpAddress,
    ip_text: Seq<char>,
    record: RecordView,
    index: nat,
    lookups: u32,
    depth: nat,
    nested: SimulationView,
)
    requires
        index < record.mechanisms.len(),
        record.mechanisms[index as int].mechanism == "include"@,
        record.mechanisms[index as int].value is Some,
        lookups < MAX_LOOKUPS,
        depth < MAX_DEPTH,
        evaluate(
            dns,
            record.mechanisms[index as int].value->0,
            ip,
            ip_text,
            bump(lookups),
            depth + 1,
        ) == ProgressView::Done(nested),
        nested.result == "permerror"@,
    ensures
        evaluate_from(dns, domain, ip, ip_text, record, index, lookups, depth)
            == ProgressView::Done(nested),
{
    lemma_mechanism_names();
    let m = record.mechanisms[index as int];
    assert(check(dns, domain, ip, ip_text, m, lookups, depth) == CheckView::Stop(nested));
}

/// A record of which no mechanism matches and which redirects comes to what
/// the target comes to on its own: the target's verdict and reasons, and the
/// record's count with the target's added. The count that the record has
/// reached does not bear on the target's verdict.
pub proof fn lemma_redirect_on_its_own(
    dns: DnsView,
    domain: Seq<char>,
    ip: IpAddress,
    ip_text: Seq<char>,
    record: RecordView,
    lookups: u32,
    depth: nat,
    target: Seq<char>,
    found: SimulationView,
)
    requires
        redirect_of(record.modifiers) == Some(target),
        depth < MAX_DEPTH,
        evaluate(dns, target, ip, ip_text, 0, depth + 1) == ProgressView::Done(found),
    ensures
        evaluate_from(dns, domain, ip, ip_text, record, record.mechanisms.len(), lookups, depth)
            == ProgressView::Done(
            SimulationView {
                result: found.result,
                reasons: found.reasons,
                lookups: count_sum(lookups, found.lookups),
            },
        ),
{
}

/// A question that `first_host_with` asks has no answer in the snapshot.
pub proof fn lemma_first_host_asks_new(
    dns: DnsView,
    hosts: Seq<Seq<char>>,
    suffix: Option<Seq<char>>,
    ip: IpAddress,
    lookups: u32,
)
    ensures
        first_host_with(dns, hosts, suffix, ip, lookups) matches CheckView::Need(q) ==> dns.answer(
            q,
        ) is None,
    decreases hosts.len(),
{
    if hosts.len() > 0 {
        lemma_first_host_asks_new(dns, hosts.drop_first(), suffix, ip, lookups);
    }
}

/// A question that `check` asks has no answer in the snapshot.
pub proof fn lemma_check_asks_new(
    dns: DnsView,
    domain: Seq<char>,
    ip: IpAddress,
    ip_text: Seq<char>,
    m: MechanismView,
    lookups: u32,
    depth: nat,
)
    ensures
        check(dns, domain, ip, ip_text, m, lookups, depth) matches CheckView::Need(q)
            ==> dns.answer(q) is None,
    decreases MAX_DEPTH + 1 - depth, 0nat, 0nat,
{
    let target = match m.value {
        Some(v) => v,
        None => domain,
    };
    let named = match m.value {
        Some(v) => v,
        None => Seq::<char>::empty(),
    };
    let counted = bump(lookups);
    match dns.answer(ask(RecordKind::Mx, target)) {
        Some(ReplyView::Records(hosts)) => {
            lemma_first_host_asks_new(dns, hosts, None, ip, counted);
        },
        _ => {},
    }
    match dns.answer(ask(RecordKind::Ptr, ip_text)) {
        Some(ReplyView::Records(hosts)) => {
            lemma_first_host_asks_new(dns, hosts, Some(lowercase(target)), ip, counted);
        },
        _ => {},
    }
    if depth < MAX_DEPTH {
        lemma_asks_new(dns, named, ip, ip_text, counted, depth + 1);
    }
}

/// A question that `evaluate_from` asks has no answer in the snapshot.
pub proof fn lemma_record_asks_new(
    dns: DnsView,
    domain: Seq<char>,
    ip: IpAddress,
    ip_text: Seq<char>,
    record: RecordView,
    index: nat,
    lookups: u32,
    depth: nat,
)
    ensures
        evaluate_from(dns, domain, ip, ip_text, record, index, lookups, depth)
            matches ProgressView::Need(q) ==> dns.answer(q) is None,
    decreases MAX_DEPTH + 1 - depth, 1nat, record.mechanisms.len() - index,
{
    if index >= record.mechanisms.len() {
        match redirect_of(record.modifiers) {
            Some(next) => {
                if depth < MAX_DEPTH {
                    lemma_asks_new(dns, next, ip, ip_text, 0, depth + 1);
                }
            },
            None => {},
        }
    } else {
        let m = record.mechanisms[index as int];
        lemma_check_asks_new(dns, domain, ip, ip_text, m, lookups, depth);
        match check(dns, domain, ip, ip_text, m, lookups, depth) {
            CheckView::Unmatched(n) => {
                lemma_record_asks_new(dns, domain, ip, ip_text, record, index + 1, n, depth);
            },
            _ => {},
        }
    }
}

/// An evaluation asks only for what the snapshot cannot answer: recording the
/// reply to the question it names always takes it further.
pub proof fn lemma_asks_new(
    dns: DnsView,
    domain: Seq<char>,
    ip: IpAddress,
    ip_text: Seq<char>,
    lookups: u32,
    depth: nat,
)
    ensures
        evaluate(dns, domain, ip, ip_text, lookups, depth) matches ProgressView::Need(q)
            ==> dns.answer(q) is None,
    decreases MAX_DEPTH + 1 - depth, 2nat, 0nat,
{
    match dns.answer(ask(RecordKind::Txt, domain)) {
        Some(ReplyView::Records(values)) => {
            let parsed = match selected_record(values) {
                Some(text) => parsed_spf(text),
                None => None,
            };
            match parsed {
                Some(record) => {
                    lemma_record_asks_new(dns, domain, ip, ip_text, record, 0, bump(lookups), depth);
                },
                None => {},
            }
        },
        _ => {},
    }
}

/// A search through hosts that has ended ends the same way whatever is
/// recorded afterwards.
pub proof fn lemma_first_host_settled(
    dns: DnsView,
    question: QuestionView,
    reply: ReplyView,
    hosts: Seq<Seq<char>>,
    suffix: Option<Seq<char>>,
    ip: IpAddress,
    lookups: u32,
)
    ensures
        !(first_host_with(dns, hosts, suffix, ip, lookups) is Need) ==> first_host_with(
            dns.with(question, reply),
            hosts,
            suffix,
            ip,
            lookups,
        ) == first_host_with(dns, hosts, suffix, ip, lookups),
    decreases hosts.len(),
{
    if hosts.len() > 0 {
        lemma_record(dns, question, reply, ask(RecordKind::Address, hosts[0]));
        lemma_first_host_settled(dns, question, reply, hosts.drop_first(), suffix, ip, lookups);
    }
}

/// A mechanism that has been worked out comes to the same whatever is
/// recorded afterwards.
pub proof fn lemma_check_settled(
    dns: DnsView,
    question: QuestionView,
    reply: ReplyView,
    domain: Seq<char>,
    ip: IpAddress,
    ip_text: Seq<char>,
    m: MechanismView,
    lookups: u32,
    depth: nat,
)
    ensures
        !(check(dns, domain, ip, ip_text, m, lookups, depth) is Need) ==> check(
            dns.with(question, reply),
            domain,
            ip,
            ip_text,
            m,
            lookups,
            depth,
        ) == check(dns, domain, ip, ip_text, m, lookups, depth),
    decreases MAX_DEPTH + 1 - depth, 0nat, 0nat,
{
    let target = match m.value {
        Some(v) => v,
        None => domain,
    };
    let named = match m.value {
        Some(v) => v,
        None => Seq::<char>::empty(),
    };
    let counted = bump(lookups);
    lemma_record(dns, question, reply, ask(RecordKind::Address, target));
    lemma_record(dns, question, reply, ask(RecordKind::Address, named));
    lemma_record(dns, question, reply, ask(RecordKind::Mx, target));
    lemma_record(dns, question, reply, ask(RecordKind::Ptr, ip_text));
    match dns.answer(ask(RecordKind::Mx, target)) {
        Some(ReplyView::Records(hosts)) => {
            lemma_first_host_settled(dns, question, reply, hosts, None, ip, counted);
        },
        _ => {},
    }
    match dns.answer(ask(RecordKind::Ptr, ip_text)) {
        Some(ReplyView::Records(hosts)) => {
            lemma_first_host_settled(
                dns,
                question,
                reply,
                hosts,
                Some(lowercase(target)),
                ip,
                counted,
            );
        },
        _ => {},
    }
    if depth < MAX_DEPTH {
        lemma_settled(dns, question, reply, named, ip, ip_text, counted, depth + 1);
    }
}

/// The mechanisms of a record that have been worked out come to the same
/// whatever is recorded afterwards.
pub proof fn lemma_record_settled(
    dns: DnsView,
    question: QuestionView,
    reply: ReplyView,
    domain: Seq<char>,
    ip: IpAddress,
    ip_text: Seq<char>,
    record: RecordView,
    index: nat,
    lookups: u32,
    depth: nat,
)
    ensures
        !(evaluate_from(dns, domain, ip, ip_text, record, index, lookups, depth) is Need)
            ==> evaluate_from(
            dns.with(question, reply),
            domain,
            ip,
            ip_text,
            record,
            index,
            lookups,
            depth,
        ) == evaluate_from(dns, domain, ip, ip_text, record, index, lookups, depth),
    decreases MAX_DEPTH + 1 - depth, 1nat, record.mechanisms.len() - index,
{
    if index >= record.mechanisms.len() {
        match redirect_of(record.modifiers) {
            Some(next) => {
                if depth < MAX_DEPTH {
                    lemma_settled(dns, question, reply, next, ip, ip_text, 0, depth + 1);
                }
            },
            None => {},
        }
    } else {
        let m = record.mechanisms[index as int];
        lemma_check_settled(dns, question, reply, domain, ip, ip_text, m, lookups, depth);
        match check(dns, domain, ip, ip_text, m, lookups, depth) {
            CheckView::Unmatched(n) => {
                lemma_record_settled(
                    dns,
                    question,
                    reply,
                    domain,
                    ip,
                    ip_text,
                    record,
                    index + 1,
                    n,
                    depth,
                );
            },
            _ => {},
        }
    }
}

/// An evaluation that has ended, with an outcome or with a failure, ends the
/// same way whatever is recorded afterwards.
pub proof fn lemma_settled(
    dns: DnsView,
    question: QuestionView,
    reply: ReplyView,
    domain: Seq<char>,
    ip: IpAddress,
    ip_text: Seq<char>,
    lookups: u32,
    depth: nat,
)
    ensures
        !(evaluate(dns, domain, ip, ip_text, lookups, depth) is Need) ==> evaluate(
            dns.with(question, reply),
            domain,
            ip,
            ip_text,
            lookups,
            depth,
        ) == evaluate(dns, domain, ip, ip_text, lookups, depth),
    decreases MAX_DEPTH + 1 - depth, 2nat, 0nat,
{
    lemma_record(dns, question, reply, ask(RecordKind::Txt, domain));
    match dns.answer(ask(RecordKind::Txt, domain)) {
        Some(ReplyView::Records(values)) => {
            let parsed = match selected_record(values) {
                Some(text) => parsed_spf(text),
                None => None,
            };
            match parsed {
                Some(record) => {
                    lemma_record_settled(
                        dns,
                        question,
                        reply,
                        domain,
                        ip,
                        ip_text,
                        record,
                        0,
                        bump(lookups),
                        depth,
                    );
                },
                None => {},
            }
        },
        _ => {},
    }
}

/// How many of the mechanisms from position `index` on count as a lookup.
pub open spec fn lookups_needed(mechanisms: Seq<MechanismView>, index: nat) -> nat
    decreases mechanisms.len() - index,
{
    if index >= mechanisms.len() {
        0
    } else if consumes_lookup(mechanisms[index as int].mechanism) {
        1 + lookups_needed(mechanisms, index + 1)
    } else {
        lookups_needed(mechanisms, index + 1)
    }
}

/// A mechanism never lowers the count, and one that counts as a lookup and
/// does not end the evaluation raises it.
pub proof fn lemma_check_counts(
    dns: DnsView,
    domain: Seq<char>,
    ip: IpAddress,
    ip_text: Seq<char>,
    m: MechanismView,
    lookups: u32,
    depth: nat,
)
    ensures
        match check(dns, domain, ip, ip_text, m, lookups, depth) {
            CheckView::Matched(n) | CheckView::Unmatched(n) => if consumes_lookup(m.mechanism) {
                lookups < MAX_LOOKUPS && n > lookups
            } else {
                n == lookups
            },
            CheckView::Stop(end) => end.result == "permerror"@ && end.lookups >= lookups,
            _ => true,
        },
    decreases MAX_DEPTH + 1 - depth, 0nat, 0nat,
{
    lemma_mechanism_names();
    let target = match m.value {
        Some(v) => v,
        None => domain,
    };
    let named = match m.value {
        Some(v) => v,
        None => Seq::<char>::empty(),
    };
    let counted = bump(lookups);
    match dns.answer(ask(RecordKind::Mx, target)) {
        Some(ReplyView::Records(hosts)) => {
            lemma_first_host_counts(dns, hosts, None, ip, counted);
        },
        _ => {},
    }
    match dns.answer(ask(RecordKind::Ptr, ip_text)) {
        Some(ReplyView::Records(hosts)) => {
            lemma_first_host_counts(dns, hosts, Some(lowercase(target)), ip, counted);
        },
        _ => {},
    }
    if depth < MAX_DEPTH {
        lemma_counts(dns, named, ip, ip_text, counted, depth + 1);
    }
}

/// A search through hosts leaves the count as it is.
pub proof fn lemma_first_host_counts(
    dns: DnsView,
    hosts: Seq<Seq<char>>,
    suffix: Option<Seq<char>>,
    ip: IpAddress,
    lookups: u32,
)
    ensures
        match first_host_with(dns, hosts, suffix, ip, lookups) {
            CheckView::Matched(n) | CheckView::Unmatched(n) => n == lookups,
            CheckView::Stop(_) => false,
            _ => true,
        },
    decreases hosts.len(),
{
    if hosts.len() > 0 {
        lemma_first_host_counts(dns, hosts.drop_first(), suffix, ip, lookups);
    }
}

/// The mechanisms of a record never lower the count.
pub proof fn lemma_record_counts(
    dns: DnsView,
    domain: Seq<char>,
    ip: IpAddress,
    ip_text: Seq<char>,
    record: RecordView,
    index: nat,
    lookups: u32,
    depth: nat,
)
    ensures
        evaluate_from(dns, domain, ip, ip_text, record, index, lookups, depth)
            matches ProgressView::Done(s) ==> s.lookups >= lookups,
    decreases MAX_DEPTH + 1 - depth, 1nat, record.mechanisms.len() - index,
{
    if index >= record.mechanisms.len() {
        match redirect_of(record.modifiers) {
            Some(next) => {
                if depth < MAX_DEPTH {
                    lemma_counts(dns, next, ip, ip_text, 0, depth + 1);
                }
            },
            None => {},
        }
    } else {
        let m = record.mechanisms[index as int];
        lemma_check_counts(dns, domain, ip, ip_text, m, lookups, depth);
        match check(dns, domain, ip, ip_text, m, lookups, depth) {
            CheckView::Unmatched(n) => {
                lemma_record_counts(dns, domain, ip, ip_text, record, index + 1, n, depth);
            },
            _ => {},
        }
    }
}

/// An evaluation never ends with a count below the one it began with.
pub proof fn lemma_counts(
    dns: DnsView,
    domain: Seq<char>,
    ip: IpAddress,
    ip_text: Seq<char>,
    lookups: u32,
    depth: nat,
)
    ensures
        evaluate(dns, domain, ip, ip_text, lookups, depth) matches ProgressView::Done(s)
            ==> s.lookups >= lookups,
    decreases MAX_DEPTH + 1 - depth, 2nat, 0nat,
{
    match dns.answer(ask(RecordKind::Txt, domain)) {
        Some(ReplyView::Records(values)) => {
            let parsed = match selected_record(values) {
                Some(text) => parsed_spf(text),
                None => None,
            };
            match parsed {
                Some(record) => {
                    lemma_record_counts(dns, domain, ip, ip_text, record, 0, bump(lookups), depth);
                },
                None => {},
            }
        },
        _ => {},
    }
}

/// Whether an outcome is the match of one of the mechanisms of `record`
/// from position `index` on.
pub open spec fn matched_one(record: RecordView, index: nat, s: SimulationView) -> bool {
    exists|j: int|
        index <= j < record.mechanisms.len() && s.result == verdict(
            (#[trigger] record.mechanisms[j]).qualifier,
        ) && s.reasons == seq!["matched mechanism "@ + record.mechanisms[j].mechanism]
}

/// A record cannot be gone through to its end where its mechanisms need
/// more lookups than are left: where the count so far and the mechanisms
/// from `index` on that count as a lookup together exceed [`MAX_LOOKUPS`], an
/// evaluation that ends has found a match on the way or ends with
/// `permerror`. It does not end with `no matching mechanism`, and the
/// redirection is not followed.
pub proof fn lemma_over_budget_from(
    dns: DnsView,
    domain: Seq<char>,
    ip: IpAddress,
    ip_text: Seq<char>,
    record: RecordView,
    index: nat,
    lookups: u32,
    depth: nat,
)
    requires
        lookups_needed(record.mechanisms, index) >= 1,
        lookups + lookups_needed(record.mechanisms, index) > MAX_LOOKUPS,
    ensures
        evaluate_from(dns, domain, ip, ip_text, record, index, lookups, depth)
            matches ProgressView::Done(s) ==> s.result == "permerror"@ || matched_one(
            record,
            index,
            s,
        ),
    decreases record.mechanisms.len() - index,
{
    let m = record.mechanisms[index as int];
    lemma_check_counts(dns, domain, ip, ip_text, m, lookups, depth);
    match check(dns, domain, ip, ip_text, m, lookups, depth) {
        CheckView::Unmatched(n) => {
            lemma_over_budget_from(dns, domain, ip, ip_text, record, index + 1, n, depth);
            match evaluate_from(dns, domain, ip, ip_text, record, index + 1, n, depth) {
                ProgressView::Done(s) => {
                    if matched_one(record, index + 1, s) {
                        let j = choose|j: int|
                            index + 1 <= j < record.mechanisms.len() && s.result == verdict(
                                (#[trigger] record.mechanisms[j]).qualifier,
                            ) && s.reasons == seq![
                                "matched mechanism "@ + record.mechanisms[j].mechanism,
                            ];
                        assert(index <= j < record.mechanisms.len());
                    }
                },
                _ => {},
            }
        },
        CheckView::Matched(n) => {
            let s = outcome(verdict(m.qualifier), "matched mechanism "@ + m.mechanism, n);
            assert(record.mechanisms[index as int] == m);
            assert(matched_one(record, index, s));
        },
        _ => {},
    }
}

/// A domain whose record holds more mechanisms that count as a lookup than
/// lookups are left is not evaluated to the end of its record, whether it is
/// the domain asked about or one that is included or redirected to. The
/// fetch of the record is counted too: with nothing counted before, ten
/// such mechanisms are enough. The evaluation ends with `permerror` unless
/// a mechanism has matched before the count is used up.
pub proof fn lemma_over_budget(
    dns: DnsView,
    domain: Seq<char>,
    ip: IpAddress,
    ip_text: Seq<char>,
    values: Seq<Seq<char>>,
    text: Seq<char>,
    record: RecordView,
    lookups: u32,
    depth: nat,
)
    requires
        dns.answer(ask(RecordKind::Txt, domain)) == Some(ReplyView::Records(values)),
        selected_record(values) == Some(text),
        parsed_spf(text) == Some(record),
        lookups_needed(record.mechanisms, 0) >= 1,
        bump(lookups) + lookups_needed(record.mechanisms, 0) > MAX_LOOKUPS,
    ensures
        evaluate(dns, domain, ip, ip_text, lookups, depth) matches ProgressView::Done(s)
            ==> s.result == "permerror"@ || matched_one(record, 0, s),
{
    lemma_over_budget_from(dns, domain, ip, ip_text, record, 0, bump(lookups), depth);
}

} // verus!
