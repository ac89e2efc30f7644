//! Following a host name through its aliases to its addresses.

use vstd::prelude::*;
use crate::address::{address_of, parse_address};
use crate::dns::{
    ask, ask_https, lemma_record, Channel, DnsSnapshot, DnsView, Question, QuestionView,
    RecordKind, Reply, ReplyView,
};
use crate::topology::doh::{clean_values, cleaned};
use crate::topology::names::{
    dedup, distinct, first_index, holds, lemma_distinct, lemma_first_index, no_repeats,
    normalize_domain, normalized, unique_hosts, unique_names,
};

verus! {

/// The host names that one address points back to.
#[derive(Debug)]
pub struct ReverseHostnameResult {
    pub ip: String,
    pub hostnames: Vec<String>,
}

/// The mathematical content of a [`ReverseHostnameResult`].
pub struct ReverseView {
    pub ip: Seq<char>,
    pub hostnames: Seq<Seq<char>>,
}

impl DeepView for ReverseHostnameResult {
    type V = ReverseView;

    open spec fn deep_view(&self) -> ReverseView {
        ReverseView { ip: self.ip@, hostnames: self.hostnames.deep_view() }
    }
}

impl View for ReverseHostnameResult {
    type V = ReverseView;

    open spec fn view(&self) -> ReverseView {
        self.deep_view()
    }
}

impl Clone for ReverseHostnameResult {
    fn clone(&self) -> (r: Self)
        ensures
            r@ == self@,
    {
        let hostnames = self.hostnames.clone();
        ReverseHostnameResult { ip: self.ip.clone(), hostnames }
    }
}

/// What resolving one host name came to: the name in normal form, the chain
/// of names from it to the terminal one, the addresses of the terminal name,
/// the names those addresses point back to, and an error text where nothing
/// was found.
#[derive(Debug)]
pub struct HostnameChainResult {
    pub name: String,
    pub chain: Vec<String>,
    pub terminal: String,
    pub ipv4: Vec<String>,
    pub ipv6: Vec<String>,
    pub reverse_hostnames: Vec<ReverseHostnameResult>,
    pub error: Option<String>,
}

/// The mathematical content of a [`HostnameChainResult`].
pub struct ChainView {
    pub name: Seq<char>,
    pub chain: Seq<Seq<char>>,
    pub terminal: Seq<char>,
    pub ipv4: Seq<Seq<char>>,
    pub ipv6: Seq<Seq<char>>,
    pub reverse_hostnames: Seq<ReverseView>,
    pub error: Option<Seq<char>>,
}

impl DeepView for HostnameChainResult {
    type V = ChainView;

    open spec fn deep_view(&self) -> ChainView {
        ChainView {
            name: self.name@,
            chain: self.chain.deep_view(),
            terminal: self.terminal@,
            ipv4: self.ipv4.deep_view(),
            ipv6: self.ipv6.deep_view(),
            reverse_hostnames: self.reverse_hostnames.deep_view(),
            error: self.error.deep_view(),
        }
    }
}

impl View for HostnameChainResult {
    type V = ChainView;

    open spec fn view(&self) -> ChainView {
        self.deep_view()
    }
}

/// Copies a list of texts.
pub fn copy_texts(values: &Vec<String>) -> (r: Vec<String>)
    ensures
        r.deep_view() == values.deep_view(),
{
    values.clone()
}

impl Clone for HostnameChainResult {
    fn clone(&self) -> (r: Self)
        ensures
            r@ == self@,
    {
        let mut reverse: Vec<ReverseHostnameResult> = Vec::new();
        let mut i: usize = 0;
        while i < self.reverse_hostnames.len()
            invariant
                i <= self.reverse_hostnames@.len(),
                reverse@.len() == i,
                forall|k: int| 0 <= k < i ==> (#[trigger] reverse@[k])@ == self.reverse_hostnames@[k]@,
            decreases self.reverse_hostnames@.len() - i,
        {
            reverse.push(self.reverse_hostnames[i].clone());
            i += 1;
        }
        proof {
            assert(reverse.deep_view() =~= self.reverse_hostnames.deep_view());
        }
        HostnameChainResult {
            name: self.name.clone(),
            chain: copy_texts(&self.chain),
            terminal: self.terminal.clone(),
            ipv4: copy_texts(&self.ipv4),
            ipv6: copy_texts(&self.ipv6),
            reverse_hostnames: reverse,
            error: self.error.clone(),
        }
    }
}

/// How far a resolution got with the answers at hand.
#[derive(Debug)]
pub enum ChainProgress {
    /// These questions can be asked now, all at the same time; the answers
    /// to all of them are needed.
    Need(Vec<Question>),
    /// The resolution is complete.
    Done(HostnameChainResult),
}

/// The mathematical content of a [`ChainProgress`].
pub enum ChainProgressView {
    Need(Seq<QuestionView>),
    Done(ChainView),
}

impl DeepView for ChainProgress {
    type V = ChainProgressView;

    open spec fn deep_view(&self) -> ChainProgressView {
        match self {
            ChainProgress::Need(questions) => ChainProgressView::Need(questions.deep_view()),
            ChainProgress::Done(result) => ChainProgressView::Done(result@),
        }
    }
}

impl View for ChainProgress {
    type V = ChainProgressView;

    open spec fn view(&self) -> ChainProgressView {
        self.deep_view()
    }
}

/// What is known of the name that a name is an alias of.
pub enum NextView {
    Need(QuestionView),
    Found(Seq<char>),
    Nothing,
}

/// The values of the reply on record for `question`; none where the lookup
/// failed or brought nothing.
pub open spec fn recorded(dns: DnsView, question: QuestionView) -> Seq<Seq<char>> {
    match dns.answer(question) {
        Some(reply) => reply.values(),
        None => Seq::empty(),
    }
}

/// The name that `current` is an alias of. The resolver's first CNAME
/// record, brought into normal form, is that name unless it is empty. Where
/// the resolver has none, and the endpoints may be asked, the first value of
/// their answer is, read as an answer of the endpoints is read: in normal
/// form, and not empty.
pub open spec fn next_alias(dns: DnsView, current: Seq<char>, use_doh: bool) -> NextView {
    let direct = ask(RecordKind::Cname, current);
    let fallback = ask_https(RecordKind::Cname, current);
    if dns.answer(direct) is None {
        NextView::Need(direct)
    } else if recorded(dns, direct).len() > 0 && normalized(recorded(dns, direct)[0]).len() > 0 {
        NextView::Found(normalized(recorded(dns, direct)[0]))
    } else if !use_doh {
        NextView::Nothing
    } else if dns.answer(fallback) is None {
        NextView::Need(fallback)
    } else if cleaned(recorded(dns, fallback), RecordKind::Cname).len() > 0 {
        NextView::Found(cleaned(recorded(dns, fallback), RecordKind::Cname)[0])
    } else {
        NextView::Nothing
    }
}

/// What following a chain comes to.
pub enum FollowView {
    Need(QuestionView),
    End(Seq<Seq<char>>),
}

/// Follows the aliases from the last name of `chain` for at most `hops`
/// steps. The chain ends where a name is an alias of nothing, or of a name
/// that the chain holds already.
pub open spec fn follow(dns: DnsView, chain: Seq<Seq<char>>, hops: nat, use_doh: bool) -> FollowView
    decreases hops,
{
    if hops == 0 || chain.len() == 0 {
        FollowView::End(chain)
    } else {
        match next_alias(dns, chain.last(), use_doh) {
            NextView::Need(q) => FollowView::Need(q),
            NextView::Nothing => FollowView::End(chain),
            NextView::Found(next) => if chain.contains(next) {
                FollowView::End(chain)
            } else {
                follow(dns, chain.push(next), (hops - 1) as nat, use_doh)
            },
        }
    }
}

/// Those of `questions` that the snapshot cannot answer, in order.
pub open spec fn unanswered(dns: DnsView, questions: Seq<QuestionView>) -> Seq<QuestionView>
    decreases questions.len(),
{
    if questions.len() == 0 {
        Seq::empty()
    } else {
        let before = unanswered(dns, questions.drop_last());
        if dns.answer(questions.last()) is None {
            before.push(questions.last())
        } else {
            before
        }
    }
}

/// What is known of the addresses of a name.
pub enum AddressesView {
    Need(Seq<QuestionView>),
    Found(Seq<Seq<char>>, Seq<Seq<char>>),
}

/// The two questions put to the resolver about the addresses of `name`.
pub open spec fn direct_questions(name: Seq<char>) -> Seq<QuestionView> {
    seq![ask(RecordKind::A, name), ask(RecordKind::Aaaa, name)]
}

/// The questions put to the endpoints about the addresses of `name`: one for
/// each family of which the resolver knew no address.
pub open spec fn fallback_questions(dns: DnsView, name: Seq<char>, use_doh: bool) -> Seq<
    QuestionView,
> {
    let v4 = if use_doh && recorded(dns, ask(RecordKind::A, name)).len() == 0 {
        seq![ask_https(RecordKind::A, name)]
    } else {
        Seq::empty()
    };
    let v6 = if use_doh && recorded(dns, ask(RecordKind::Aaaa, name)).len() == 0 {
        seq![ask_https(RecordKind::Aaaa, name)]
    } else {
        Seq::empty()
    };
    v4 + v6
}

/// The addresses of one family: those the resolver knew, each once; where
/// it knew none and the endpoints may be asked, those of their answer,
/// trimmed, without the empty ones and each once.
pub open spec fn family(dns: DnsView, kind: RecordKind, name: Seq<char>, use_doh: bool) -> Seq<
    Seq<char>,
> {
    let direct = distinct(recorded(dns, ask(kind, name)));
    if direct.len() == 0 && use_doh {
        cleaned(recorded(dns, ask_https(kind, name)), kind)
    } else {
        direct
    }
}

/// The addresses of `name`, IPv4 and IPv6. Both families are asked of the
/// resolver at the same time, and then of the endpoints those that are still
/// empty.
pub open spec fn addresses(dns: DnsView, name: Seq<char>, use_doh: bool) -> AddressesView {
    if unanswered(dns, direct_questions(name)).len() > 0 {
        AddressesView::Need(unanswered(dns, direct_questions(name)))
    } else if unanswered(dns, fallback_questions(dns, name, use_doh)).len() > 0 {
        AddressesView::Need(unanswered(dns, fallback_questions(dns, name, use_doh)))
    } else {
        AddressesView::Found(
            family(dns, RecordKind::A, name, use_doh),
            family(dns, RecordKind::Aaaa, name, use_doh),
        )
    }
}

/// What is known of the names that addresses point back to.
pub enum ReverseProgressView {
    Need(QuestionView),
    Found(Seq<ReverseView>),
}

/// Goes through `ips` in order and adds to `found`, for each that spells an
/// address, the names it points back to, in normal form and each once. An
/// address that points back to no name adds nothing.
pub open spec fn reverse_names(dns: DnsView, ips: Seq<Seq<char>>, found: Seq<ReverseView>) -> ReverseProgressView
    decreases ips.len(),
{
    if ips.len() == 0 {
        ReverseProgressView::Found(found)
    } else if address_of(ips[0]) is None {
        reverse_names(dns, ips.drop_first(), found)
    } else if dns.answer(ask(RecordKind::Ptr, ips[0])) is None {
        ReverseProgressView::Need(ask(RecordKind::Ptr, ips[0]))
    } else {
        let names = unique_names(recorded(dns, ask(RecordKind::Ptr, ips[0])));
        reverse_names(
            dns,
            ips.drop_first(),
            if names.len() > 0 {
                found.push(ReverseView { ip: ips[0], hostnames: names })
            } else {
                found
            },
        )
    }
}

/// Whether `found` holds the reverse names of addresses among the first
/// `upto` of `ips`, in the order of `ips`: each entry is for an address of
/// its own, and holds the names that this address points back to, in normal
/// form and each once, of which there is one at least.
pub open spec fn reverse_in_order(
    dns: DnsView,
    found: Seq<ReverseView>,
    ips: Seq<Seq<char>>,
    upto: int,
) -> bool {
    &&& forall|a: int|
        0 <= a < found.len() ==> 0 <= first_index(ips, (#[trigger] found[a]).ip) < upto
    &&& forall|a: int, b: int|
        0 <= a < b < found.len() ==> first_index(ips, (#[trigger] found[a]).ip) < first_index(
            ips,
            (#[trigger] found[b]).ip,
        )
    &&& forall|a: int|
        0 <= a < found.len() ==> {
            &&& (#[trigger] found[a]).hostnames == unique_names(
                recorded(dns, ask(RecordKind::Ptr, found[a].ip)),
            )
            &&& found[a].hostnames.len() > 0
            &&& no_repeats(found[a].hostnames)
        }
}

/// The reverse names that are found for addresses of which none occurs
/// twice come in the order of the addresses, one entry for an address at
/// most, and none for an address that points back to no name.
pub proof fn lemma_reverse_in_order(
    dns: DnsView,
    ips: Seq<Seq<char>>,
    from: int,
    found: Seq<ReverseView>,
)
    requires
        no_repeats(ips),
        0 <= from <= ips.len(),
        reverse_in_order(dns, found, ips, from),
    ensures
        reverse_names(dns, ips.skip(from), found) matches ReverseProgressView::Found(all)
            ==> reverse_in_order(dns, all, ips, ips.len() as int),
    decreases ips.len() - from,
{
    let rest = ips.skip(from);
    if from < ips.len() {
        let ip = ips[from];
        assert(rest[0] == ip);
        assert(rest.drop_first() =~= ips.skip(from + 1));
        lemma_first_index(ips, ip);
        assert(first_index(ips, ip) == from) by {
            if first_index(ips, ip) < from {
                assert(ips[first_index(ips, ip)] == ips[from]);
            }
        }
        if address_of(ip) is None {
            lemma_reverse_in_order(dns, ips, from + 1, found);
        } else if dns.answer(ask(RecordKind::Ptr, ip)) is Some {
            let names = unique_names(recorded(dns, ask(RecordKind::Ptr, ip)));
            if names.len() > 0 {
                let more = found.push(ReverseView { ip, hostnames: names });
                lemma_distinct(
                    crate::topology::names::without_empty(
                        crate::topology::names::normalized_all(
                            recorded(dns, ask(RecordKind::Ptr, ip)),
                        ),
                    ),
                );
                assert(reverse_in_order(dns, more, ips, from + 1)) by {
                    assert forall|a: int| 0 <= a < more.len() implies 0 <= first_index(
                        ips,
                        (#[trigger] more[a]).ip,
                    ) < from + 1 by {
                        if a < found.len() {
                            assert(more[a] == found[a]);
                        }
                    }
                    assert forall|a: int, b: int| 0 <= a < b < more.len() implies first_index(
                        ips,
                        (#[trigger] more[a]).ip,
                    ) < first_index(ips, (#[trigger] more[b]).ip) by {
                        assert(more[a] == found[a]);
                        if b < found.len() {
                            assert(more[b] == found[b]);
                        }
                    }
                    assert forall|a: int| 0 <= a < more.len() implies {
                        &&& (#[trigger] more[a]).hostnames == unique_names(
                            recorded(dns, ask(RecordKind::Ptr, more[a].ip)),
                        )
                        &&& more[a].hostnames.len() > 0
                        &&& no_repeats(more[a].hostnames)
                    } by {
                        if a < found.len() {
                            assert(more[a] == found[a]);
                        }
                    }
                }
                lemma_reverse_in_order(dns, ips, from + 1, more);
            } else {
                lemma_reverse_in_order(dns, ips, from + 1, found);
            }
        }
    }
}

/// The result for a host whose name is empty once in normal form.
pub open spec fn empty_host(name: Seq<char>) -> ChainView {
    ChainView {
        name,
        chain: Seq::empty(),
        terminal: Seq::empty(),
        ipv4: Seq::empty(),
        ipv6: Seq::empty(),
        reverse_hostnames: Seq::empty(),
        error: Some("empty hostname"@),
    }
}

/// The result made of a chain, the addresses of its last name and their
/// reverse names. It carries an error exactly if the chain is the queried
/// name alone and there is no address of either family.
pub open spec fn chain_result(
    name: Seq<char>,
    chain: Seq<Seq<char>>,
    ipv4: Seq<Seq<char>>,
    ipv6: Seq<Seq<char>>,
    reverse: Seq<ReverseView>,
) -> ChainView {
    ChainView {
        name,
        chain,
        terminal: chain.last(),
        ipv4,
        ipv6,
        reverse_hostnames: reverse,
        error: if chain.len() <= 1 && ipv4.len() == 0 && ipv6.len() == 0 {
            Some("no CNAME/A/AAAA records found"@)
        } else {
            None
        },
    }
}

/// What [`resolve_chain_for_host`] returns.
pub open spec fn resolved_chain(
    dns: DnsView,
    host: Seq<char>,
    max_hops: nat,
    disable_ptr_lookups: bool,
    use_doh: bool,
) -> ChainProgressView {
    let name = normalized(host);
    if name.len() == 0 {
        ChainProgressView::Done(empty_host(name))
    } else {
        match follow(dns, seq![name], max_hops, use_doh) {
            FollowView::Need(q) => ChainProgressView::Need(seq![q]),
            FollowView::End(chain) => match addresses(dns, chain.last(), use_doh) {
                AddressesView::Need(questions) => ChainProgressView::Need(questions),
                AddressesView::Found(ipv4, ipv6) => {
                    let reverse = if disable_ptr_lookups {
                        ReverseProgressView::Found(Seq::empty())
                    } else {
                        reverse_names(dns, distinct(ipv4 + ipv6), Seq::empty())
                    };
                    match reverse {
                        ReverseProgressView::Need(q) => ChainProgressView::Need(seq![q]),
                        ReverseProgressView::Found(found) => ChainProgressView::Done(
                            chain_result(name, chain, ipv4, ipv6, found),
                        ),
                    }
                },
            },
        }
    }
}

/// Reads the values on record for a question: `None` where the snapshot has
/// no answer, else the values of the answer, which are none where the lookup
/// failed.
pub fn answered(dns: &DnsSnapshot, kind: RecordKind, channel: Channel, name: &str) -> (r: Option<
    Vec<String>,
>)
    ensures
        r is None <==> dns@.answer(QuestionView { kind, channel, name: name@ }) is None,
        r matches Some(values) ==> values.deep_view() == recorded(
            dns@,
            QuestionView { kind, channel, name: name@ },
        ),
{
    match dns.find(kind, channel, name) {
        None => None,
        Some(reply) => match reply {
            Reply::Records(values) => Some(copy_texts(values)),
            Reply::Failed(_) => Some(Vec::new()),
        },
    }
}

/// Finds the name that `current` is an alias of: `Err` with the question to
/// ask where the snapshot cannot tell, `Ok(None)` where it is an alias of
/// nothing.
pub fn next_name(dns: &DnsSnapshot, current: &str, use_doh: bool) -> (r: Result<
    Option<String>,
    Question,
>)
    ensures
        match r {
            Err(q) => next_alias(dns@, current@, use_doh) == NextView::Need(q@),
            Ok(Some(next)) => next_alias(dns@, current@, use_doh) == NextView::Found(next@),
            Ok(None) => next_alias(dns@, current@, use_doh) == NextView::Nothing,
        },
{
    let direct = match answered(dns, RecordKind::Cname, Channel::Resolver, current) {
        None => {
            return Err(Question::new(RecordKind::Cname, current));
        },
        Some(values) => values,
    };
    if direct.len() > 0 {
        let first = normalize_domain(direct[0].as_str());
        if first.as_str().unicode_len() > 0 {
            return Ok(Some(first));
        }
    }
    if !use_doh {
        return Ok(None);
    }
    let fallback = match answered(dns, RecordKind::Cname, Channel::Https, current) {
        None => {
            return Err(Question::over_https(RecordKind::Cname, current));
        },
        Some(values) => values,
    };
    let names = clean_values(&fallback, RecordKind::Cname);
    if names.len() > 0 {
        Ok(Some(names[0].clone()))
    } else {
        Ok(None)
    }
}

/// Follows the aliases of `name` for at most `max_hops` steps: `Err` with the
/// question to ask where the snapshot cannot tell, else the chain, which
/// begins with `name`.
pub fn follow_chain(dns: &DnsSnapshot, name: &str, max_hops: usize, use_doh: bool) -> (r: Result<
    Vec<String>,
    Question,
>)
    ensures
        match r {
            Err(q) => follow(dns@, seq![name@], max_hops as nat, use_doh) == FollowView::Need(q@),
            Ok(chain) => follow(dns@, seq![name@], max_hops as nat, use_doh) == FollowView::End(
                chain.deep_view(),
            ),
        },
{
    let mut chain: Vec<String> = Vec::new();
    chain.push(String::from_str(name));
    let mut hops: usize = max_hops;
    proof {
        assert(chain.deep_view() =~= seq![name@]);
    }
    while hops > 0
        invariant
            chain@.len() > 0,
            follow(dns@, seq![name@], max_hops as nat, use_doh) == follow(
                dns@,
                chain.deep_view(),
                hops as nat,
                use_doh,
            ),
        decreases hops,
    {
        let ghost before = chain.deep_view();
        let last: usize = chain.len() - 1;
        match next_name(dns, chain[last].as_str(), use_doh) {
            Err(q) => {
                return Err(q);
            },
            Ok(None) => {
                return Ok(chain);
            },
            Ok(Some(next)) => {
                if holds(&chain, next.as_str()) {
                    return Ok(chain);
                }
                let ghost added = next@;
                chain.push(next);
                proof {
                    assert(chain.deep_view() =~= before.push(added));
                }
                hops -= 1;
            },
        }
    }
    Ok(chain)
}

/// Lists those of two questions about `name` that the snapshot cannot
/// answer, the one of kind `first` before the one of kind `second`; a
/// question that is not `wanted` is left out.
pub fn open_questions(
    dns: &DnsSnapshot,
    channel: Channel,
    name: &str,
    first_wanted: bool,
    second_wanted: bool,
) -> (r: Vec<Question>)
    ensures
        r.deep_view() == unanswered(
            dns@,
            (if first_wanted {
                seq![QuestionView { kind: RecordKind::A, channel, name: name@ }]
            } else {
                Seq::empty()
            }) + (if second_wanted {
                seq![QuestionView { kind: RecordKind::Aaaa, channel, name: name@ }]
            } else {
                Seq::empty()
            }),
        ),
{
    let ghost a = QuestionView { kind: RecordKind::A, channel, name: name@ };
    let ghost b = QuestionView { kind: RecordKind::Aaaa, channel, name: name@ };
    let ghost first = if first_wanted {
        seq![a]
    } else {
        Seq::<QuestionView>::empty()
    };
    let ghost second = if second_wanted {
        seq![b]
    } else {
        Seq::<QuestionView>::empty()
    };
    let mut out: Vec<Question> = Vec::new();
    proof {
        if first_wanted {
            assert(first.drop_last() =~= Seq::<QuestionView>::empty());
        }
        assert(unanswered(dns@, Seq::<QuestionView>::empty()) =~= Seq::<QuestionView>::empty());
    }
    if first_wanted && dns.find(RecordKind::A, channel, name).is_none() {
        out.push(Question { kind: RecordKind::A, channel, name: String::from_str(name) });
    }
    proof {
        assert(out.deep_view() == unanswered(dns@, first));
        if second_wanted {
            assert((first + second).drop_last() =~= first);
            assert((first + second).last() == b);
        }
    }
    if second_wanted && dns.find(RecordKind::Aaaa, channel, name).is_none() {
        out.push(Question { kind: RecordKind::Aaaa, channel, name: String::from_str(name) });
    }
    out
}

/// The values on record for a question, which are none where it has no
/// answer.
pub fn values_on_record(dns: &DnsSnapshot, kind: RecordKind, channel: Channel, name: &str) -> (r:
    Vec<String>)
    ensures
        r.deep_view() == recorded(dns@, QuestionView { kind, channel, name: name@ }),
{
    match answered(dns, kind, channel, name) {
        Some(values) => values,
        None => Vec::new(),
    }
}

/// Finds the addresses of `name`: `Err` with the questions to ask, all at the
/// same time, where the snapshot cannot tell, else the IPv4 and the IPv6
/// addresses.
pub fn resolve_addresses(dns: &DnsSnapshot, name: &str, use_doh: bool) -> (r: Result<
    (Vec<String>, Vec<String>),
    Vec<Question>,
>)
    ensures
        match r {
            Err(questions) => addresses(dns@, name@, use_doh) == AddressesView::Need(
                questions.deep_view(),
            ),
            Ok(found) => addresses(dns@, name@, use_doh) == AddressesView::Found(
                found.0.deep_view(),
                found.1.deep_view(),
            ) && no_repeats(found.0.deep_view()) && no_repeats(found.1.deep_view()),
        },
{
    let direct = open_questions(dns, Channel::Resolver, name, true, true);
    proof {
        assert(seq![ask(RecordKind::A, name@)] + seq![ask(RecordKind::Aaaa, name@)]
            =~= direct_questions(name@));
    }
    if direct.len() > 0 {
        return Err(direct);
    }
    let v4 = dedup(&values_on_record(dns, RecordKind::A, Channel::Resolver, name));
    let v6 = dedup(&values_on_record(dns, RecordKind::Aaaa, Channel::Resolver, name));
    proof {
        lemma_distinct(recorded(dns@, ask(RecordKind::A, name@)));
        lemma_distinct(recorded(dns@, ask(RecordKind::Aaaa, name@)));
        lemma_distinct_empty(recorded(dns@, ask(RecordKind::A, name@)));
        lemma_distinct_empty(recorded(dns@, ask(RecordKind::Aaaa, name@)));
    }
    let want_v4 = use_doh && v4.len() == 0;
    let want_v6 = use_doh && v6.len() == 0;
    let fallback = open_questions(dns, Channel::Https, name, want_v4, want_v6);
    if fallback.len() > 0 {
        return Err(fallback);
    }
    let ipv4 = if want_v4 {
        clean_values(&values_on_record(dns, RecordKind::A, Channel::Https, name), RecordKind::A)
    } else {
        v4
    };
    let ipv6 = if want_v6 {
        clean_values(
            &values_on_record(dns, RecordKind::Aaaa, Channel::Https, name),
            RecordKind::Aaaa,
        )
    } else {
        v6
    };
    Ok((ipv4, ipv6))
}

/// `distinct(values)` is empty exactly if `values` is.
pub proof fn lemma_distinct_empty(values: Seq<Seq<char>>)
    ensures
        distinct(values).len() == 0 <==> values.len() == 0,
    decreases values.len(),
{
    if values.len() > 0 {
        lemma_distinct_empty(values.drop_last());
        lemma_distinct(values.drop_last());
        if distinct(values.drop_last()).len() == 0 {
            assert(!distinct(values.drop_last()).contains(values.last()));
        }
    }
}

/// Looks up the names that the addresses in `ips` point back to: `Err` with
/// the question to ask where the snapshot cannot tell.
pub fn reverse_lookup(dns: &DnsSnapshot, ips: &Vec<String>) -> (r: Result<
    Vec<ReverseHostnameResult>,
    Question,
>)
    ensures
        match r {
            Err(q) => reverse_names(dns@, ips.deep_view(), Seq::empty())
                == ReverseProgressView::Need(q@),
            Ok(found) => reverse_names(dns@, ips.deep_view(), Seq::empty())
                == ReverseProgressView::Found(found.deep_view()),
        },
{
    let ghost all = ips.deep_view();
    let mut found: Vec<ReverseHostnameResult> = Vec::new();
    let mut i: usize = 0;
    proof {
        assert(all.skip(0) =~= all);
        assert(found.deep_view() =~= Seq::<ReverseView>::empty());
    }
    while i < ips.len()
        invariant
            i <= ips@.len(),
            all == ips.deep_view(),
            reverse_names(dns@, all, Seq::empty()) == reverse_names(
                dns@,
                all.skip(i as int),
                found.deep_view(),
            ),
        decreases ips@.len() - i,
    {
        let ip = &ips[i];
        let ghost before = found.deep_view();
        proof {
            assert(all.skip(i as int).drop_first() =~= all.skip(i + 1));
        }
        if parse_address(ip.as_str()).is_some() {
            match answered(dns, RecordKind::Ptr, Channel::Resolver, ip.as_str()) {
                None => {
                    return Err(Question::new(RecordKind::Ptr, ip.as_str()));
                },
                Some(values) => {
                    let names = unique_hosts(&values);
                    if names.len() > 0 {
                        let ghost added = ReverseView { ip: ip@, hostnames: names.deep_view() };
                        found.push(ReverseHostnameResult { ip: ip.clone(), hostnames: names });
                        proof {
                            assert(found.deep_view() =~= before.push(added));
                        }
                    }
                },
            }
        }
        i += 1;
    }
    Ok(found)
}

/// Joins two lists of texts.
pub fn join_texts(a: &Vec<String>, b: &Vec<String>) -> (r: Vec<String>)
    ensures
        r.deep_view() == a.deep_view() + b.deep_view(),
{
    let mut out = copy_texts(a);
    let mut i: usize = 0;
    while i < b.len()
        invariant
            i <= b@.len(),
            out.deep_view() == a.deep_view() + b.deep_view().take(i as int),
        decreases b@.len() - i,
    {
        let ghost before = out.deep_view();
        out.push(b[i].clone());
        proof {
            assert(before.push(b@[i as int]@) =~= a.deep_view() + b.deep_view().take(i + 1));
        }
        i += 1;
    }
    out
}

/// Resolves one host as far as the answers in `dns` allow.
///
/// The host name is brought into normal form; an empty name ends the
/// resolution at once with an error. Else the aliases are followed for at
/// most `max_hops` steps, stopping at a name met before; the addresses of
/// the last name are looked up, both families at the same time; and, unless
/// `disable_ptr_lookups` is set, each address is looked up in reverse. The
/// DNS-over-HTTPS endpoints are asked only for what the resolver did not
/// know, and only if `doh_endpoints` names any. A lookup that failed counts
/// as one that found nothing.
///
/// Returns `Need` with the questions that come next where `dns` lacks an
/// answer to them, else `Done` with the result. The result carries the
/// error `no CNAME/A/AAAA records found` exactly if its chain is the queried
/// name alone and it has no address.
pub fn resolve_chain_for_host(
    dns: &DnsSnapshot,
    doh_endpoints: &Vec<String>,
    host: &str,
    max_hops: usize,
    disable_ptr_lookups: bool,
) -> (r: ChainProgress)
    ensures
        r@ == resolved_chain(
            dns@,
            host@,
            max_hops as nat,
            disable_ptr_lookups,
            doh_endpoints@.len() > 0,
        ),
        r matches ChainProgress::Done(found) ==> found@.name == normalized(host@),
        r matches ChainProgress::Done(found) ==> (normalized(host@).len() > 0 ==> {
            &&& 1 <= found@.chain.len() <= max_hops + 1
            &&& found@.chain[0] == found@.name
            &&& found@.terminal == found@.chain.last()
            &&& no_repeats(found@.chain)
            &&& found@.error is Some <==> found@.chain.len() == 1 && found@.ipv4.len() == 0
                && found@.ipv6.len() == 0
        }),
        r matches ChainProgress::Done(found) ==> {
            &&& no_repeats(found@.ipv4)
            &&& no_repeats(found@.ipv6)
            &&& disable_ptr_lookups ==> found@.reverse_hostnames.len() == 0
            &&& reverse_in_order(
                dns@,
                found@.reverse_hostnames,
                distinct(found@.ipv4 + found@.ipv6),
                distinct(found@.ipv4 + found@.ipv6).len() as int,
            )
        },
{
    let use_doh = doh_endpoints.len() > 0;
    let name = normalize_domain(host);
    if name.as_str().unicode_len() == 0 {
        let chain: Vec<String> = Vec::new();
        let ipv4: Vec<String> = Vec::new();
        let ipv6: Vec<String> = Vec::new();
        let reverse: Vec<ReverseHostnameResult> = Vec::new();
        proof {
            assert(ipv4.deep_view() =~= Seq::<Seq<char>>::empty());
            assert(reverse.deep_view() =~= Seq::<ReverseView>::empty());
        }
        return ChainProgress::Done(
            HostnameChainResult {
                name,
                chain,
                terminal: String::new(),
                ipv4,
                ipv6,
                reverse_hostnames: reverse,
                error: Some(String::from_str("empty hostname")),
            },
        );
    }
    let chain = match follow_chain(dns, name.as_str(), max_hops, use_doh) {
        Err(q) => {
            let ghost asked = q@;
            let mut questions: Vec<Question> = Vec::new();
            questions.push(q);
            proof {
                assert(questions.deep_view() =~= seq![asked]);
            }
            return ChainProgress::Need(questions);
        },
        Ok(chain) => chain,
    };
    proof {
        lemma_follow_keeps(dns@, seq![name@], max_hops as nat, use_doh);
    }
    let terminal = chain[chain.len() - 1].clone();
    let (ipv4, ipv6) = match resolve_addresses(dns, terminal.as_str(), use_doh) {
        Err(questions) => {
            return ChainProgress::Need(questions);
        },
        Ok(found) => found,
    };
    let reverse = if disable_ptr_lookups {
        let none: Vec<ReverseHostnameResult> = Vec::new();
        proof {
            assert(none.deep_view() =~= Seq::<ReverseView>::empty());
        }
        none
    } else {
        let ips = dedup(&join_texts(&ipv4, &ipv6));
        proof {
            lemma_distinct(ipv4.deep_view() + ipv6.deep_view());
            assert(ips.deep_view().skip(0) =~= ips.deep_view());
            lemma_reverse_in_order(dns@, ips.deep_view(), 0, Seq::empty());
        }
        match reverse_lookup(dns, &ips) {
            Err(q) => {
                let ghost asked = q@;
                let mut questions: Vec<Question> = Vec::new();
                questions.push(q);
                proof {
                    assert(questions.deep_view() =~= seq![asked]);
                }
                return ChainProgress::Need(questions);
            },
            Ok(found) => found,
        }
    };
    let unresolved = chain.len() <= 1 && ipv4.len() == 0 && ipv6.len() == 0;
    let error = if unresolved {
        Some(String::from_str("no CNAME/A/AAAA records found"))
    } else {
        None
    };
    ChainProgress::Done(
        HostnameChainResult {
            name,
            chain,
            terminal,
            ipv4,
            ipv6,
            reverse_hostnames: reverse,
            error,
        },
    )
}

/// A chain that is followed keeps its names where they are, takes in no name
/// twice, and grows by at most one name for each hop.
pub proof fn lemma_follow_keeps(dns: DnsView, chain: Seq<Seq<char>>, hops: nat, use_doh: bool)
    requires
        chain.len() > 0,
    ensures
        follow(dns, chain, hops, use_doh) matches FollowView::End(end) ==> {
            &&& chain.len() <= end.len() <= chain.len() + hops
            &&& end.take(chain.len() as int) == chain
            &&& no_repeats(chain) ==> no_repeats(end)
        },
    decreases hops,
{
    assert(chain.take(chain.len() as int) =~= chain);
    if hops > 0 {
        match next_alias(dns, chain.last(), use_doh) {
            NextView::Found(next) => {
                if !chain.contains(next) {
                    let longer = chain.push(next);
                    lemma_follow_keeps(dns, longer, (hops - 1) as nat, use_doh);
                    match follow(dns, longer, (hops - 1) as nat, use_doh) {
                        FollowView::End(end) => {
                            assert(end.take(chain.len() as int) =~= chain) by {
                                assert forall|i: int| 0 <= i < chain.len() implies end[i]
                                    == chain[i] by {
                                    assert(end.take(longer.len() as int)[i] == longer[i]);
                                }
                            }
                            if no_repeats(chain) {
                                assert(no_repeats(longer)) by {
                                    assert forall|i: int, j: int|
                                        0 <= i < j < longer.len() implies longer[i]
                                        != longer[j] by {
                                        if j == chain.len() {
                                            assert(chain[i] == longer[i]);
                                            assert(chain.contains(chain[i]));
                                        }
                                    }
                                }
                            }
                        },
                        _ => {},
                    }
                }
            },
            _ => {},
        }
    }
}

/// Whether the snapshot holds an answer to `question` that brought nothing.
pub open spec fn knows_nothing(dns: DnsView, question: QuestionView) -> bool {
    dns.answer(question) is Some && recorded(dns, question).len() == 0
}

/// A host of which neither the resolver nor, where they may be asked, the
/// endpoints know an alias or an address resolves to a chain of its own name alone, with the error
/// `no CNAME/A/AAAA records found`.
pub proof fn lemma_nothing_found(
    dns: DnsView,
    host: Seq<char>,
    max_hops: nat,
    disable_ptr_lookups: bool,
    use_doh: bool,
)
    requires
        normalized(host).len() > 0,
        knows_nothing(dns, ask(RecordKind::Cname, normalized(host))),
        knows_nothing(dns, ask(RecordKind::A, normalized(host))),
        knows_nothing(dns, ask(RecordKind::Aaaa, normalized(host))),
        use_doh ==> knows_nothing(dns, ask_https(RecordKind::Cname, normalized(host))),
        use_doh ==> knows_nothing(dns, ask_https(RecordKind::A, normalized(host))),
        use_doh ==> knows_nothing(dns, ask_https(RecordKind::Aaaa, normalized(host))),
    ensures
        resolved_chain(dns, host, max_hops, disable_ptr_lookups, use_doh)
            matches ChainProgressView::Done(found) && found.chain == seq![normalized(host)]
            && found.error == Some("no CNAME/A/AAAA records found"@) && found.ipv4.len() == 0
            && found.ipv6.len() == 0,
{
    let name = normalized(host);
    let chain = seq![name];
    assert(chain.last() == name);
    let a = QuestionView { kind: RecordKind::A, channel: Channel::Resolver, name };
    let aaaa = QuestionView { kind: RecordKind::Aaaa, channel: Channel::Resolver, name };
    assert(next_alias(dns, name, use_doh) == NextView::Nothing);
    assert(follow(dns, chain, max_hops, use_doh) == FollowView::End(chain));
    lemma_all_answered(dns, direct_questions(name));
    lemma_all_answered(dns, fallback_questions(dns, name, use_doh));
    lemma_distinct_empty(recorded(dns, a));
    lemma_distinct_empty(recorded(dns, aaaa));
    let none = Seq::<Seq<char>>::empty();
    assert(family(dns, RecordKind::A, name, use_doh) =~= none);
    assert(family(dns, RecordKind::Aaaa, name, use_doh) =~= none);
    assert(none + none =~= none);
    assert(reverse_names(dns, none, Seq::empty()) == ReverseProgressView::Found(Seq::empty()));
}

/// Where the snapshot answers each of `questions`, none of them is open.
pub proof fn lemma_all_answered(dns: DnsView, questions: Seq<QuestionView>)
    requires
        forall|i: int| 0 <= i < questions.len() ==> dns.answer(#[trigger] questions[i]) is Some,
    ensures
        unanswered(dns, questions).len() == 0,
    decreases questions.len(),
{
    if questions.len() > 0 {
        let head = questions.drop_last();
        assert forall|i: int| 0 <= i < head.len() implies dns.answer(#[trigger] head[i]) is Some by {
            assert(head[i] == questions[i]);
        }
        lemma_all_answered(dns, head);
    }
}

/// None of the open questions has an answer.
pub proof fn lemma_unanswered(dns: DnsView, questions: Seq<QuestionView>)
    ensures
        forall|i: int|
            0 <= i < unanswered(dns, questions).len() ==> dns.answer(
                #[trigger] unanswered(dns, questions)[i],
            ) is None,
    decreases questions.len(),
{
    if questions.len() > 0 {
        lemma_unanswered(dns, questions.drop_last());
    }
}

/// A question that following a chain asks has no answer.
pub proof fn lemma_follow_asks_new(dns: DnsView, chain: Seq<Seq<char>>, hops: nat, use_doh: bool)
    ensures
        follow(dns, chain, hops, use_doh) matches FollowView::Need(q) ==> dns.answer(q) is None,
    decreases hops,
{
    if hops > 0 && chain.len() > 0 {
        match next_alias(dns, chain.last(), use_doh) {
            NextView::Found(next) => {
                if !chain.contains(next) {
                    lemma_follow_asks_new(dns, chain.push(next), (hops - 1) as nat, use_doh);
                }
            },
            _ => {},
        }
    }
}

/// A question that the reverse lookups ask has no answer.
pub proof fn lemma_reverse_asks_new(dns: DnsView, ips: Seq<Seq<char>>, found: Seq<ReverseView>)
    ensures
        reverse_names(dns, ips, found) matches ReverseProgressView::Need(q) ==> dns.answer(q)
            is None,
    decreases ips.len(),
{
    if ips.len() > 0 {
        if address_of(ips[0]) is None {
            lemma_reverse_asks_new(dns, ips.drop_first(), found);
        } else if dns.answer(ask(RecordKind::Ptr, ips[0])) is Some {
            let names = unique_names(recorded(dns, ask(RecordKind::Ptr, ips[0])));
            lemma_reverse_asks_new(
                dns,
                ips.drop_first(),
                if names.len() > 0 {
                    found.push(ReverseView { ip: ips[0], hostnames: names })
                } else {
                    found
                },
            );
        }
    }
}

/// A resolution asks only for what the snapshot cannot answer, and where it
/// asks it asks one question at least: recording the replies always takes it
/// further.
pub proof fn lemma_chain_asks_new(
    dns: DnsView,
    host: Seq<char>,
    max_hops: nat,
    disable_ptr_lookups: bool,
    use_doh: bool,
)
    ensures
        resolved_chain(dns, host, max_hops, disable_ptr_lookups, use_doh)
            matches ChainProgressView::Need(questions) ==> questions.len() > 0 && forall|i: int|
            0 <= i < questions.len() ==> dns.answer(#[trigger] questions[i]) is None,
{
    let name = normalized(host);
    if name.len() > 0 {
        lemma_follow_asks_new(dns, seq![name], max_hops, use_doh);
        match follow(dns, seq![name], max_hops, use_doh) {
            FollowView::Need(q) => {
                assert(seq![q][0] == q);
            },
            FollowView::End(chain) => {
                lemma_unanswered(dns, direct_questions(chain.last()));
                lemma_unanswered(dns, fallback_questions(dns, chain.last(), use_doh));
                match addresses(dns, chain.last(), use_doh) {
                    AddressesView::Need(questions) => {},
                    AddressesView::Found(ipv4, ipv6) => {
                        if !disable_ptr_lookups {
                            lemma_reverse_asks_new(dns, distinct(ipv4 + ipv6), Seq::empty());
                            match reverse_names(dns, distinct(ipv4 + ipv6), Seq::empty()) {
                                ReverseProgressView::Need(q) => {
                                    assert(seq![q][0] == q);
                                },
                                _ => {},
                            }
                        }
                    },
                }
            },
        }
    }
}

/// What is on record for a question stays on record when more is recorded.
pub proof fn lemma_recorded_stays(
    dns: DnsView,
    question: QuestionView,
    reply: ReplyView,
    other: QuestionView,
)
    requires
        dns.answer(other) is Some,
    ensures
        dns.with(question, reply).answer(other) == dns.answer(other),
        recorded(dns.with(question, reply), other) == recorded(dns, other),
{
    lemma_record(dns, question, reply, other);
}

/// A chain that has been followed to its end is followed the same way
/// whatever is recorded afterwards.
pub proof fn lemma_follow_settled(
    dns: DnsView,
    question: QuestionView,
    reply: ReplyView,
    chain: Seq<Seq<char>>,
    hops: nat,
    use_doh: bool,
)
    ensures
        !(follow(dns, chain, hops, use_doh) is Need) ==> follow(
            dns.with(question, reply),
            chain,
            hops,
            use_doh,
        ) == follow(dns, chain, hops, use_doh),
    decreases hops,
{
    if hops > 0 && chain.len() > 0 {
        let current = chain.last();
        lemma_record(dns, question, reply, ask(RecordKind::Cname, current));
        lemma_record(dns, question, reply, ask_https(RecordKind::Cname, current));
        match next_alias(dns, current, use_doh) {
            NextView::Found(next) => {
                if !chain.contains(next) {
                    lemma_follow_settled(
                        dns,
                        question,
                        reply,
                        chain.push(next),
                        (hops - 1) as nat,
                        use_doh,
                    );
                }
            },
            _ => {},
        }
    }
}

/// Questions that all have an answer have one whatever is recorded
/// afterwards.
pub proof fn lemma_unanswered_settled(
    dns: DnsView,
    question: QuestionView,
    reply: ReplyView,
    questions: Seq<QuestionView>,
)
    requires
        unanswered(dns, questions).len() == 0,
    ensures
        unanswered(dns.with(question, reply), questions).len() == 0,
        forall|i: int| 0 <= i < questions.len() ==> dns.answer(#[trigger] questions[i]) is Some,
    decreases questions.len(),
{
    if questions.len() > 0 {
        lemma_unanswered_settled(dns, question, reply, questions.drop_last());
        lemma_record(dns, question, reply, questions.last());
        assert forall|i: int| 0 <= i < questions.len() implies dns.answer(#[trigger] questions[i])
            is Some by {
            if i < questions.len() - 1 {
                assert(questions.drop_last()[i] == questions[i]);
            }
        }
    }
}

/// Reverse lookups that have ended end the same way whatever is recorded
/// afterwards.
pub proof fn lemma_reverse_settled(
    dns: DnsView,
    question: QuestionView,
    reply: ReplyView,
    ips: Seq<Seq<char>>,
    found: Seq<ReverseView>,
)
    ensures
        !(reverse_names(dns, ips, found) is Need) ==> reverse_names(
            dns.with(question, reply),
            ips,
            found,
        ) == reverse_names(dns, ips, found),
    decreases ips.len(),
{
    if ips.len() > 0 {
        let q = ask(RecordKind::Ptr, ips[0]);
        lemma_record(dns, question, reply, q);
        if address_of(ips[0]) is None {
            lemma_reverse_settled(dns, question, reply, ips.drop_first(), found);
        } else if dns.answer(q) is Some {
            let names = unique_names(recorded(dns, q));
            lemma_reverse_settled(
                dns,
                question,
                reply,
                ips.drop_first(),
                if names.len() > 0 {
                    found.push(ReverseView { ip: ips[0], hostnames: names })
                } else {
                    found
                },
            );
        }
    }
}

/// A resolution that has ended ends the same way whatever is recorded
/// afterwards.
pub proof fn lemma_chain_settled(
    dns: DnsView,
    question: QuestionView,
    reply: ReplyView,
    host: Seq<char>,
    max_hops: nat,
    disable_ptr_lookups: bool,
    use_doh: bool,
)
    ensures
        resolved_chain(dns, host, max_hops, disable_ptr_lookups, use_doh) is Done
            ==> resolved_chain(
            dns.with(question, reply),
            host,
            max_hops,
            disable_ptr_lookups,
            use_doh,
        ) == resolved_chain(dns, host, max_hops, disable_ptr_lookups, use_doh),
{
    let name = normalized(host);
    let later = dns.with(question, reply);
    if name.len() > 0 {
        lemma_follow_settled(dns, question, reply, seq![name], max_hops, use_doh);
        match follow(dns, seq![name], max_hops, use_doh) {
            FollowView::Need(q) => {},
            FollowView::End(chain) => {
                let last = chain.last();
                match addresses(dns, last, use_doh) {
                    AddressesView::Need(questions) => {},
                    AddressesView::Found(ipv4, ipv6) => {
                        lemma_unanswered_settled(dns, question, reply, direct_questions(last));
                        assert(dns.answer(direct_questions(last)[0]) is Some);
                        assert(dns.answer(direct_questions(last)[1]) is Some);
                        lemma_recorded_stays(dns, question, reply, ask(RecordKind::A, last));
                        lemma_recorded_stays(dns, question, reply, ask(RecordKind::Aaaa, last));
                        let fallback = fallback_questions(dns, last, use_doh);
                        assert(fallback_questions(later, last, use_doh) == fallback);
                        lemma_unanswered_settled(dns, question, reply, fallback);
                        if use_doh && recorded(dns, ask(RecordKind::A, last)).len() == 0 {
                            assert(fallback[0] == ask_https(RecordKind::A, last));
                            lemma_recorded_stays(
                                dns,
                                question,
                                reply,
                                ask_https(RecordKind::A, last),
                            );
                        }
                        if use_doh && recorded(dns, ask(RecordKind::Aaaa, last)).len() == 0 {
                            assert(fallback[fallback.len() - 1] == ask_https(
                                RecordKind::Aaaa,
                                last,
                            ));
                            lemma_recorded_stays(
                                dns,
                                question,
                                reply,
                                ask_https(RecordKind::Aaaa, last),
                            );
                        }
                        assert(family(later, RecordKind::A, last, use_doh) == ipv4);
                        assert(family(later, RecordKind::Aaaa, last, use_doh) == ipv6);
                        if !disable_ptr_lookups {
                            lemma_reverse_settled(
                                dns,
                                question,
                                reply,
                                distinct(ipv4 + ipv6),
                                Seq::empty(),
                            );
                        }
                    },
                }
            },
        }
    }
}

} // verus!
