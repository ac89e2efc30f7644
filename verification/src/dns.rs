//! The DNS answers an audit has gathered so far.
//!
//! The engines of this crate never query the network. They read a
//! [`DnsSnapshot`]; where it lacks an answer they name the [`Question`], and
//! the caller records the [`Reply`] before asking the engine again.

use vstd::prelude::*;
use crate::text::str_eq;

verus! {

/// What is asked about a name.
#[derive(Clone, Copy, Debug, PartialEq, Eq, Structural)]
pub enum RecordKind {
    /// The TXT records of a domain, each with its parts joined.
    Txt,
    /// The addresses of a host, IPv4 and IPv6 alike, in textual form.
    Address,
    /// The IPv4 addresses of a host, in textual form.
    A,
    /// The IPv6 addresses of a host, in textual form.
    Aaaa,
    /// The mail exchanges of a domain.
    Mx,
    /// The host names that an address, given in textual form, points back to.
    Ptr,
    /// The canonical names that a name is an alias of.
    Cname,
}

/// Which service is asked.
#[derive(Clone, Copy, Debug, PartialEq, Eq, Structural)]
pub enum Channel {
    /// The recursive resolver that the caller has selected.
    Resolver,
    /// The DNS-over-HTTPS endpoints, raced against each other.
    Https,
}

/// One lookup: a kind of record, a service and the name asked about.
#[derive(Debug)]
pub struct Question {
    pub kind: RecordKind,
    pub channel: Channel,
    pub name: String,
}

/// The mathematical content of a [`Question`].
pub struct QuestionView {
    pub kind: RecordKind,
    pub channel: Channel,
    pub name: Seq<char>,
}

impl DeepView for Question {
    type V = QuestionView;

    open spec fn deep_view(&self) -> QuestionView {
        QuestionView { kind: self.kind, channel: self.channel, name: self.name@ }
    }
}

impl View for Question {
    type V = QuestionView;

    open spec fn view(&self) -> QuestionView {
        self.deep_view()
    }
}

impl Clone for Question {
    fn clone(&self) -> (r: Self)
        ensures
            r@ == self@,
    {
        Question { kind: self.kind, channel: self.channel, name: self.name.clone() }
    }
}

impl Question {
    /// The question of the given kind about `name`, put to the resolver.
    pub fn new(kind: RecordKind, name: &str) -> (q: Question)
        ensures
            q@ == ask(kind, name@),
    {
        Question { kind, channel: Channel::Resolver, name: String::from_str(name) }
    }

    /// The question of the given kind about `name`, put to the
    /// DNS-over-HTTPS endpoints.
    pub fn over_https(kind: RecordKind, name: &str) -> (q: Question)
        ensures
            q@ == ask_https(kind, name@),
    {
        Question { kind, channel: Channel::Https, name: String::from_str(name) }
    }
}

/// The question of the given kind about `name`, put to the resolver.
pub open spec fn ask(kind: RecordKind, name: Seq<char>) -> QuestionView {
    QuestionView { kind, channel: Channel::Resolver, name }
}

/// The question of the given kind about `name`, put to the DNS-over-HTTPS
/// endpoints.
pub open spec fn ask_https(kind: RecordKind, name: Seq<char>) -> QuestionView {
    QuestionView { kind, channel: Channel::Https, name }
}

/// What came back for a question.
#[derive(Debug)]
pub enum Reply {
    /// The record values, in the order received; possibly none.
    Records(Vec<String>),
    /// The lookup failed or timed out; the text says how.
    Failed(String),
}

/// The mathematical content of a [`Reply`].
pub enum ReplyView {
    Records(Seq<Seq<char>>),
    Failed(Seq<char>),
}

impl DeepView for Reply {
    type V = ReplyView;

    open spec fn deep_view(&self) -> ReplyView {
        match self {
            Reply::Records(values) => ReplyView::Records(values.deep_view()),
            Reply::Failed(message) => ReplyView::Failed(message@),
        }
    }
}

impl View for Reply {
    type V = ReplyView;

    open spec fn view(&self) -> ReplyView {
        self.deep_view()
    }
}

impl ReplyView {
    /// The record values of the reply; none where the lookup failed.
    pub open spec fn values(self) -> Seq<Seq<char>> {
        match self {
            ReplyView::Records(values) => values,
            ReplyView::Failed(_) => Seq::empty(),
        }
    }
}

/// A question with the reply it got.
#[derive(Debug)]
pub struct Exchange {
    pub question: Question,
    pub reply: Reply,
}

/// The mathematical content of an [`Exchange`].
pub struct ExchangeView {
    pub question: QuestionView,
    pub reply: ReplyView,
}

impl DeepView for Exchange {
    type V = ExchangeView;

    open spec fn deep_view(&self) -> ExchangeView {
        ExchangeView { question: self.question@, reply: self.reply@ }
    }
}

impl View for Exchange {
    type V = ExchangeView;

    open spec fn view(&self) -> ExchangeView {
        self.deep_view()
    }
}

/// The reply that the first of `exchanges` about `question` holds.
pub open spec fn first_reply(exchanges: Seq<ExchangeView>, question: QuestionView) -> Option<
    ReplyView,
>
    decreases exchanges.len(),
{
    if exchanges.len() == 0 {
        None
    } else if exchanges[0].question == question {
        Some(exchanges[0].reply)
    } else {
        first_reply(exchanges.drop_first(), question)
    }
}

/// The exchanges recorded so far, oldest first. A question is answered by the
/// first exchange about it; what is recorded about it later changes nothing.
#[derive(Debug)]
pub struct DnsSnapshot {
    pub exchanges: Vec<Exchange>,
}

/// The mathematical content of a [`DnsSnapshot`].
pub struct DnsView {
    pub exchanges: Seq<ExchangeView>,
}

impl DnsView {
    /// The reply on record for `question`, if there is one.
    pub open spec fn answer(self, question: QuestionView) -> Option<ReplyView> {
        first_reply(self.exchanges, question)
    }

    /// The snapshot with one more exchange at its end.
    pub open spec fn with(self, question: QuestionView, reply: ReplyView) -> DnsView {
        DnsView { exchanges: self.exchanges.push(ExchangeView { question, reply }) }
    }
}

impl DeepView for DnsSnapshot {
    type V = DnsView;

    open spec fn deep_view(&self) -> DnsView {
        DnsView { exchanges: self.exchanges.deep_view() }
    }
}

impl View for DnsSnapshot {
    type V = DnsView;

    open spec fn view(&self) -> DnsView {
        self.deep_view()
    }
}

/// What `first_reply` finds from position `from` on is what it finds in the
/// remainder taken alone.
pub proof fn lemma_first_reply_skip(exchanges: Seq<ExchangeView>, question: QuestionView, k: int)
    requires
        0 <= k <= exchanges.len(),
        forall|i: int| 0 <= i < k ==> (#[trigger] exchanges[i]).question != question,
    ensures
        first_reply(exchanges, question) == first_reply(exchanges.skip(k), question),
    decreases k,
{
    if k == 0 {
        assert(exchanges.skip(0) =~= exchanges);
    } else {
        let rest = exchanges.drop_first();
        assert forall|i: int| 0 <= i < k - 1 implies (#[trigger] rest[i]).question != question by {
            assert(rest[i] == exchanges[i + 1]);
        }
        lemma_first_reply_skip(rest, question, k - 1);
        assert(rest.skip(k - 1) =~= exchanges.skip(k));
    }
}

/// Recording an exchange answers its question where it had no answer, and
/// changes no answer that was there.
pub proof fn lemma_record(dns: DnsView, question: QuestionView, reply: ReplyView, other: QuestionView)
    ensures
        dns.with(question, reply).answer(other) == match dns.answer(other) {
            Some(r) => Some(r),
            None => if other == question {
                Some(reply)
            } else {
                None
            },
        },
    decreases dns.exchanges.len(),
{
    let extended = dns.with(question, reply).exchanges;
    if dns.exchanges.len() == 0 {
        assert(extended.drop_first() =~= Seq::<ExchangeView>::empty());
    } else {
        let rest = DnsView { exchanges: dns.exchanges.drop_first() };
        assert(extended.drop_first() =~= rest.with(question, reply).exchanges);
        lemma_record(rest, question, reply, other);
    }
}

impl DnsSnapshot {
    /// The snapshot that holds no answer.
    pub fn new() -> (dns: DnsSnapshot)
        ensures
            dns@.exchanges.len() == 0,
            forall|q: QuestionView| dns@.answer(q) is None,
    {
        DnsSnapshot { exchanges: Vec::new() }
    }

    /// Adds an exchange. It answers `question` from now on unless an earlier
    /// exchange already does; every other answer stays as it was.
    pub fn record(&mut self, question: Question, reply: Reply)
        ensures
            final(self)@ == old(self)@.with(question@, reply@),
            forall|q: QuestionView| #[trigger]
                final(self)@.answer(q) == match old(self)@.answer(q) {
                    Some(r) => Some(r),
                    None => if q == question@ {
                        Some(reply@)
                    } else {
                        None
                    },
                },
    {
        let ghost before = self@;
        let ghost q = question@;
        let ghost r = reply@;
        self.exchanges.push(Exchange { question, reply });
        proof {
            assert(self@.exchanges =~= before.with(q, r).exchanges);
            assert forall|other: QuestionView| #[trigger]
                self@.answer(other) == match before.answer(other) {
                    Some(x) => Some(x),
                    None => if other == q {
                        Some(r)
                    } else {
                        None
                    },
                } by {
                lemma_record(before, q, r, other);
            }
        }
    }

    /// The reply on record for the question of the given kind and channel
    /// about `name`.
    pub fn find(&self, kind: RecordKind, channel: Channel, name: &str) -> (r: Option<&Reply>)
        ensures
            r.deep_view() == self@.answer(QuestionView { kind, channel, name: name@ }),
    {
        let ghost question = QuestionView { kind, channel, name: name@ };
        let mut i: usize = 0;
        while i < self.exchanges.len()
            invariant
                i <= self.exchanges@.len(),
                question == (QuestionView { kind, channel, name: name@ }),
                forall|k: int| 0 <= k < i ==> (#[trigger] self@.exchanges[k]).question != question,
            decreases self.exchanges@.len() - i,
        {
            let e = &self.exchanges[i];
            if e.question.kind == kind && e.question.channel == channel && str_eq(
                e.question.name.as_str(),
                name,
            ) {
                proof {
                    lemma_first_reply_skip(self@.exchanges, question, i as int);
                }
                return Some(&e.reply);
            }
            i += 1;
        }
        proof {
            lemma_first_reply_skip(self@.exchanges, question, i as int);
        }
        None
    }
}

} // verus!
