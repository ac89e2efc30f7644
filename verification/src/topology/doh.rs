//! What the answers of DNS-over-HTTPS endpoints come to.
//!
//! An endpoint answers with a list of entries, each with a `data` text or
//! without one. The caller sends the requests; the rules for reading the
//! answers, and for which endpoints are raced, are here.

use vstd::prelude::*;
use crate::dns::RecordKind;
use crate::text::trimmed;
use crate::topology::names::{
    dedup, distinct, drop_empty, lemma_distinct, no_repeats, normalize_domain, normalized,
    without_empty,
};
use crate::topology::settings::{or_text, trim_text};

verus! {

/// How many endpoints are asked at the same time.
pub const MAX_RACING_ENDPOINTS: usize = 3;

/// The value that one entry of an answer stands for: its `data`, trimmed,
/// and for a CNAME brought into the normal form of a host name. An entry
/// without data, or with nothing but white space, stands for the empty text.
pub open spec fn entry_value(data: Option<Seq<char>>, kind: RecordKind) -> Seq<char> {
    let raw = trimmed(or_text(data, Seq::empty()));
    if raw.len() == 0 {
        Seq::empty()
    } else if kind == RecordKind::Cname {
        normalized(raw)
    } else {
        raw
    }
}

/// The values of all entries of an answer, in order.
pub open spec fn entry_values(answers: Seq<Option<Seq<char>>>, kind: RecordKind) -> Seq<Seq<char>> {
    Seq::new(answers.len(), |i: int| entry_value(answers[i], kind))
}

/// What [`doh_values`] returns: the values of the entries without the empty
/// ones, each kept where it first occurs.
pub open spec fn answer_values(answers: Seq<Option<Seq<char>>>, kind: RecordKind) -> Seq<Seq<char>> {
    distinct(without_empty(entry_values(answers, kind)))
}

/// What values that were recorded as an answer of the endpoints come to:
/// each is read as the `data` of an entry, so that what is recorded raw and
/// what is recorded clean come to the same.
pub open spec fn cleaned(values: Seq<Seq<char>>, kind: RecordKind) -> Seq<Seq<char>> {
    answer_values(Seq::new(values.len(), |i: int| Some(values[i])), kind)
}

/// What [`query_doh_records`] returns: the values of the first of the
/// answers that has any, and nothing where none has.
pub open spec fn first_answer(responses: Seq<Seq<Option<Seq<char>>>>, kind: RecordKind) -> Seq<
    Seq<char>,
>
    decreases responses.len(),
{
    if responses.len() == 0 {
        Seq::empty()
    } else if answer_values(responses[0], kind).len() > 0 {
        answer_values(responses[0], kind)
    } else {
        first_answer(responses.drop_first(), kind)
    }
}

/// Reads one entry of an answer.
pub fn doh_value(data: &Option<String>, kind: RecordKind) -> (r: String)
    ensures
        r@ == entry_value(data.deep_view(), kind),
{
    let raw = match data {
        Some(text) => trim_text(text.as_str()),
        None => {
            proof {
                reveal_strlit("");
            }
            trim_text("")
        },
    };
    if raw.as_str().unicode_len() == 0 {
        String::new()
    } else if kind == RecordKind::Cname {
        normalize_domain(raw.as_str())
    } else {
        raw
    }
}

/// Reads the answer of one endpoint: the values of its entries, without the
/// empty ones and without repetition.
pub fn doh_values(answers: &Vec<Option<String>>, kind: RecordKind) -> (r: Vec<String>)
    ensures
        r.deep_view() == answer_values(answers.deep_view(), kind),
        no_repeats(r.deep_view()),
{
    let mut values: Vec<String> = Vec::new();
    let mut i: usize = 0;
    while i < answers.len()
        invariant
            i <= answers@.len(),
            values@.len() == i,
            forall|k: int|
                0 <= k < i ==> (#[trigger] values@[k])@ == entry_value(
                    answers@[k].deep_view(),
                    kind,
                ),
        decreases answers@.len() - i,
    {
        values.push(doh_value(&answers[i], kind));
        i += 1;
    }
    proof {
        assert(values.deep_view() =~= entry_values(answers.deep_view(), kind));
    }
    let kept = drop_empty(&values);
    proof {
        lemma_distinct(kept.deep_view());
    }
    dedup(&kept)
}

/// Reads values that were recorded as an answer of the endpoints: trims
/// each, brings a CNAME into normal form, and drops the empty ones and the
/// repetitions.
pub fn clean_values(values: &Vec<String>, kind: RecordKind) -> (r: Vec<String>)
    ensures
        r.deep_view() == cleaned(values.deep_view(), kind),
        no_repeats(r.deep_view()),
{
    let mut entries: Vec<Option<String>> = Vec::new();
    let mut i: usize = 0;
    while i < values.len()
        invariant
            i <= values@.len(),
            entries@.len() == i,
            forall|k: int| 0 <= k < i ==> (#[trigger] entries@[k]).deep_view() == Some(values@[k]@),
        decreases values@.len() - i,
    {
        entries.push(Some(values[i].clone()));
        i += 1;
    }
    proof {
        assert(entries.deep_view() =~= Seq::new(
            values.deep_view().len(),
            |i: int| Some(values.deep_view()[i]),
        ));
    }
    doh_values(&entries, kind)
}

/// The endpoints that take part in a race: the first three of the list.
pub fn doh_race_endpoints(doh_endpoints: &Vec<String>) -> (r: Vec<String>)
    ensures
        r.deep_view() == doh_endpoints.deep_view().take(
            if doh_endpoints@.len() < MAX_RACING_ENDPOINTS {
                doh_endpoints@.len() as int
            } else {
                MAX_RACING_ENDPOINTS as int
            },
        ),
{
    let mut out: Vec<String> = Vec::new();
    let mut i: usize = 0;
    while i < doh_endpoints.len() && i < MAX_RACING_ENDPOINTS
        invariant
            i <= doh_endpoints@.len(),
            i <= MAX_RACING_ENDPOINTS,
            out@.len() == i,
            forall|k: int| 0 <= k < i ==> (#[trigger] out@[k])@ == doh_endpoints@[k]@,
        decreases doh_endpoints@.len() - i,
    {
        out.push(doh_endpoints[i].clone());
        i += 1;
    }
    out
}

/// Settles a race between endpoints. `responses` holds the answers that came
/// back, in the order in which they came; a request that failed has no
/// place in it. The values of the first answer that has any are the result;
/// it is empty where no answer has any.
pub fn query_doh_records(responses: &Vec<Vec<Option<String>>>, kind: RecordKind) -> (r: Vec<
    String,
>)
    ensures
        r.deep_view() == first_answer(responses.deep_view(), kind),
{
    let ghost all = responses.deep_view();
    let mut i: usize = 0;
    proof {
        assert(all.skip(0) =~= all);
    }
    while i < responses.len()
        invariant
            i <= responses@.len(),
            all == responses.deep_view(),
            first_answer(all, kind) == first_answer(all.skip(i as int), kind),
        decreases responses@.len() - i,
    {
        let values = doh_values(&responses[i], kind);
        proof {
            assert(all.skip(i as int).drop_first() =~= all.skip(i + 1));
        }
        if values.len() > 0 {
            return values;
        }
        i += 1;
    }
    Vec::new()
}

/// The name by which a kind of record goes in a query to an endpoint; the
/// addresses of both families together are no kind that an endpoint knows.
pub open spec fn record_type_name(kind: RecordKind) -> Option<Seq<char>> {
    match kind {
        RecordKind::Txt => Some("TXT"@),
        RecordKind::Address => None,
        RecordKind::A => Some("A"@),
        RecordKind::Aaaa => Some("AAAA"@),
        RecordKind::Mx => Some("MX"@),
        RecordKind::Ptr => Some("PTR"@),
        RecordKind::Cname => Some("CNAME"@),
    }
}

/// Names the kind of record for the `type` parameter of a query to an
/// endpoint.
pub fn doh_record_type(kind: RecordKind) -> (r: Option<String>)
    ensures
        r.deep_view() == record_type_name(kind),
{
    match kind {
        RecordKind::Txt => Some(String::from_str("TXT")),
        RecordKind::Address => None,
        RecordKind::A => Some(String::from_str("A")),
        RecordKind::Aaaa => Some(String::from_str("AAAA")),
        RecordKind::Mx => Some(String::from_str("MX")),
        RecordKind::Ptr => Some(String::from_str("PTR")),
        RecordKind::Cname => Some(String::from_str("CNAME")),
    }
}

} // verus!
