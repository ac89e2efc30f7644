//! Host names in normal form, and lists of names without repetition.

use vstd::prelude::*;
use crate::text::{
    chars_of, is_ascii_text, is_whitespace, lemma_lowercase_of_small, lemma_trim_end,
    lemma_trim_end_char, lemma_trim_start, lowercase, str_eq, string_of, to_lowercase, trim,
    trim_end_char, trim_end_matches, trimmed,
};

verus! {

/// The normal form of a host name: trimmed, without dots at its end, in
/// lower case.
pub open spec fn normalized(input: Seq<char>) -> Seq<char> {
    lowercase(trim_end_char(trimmed(input), '.'))
}

/// Brings a host name into normal form: removes white space around it and
/// the dots at its end, then turns it to lower case.
pub fn normalize_domain(input: &str) -> (r: String)
    ensures
        r@ == normalized(input@),
{
    let chars = chars_of(input);
    let inner = trim(&chars);
    let bare = trim_end_matches(&inner, '.');
    let text = string_of(&bare);
    to_lowercase(text.as_str())
}

/// `values` with each name in normal form.
pub open spec fn normalized_all(values: Seq<Seq<char>>) -> Seq<Seq<char>> {
    Seq::new(values.len(), |i: int| normalized(values[i]))
}

/// `values` without the empty texts.
pub open spec fn without_empty(values: Seq<Seq<char>>) -> Seq<Seq<char>>
    decreases values.len(),
{
    if values.len() == 0 {
        Seq::empty()
    } else if values.last().len() == 0 {
        without_empty(values.drop_last())
    } else {
        without_empty(values.drop_last()).push(values.last())
    }
}

/// `values` with each text kept where it first occurs and dropped where it
/// occurs again.
pub open spec fn distinct(values: Seq<Seq<char>>) -> Seq<Seq<char>>
    decreases values.len(),
{
    if values.len() == 0 {
        Seq::empty()
    } else {
        let before = distinct(values.drop_last());
        if before.contains(values.last()) {
            before
        } else {
            before.push(values.last())
        }
    }
}

/// Whether no text occurs twice in `values`.
pub open spec fn no_repeats(values: Seq<Seq<char>>) -> bool {
    forall|i: int, j: int| 0 <= i < j < values.len() ==> values[i] != values[j]
}

/// `distinct` neither adds nor loses a text, repeats none, and keeps the
/// texts in the order of their first occurrences.
pub proof fn lemma_distinct(values: Seq<Seq<char>>)
    ensures
        no_repeats(distinct(values)),
        forall|x: Seq<char>| distinct(values).contains(x) <==> values.contains(x),
        distinct(values).len() <= values.len(),
        no_repeats(values) ==> distinct(values) == values,
    decreases values.len(),
{
    if values.len() == 0 {
        assert(distinct(values) =~= values);
    } else {
        let head = values.drop_last();
        let before = distinct(head);
        lemma_distinct(head);
        let last = values.last();
        assert forall|x: Seq<char>| distinct(values).contains(x) <==> values.contains(x) by {
            if values.contains(x) {
                let k = choose|k: int| 0 <= k < values.len() && values[k] == x;
                if k < head.len() {
                    assert(head[k] == x);
                    assert(head.contains(x));
                    assert(before.contains(x));
                    let b = choose|b: int| 0 <= b < before.len() && before[b] == x;
                    assert(distinct(values)[b] == x);
                } else {
                    if !before.contains(last) {
                        assert(distinct(values)[before.len() as int] == x);
                    }
                }
            }
            if distinct(values).contains(x) {
                let b = choose|b: int| 0 <= b < distinct(values).len() && distinct(values)[b] == x;
                if b < before.len() {
                    assert(before[b] == x);
                    assert(before.contains(x));
                    assert(head.contains(x));
                    let k = choose|k: int| 0 <= k < head.len() && head[k] == x;
                    assert(values[k] == x);
                } else {
                    assert(values[values.len() - 1] == x);
                }
            }
        }
        if no_repeats(values) {
            assert(no_repeats(head)) by {
                assert forall|i: int, j: int| 0 <= i < j < head.len() implies head[i] != head[j] by {
                    assert(head[i] == values[i] && head[j] == values[j]);
                }
            }
            assert(!before.contains(last)) by {
                if before.contains(last) {
                    let b = choose|b: int| 0 <= b < before.len() && before[b] == last;
                    assert(head[b] == values[b]);
                }
            }
            assert(distinct(values) =~= values);
        }
    }
}

/// The position at which `x` first occurs in `values`, or the length of
/// `values` where it does not occur.
pub open spec fn first_index(values: Seq<Seq<char>>, x: Seq<char>) -> int
    decreases values.len(),
{
    if values.len() == 0 {
        0
    } else if values[0] == x {
        0
    } else {
        1 + first_index(values.drop_first(), x)
    }
}

/// `first_index` finds the first occurrence: the text does not occur before
/// it, and it is the length exactly if the text does not occur.
pub proof fn lemma_first_index(values: Seq<Seq<char>>, x: Seq<char>)
    ensures
        0 <= first_index(values, x) <= values.len(),
        first_index(values, x) < values.len() <==> values.contains(x),
        first_index(values, x) < values.len() ==> values[first_index(values, x)] == x,
        forall|i: int| 0 <= i < first_index(values, x) ==> values[i] != x,
    decreases values.len(),
{
    if values.len() > 0 && values[0] != x {
        let rest = values.drop_first();
        lemma_first_index(rest, x);
        assert forall|i: int| 0 <= i < first_index(values, x) implies values[i] != x by {
            if i > 0 {
                assert(values[i] == rest[i - 1]);
            }
        }
        if first_index(values, x) < values.len() {
            assert(values[first_index(values, x)] == rest[first_index(rest, x)]);
        }
        if values.contains(x) {
            let k = choose|k: int| 0 <= k < values.len() && values[k] == x;
            assert(rest[k - 1] == x);
        }
    }
}

/// Where a text occurs first is where it occurs first in any longer list
/// that begins with this one.
pub proof fn lemma_first_index_push(values: Seq<Seq<char>>, y: Seq<char>, x: Seq<char>)
    ensures
        first_index(values.push(y), x) == if values.contains(x) {
            first_index(values, x)
        } else if y == x {
            values.len() as int
        } else {
            (values.len() + 1) as int
        },
    decreases values.len(),
{
    let longer = values.push(y);
    if values.len() == 0 {
        assert(longer.drop_first() =~= Seq::<Seq<char>>::empty());
        assert(longer[0] == y);
        assert(first_index(longer.drop_first(), x) == 0);
    } else {
        let rest = values.drop_first();
        assert(longer.drop_first() =~= rest.push(y));
        assert(longer[0] == values[0]);
        lemma_first_index_push(rest, y, x);
        if values[0] == x {
            assert(values.contains(values[0]));
        } else {
            if values.contains(x) {
                let k = choose|k: int| 0 <= k < values.len() && values[k] == x;
                assert(rest[k - 1] == x);
            }
            if rest.contains(x) {
                let k = choose|k: int| 0 <= k < rest.len() && rest[k] == x;
                assert(values[k + 1] == x);
            }
        }
    }
}

/// `distinct` keeps the order of the first occurrences: of two texts that it
/// keeps, the one that occurs first in `values` comes first.
pub proof fn lemma_distinct_order(values: Seq<Seq<char>>)
    ensures
        forall|a: int, b: int|
            0 <= a < b < distinct(values).len() ==> first_index(
                values,
                #[trigger] distinct(values)[a],
            ) < first_index(values, #[trigger] distinct(values)[b]),
    decreases values.len(),
{
    let kept = distinct(values);
    if values.len() > 0 {
        let head = values.drop_last();
        let last = values.last();
        let before = distinct(head);
        lemma_distinct_order(head);
        lemma_distinct(head);
        assert(head.push(last) =~= values);
        assert forall|a: int, b: int| 0 <= a < b < kept.len() implies first_index(
            values,
            #[trigger] kept[a],
        ) < first_index(values, #[trigger] kept[b]) by {
            lemma_first_index_push(head, last, kept[a]);
            lemma_first_index_push(head, last, kept[b]);
            lemma_first_index(head, kept[a]);
            lemma_first_index(head, kept[b]);
            assert(before[a] == kept[a]);
            assert(before.contains(before[a]));
            if b < before.len() {
                assert(before[b] == kept[b]);
                assert(before.contains(before[b]));
            } else {
                assert(kept[b] == last);
                assert(!before.contains(last));
            }
        }
    }
}

/// Tells whether `values` holds the text `wanted`.
pub fn holds(values: &Vec<String>, wanted: &str) -> (r: bool)
    ensures
        r == values.deep_view().contains(wanted@),
{
    let ghost all = values.deep_view();
    let mut i: usize = 0;
    while i < values.len()
        invariant
            i <= values@.len(),
            all == values.deep_view(),
            forall|k: int| 0 <= k < i ==> all[k] != wanted@,
        decreases values@.len() - i,
    {
        if str_eq(values[i].as_str(), wanted) {
            proof {
                assert(all[i as int] == wanted@);
            }
            return true;
        }
        i += 1;
    }
    false
}

/// Brings every name of `values` into normal form.
pub fn normalize_all(values: &Vec<String>) -> (r: Vec<String>)
    ensures
        r.deep_view() == normalized_all(values.deep_view()),
{
    let mut out: Vec<String> = Vec::new();
    let mut i: usize = 0;
    while i < values.len()
        invariant
            i <= values@.len(),
            out@.len() == i,
            forall|k: int| 0 <= k < i ==> (#[trigger] out@[k])@ == normalized(values@[k]@),
        decreases values@.len() - i,
    {
        out.push(normalize_domain(values[i].as_str()));
        i += 1;
    }
    out
}

/// Copies `values` without the empty texts.
pub fn drop_empty(values: &Vec<String>) -> (r: Vec<String>)
    ensures
        r.deep_view() == without_empty(values.deep_view()),
{
    let ghost all = values.deep_view();
    let mut out: Vec<String> = Vec::new();
    let mut i: usize = 0;
    while i < values.len()
        invariant
            i <= values@.len(),
            all == values.deep_view(),
            out.deep_view() == without_empty(all.take(i as int)),
        decreases values@.len() - i,
    {
        proof {
            assert(all.take(i + 1).drop_last() =~= all.take(i as int));
        }
        if values[i].as_str().unicode_len() > 0 {
            out.push(values[i].clone());
        }
        i += 1;
    }
    proof {
        assert(all.take(values@.len() as int) =~= all);
    }
    out
}

/// Copies `values`, keeping each text where it first occurs.
pub fn dedup(values: &Vec<String>) -> (r: Vec<String>)
    ensures
        r.deep_view() == distinct(values.deep_view()),
{
    let ghost all = values.deep_view();
    let mut out: Vec<String> = Vec::new();
    let mut i: usize = 0;
    while i < values.len()
        invariant
            i <= values@.len(),
            all == values.deep_view(),
            out.deep_view() == distinct(all.take(i as int)),
        decreases values@.len() - i,
    {
        proof {
            assert(all.take(i + 1).drop_last() =~= all.take(i as int));
        }
        if !holds(&out, values[i].as_str()) {
            out.push(values[i].clone());
        }
        i += 1;
    }
    proof {
        assert(all.take(values@.len() as int) =~= all);
    }
    out
}

/// The names of `values` in normal form, without the empty ones, each kept
/// where it first occurs.
pub open spec fn unique_names(values: Seq<Seq<char>>) -> Seq<Seq<char>> {
    distinct(without_empty(normalized_all(values)))
}

/// Normalizes the names of `values`, drops those that come out empty, and
/// keeps each of the others where it first occurs.
pub fn unique_hosts(values: &Vec<String>) -> (r: Vec<String>)
    ensures
        r.deep_view() == unique_names(values.deep_view()),
        no_repeats(r.deep_view()),
        forall|i: int| 0 <= i < r@.len() ==> (#[trigger] r.deep_view()[i]).len() > 0,
{
    let names = normalize_all(values);
    let kept = drop_empty(&names);
    let out = dedup(&kept);
    proof {
        lemma_distinct(kept.deep_view());
        assert forall|i: int| 0 <= i < out@.len() implies (#[trigger] out.deep_view()[i]).len()
            > 0 by {
            let x = out.deep_view()[i];
            lemma_without_empty(names.deep_view(), x);
        }
    }
    out
}

/// `without_empty` keeps exactly the texts that are not empty.
pub proof fn lemma_without_empty(values: Seq<Seq<char>>, x: Seq<char>)
    ensures
        without_empty(values).contains(x) <==> values.contains(x) && x.len() > 0,
    decreases values.len(),
{
    let kept = without_empty(values);
    if values.len() > 0 {
        let head = values.drop_last();
        let before = without_empty(head);
        lemma_without_empty(head, x);
        if kept.contains(x) {
            let k = choose|k: int| 0 <= k < kept.len() && kept[k] == x;
            if k < before.len() {
                assert(before[k] == x);
                assert(before.contains(x));
                let m = choose|m: int| 0 <= m < head.len() && head[m] == x;
                assert(values[m] == x);
            } else {
                assert(values[values.len() - 1] == x);
            }
        }
        if values.contains(x) && x.len() > 0 {
            let m = choose|m: int| 0 <= m < values.len() && values[m] == x;
            if m < head.len() {
                assert(head[m] == x);
                assert(head.contains(x));
                let k = choose|k: int| 0 <= k < before.len() && before[k] == x;
                assert(kept[k] == x);
            } else {
                assert(kept[before.len() as int] == x);
            }
        }
    }
}

/// Whether a name is written plainly: in ASCII, without capital letters,
/// with a character at least, without white space at either end and without
/// a dot at its end.
pub open spec fn plain_name(s: Seq<char>) -> bool {
    &&& s.len() > 0
    &&& is_ascii_text(s)
    &&& forall|i: int| 0 <= i < s.len() ==> !('A' <= #[trigger] s[i] <= 'Z')
    &&& !is_whitespace(s[0])
    &&& !is_whitespace(s.last())
    &&& s.last() != '.'
}

/// A name that is written plainly is in normal form.
pub proof fn lemma_plain_name(s: Seq<char>)
    requires
        plain_name(s),
    ensures
        normalized(s) == s,
{
    lemma_trim_start(s, 0);
    assert(s.skip(0) =~= s);
    lemma_trim_end(s, s.len() as int);
    assert(s.take(s.len() as int) =~= s);
    lemma_trim_end_char(s, '.', s.len() as int);
    lemma_lowercase_of_small(s);
}

/// Of names that are written plainly, the list without repetition is the
/// list itself with each name kept where it first occurs: nothing is
/// changed and nothing is dropped but the repetitions.
pub proof fn lemma_unique_plain_names(values: Seq<Seq<char>>)
    requires
        forall|i: int| 0 <= i < values.len() ==> plain_name(#[trigger] values[i]),
    ensures
        unique_names(values) == distinct(values),
    decreases values.len(),
{
    assert(normalized_all(values) =~= values) by {
        assert forall|i: int| 0 <= i < values.len() implies normalized(#[trigger] values[i])
            == values[i] by {
            lemma_plain_name(values[i]);
        }
    }
    lemma_without_empty_keeps(values);
}

/// A list without empty texts loses nothing when the empty texts are dropped.
pub proof fn lemma_without_empty_keeps(values: Seq<Seq<char>>)
    requires
        forall|i: int| 0 <= i < values.len() ==> (#[trigger] values[i]).len() > 0,
    ensures
        without_empty(values) == values,
    decreases values.len(),
{
    if values.len() > 0 {
        let head = values.drop_last();
        assert forall|i: int| 0 <= i < head.len() implies (#[trigger] head[i]).len() > 0 by {
            assert(head[i] == values[i]);
        }
        lemma_without_empty_keeps(head);
        assert(head.push(values.last()) =~= values);
    } else {
        assert(values =~= Seq::<Seq<char>>::empty());
    }
}

} // verus!
