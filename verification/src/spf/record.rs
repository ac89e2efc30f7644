//! The record model and the parser that turns a TXT value into it.

use vstd::prelude::*;
use crate::text::{
    chars_of, find_char, index_of, is_whitespace, lemma_index_of, lemma_lowercase_of_small,
    lemma_trim_end, lemma_trim_start, lemma_words_after_step, lowercase, slice, split_whitespace,
    starts_with_ignore_ascii_case, starts_with_ignore_case, string_of, to_lowercase, trim,
    trimmed, words, words_after,
};

verus! {

/// One test of a record: the qualifier, which is `+` where the token began
/// with none, the lower-cased name, and what followed the first colon.
#[derive(Debug)]
pub struct SPFMechanism {
    pub qualifier: Option<String>,
    pub mechanism: String,
    pub value: Option<String>,
}

/// The mathematical content of an [`SPFMechanism`].
pub struct MechanismView {
    pub qualifier: Option<Seq<char>>,
    pub mechanism: Seq<char>,
    pub value: Option<Seq<char>>,
}

impl DeepView for SPFMechanism {
    type V = MechanismView;

    open spec fn deep_view(&self) -> MechanismView {
        MechanismView {
            qualifier: self.qualifier.deep_view(),
            mechanism: self.mechanism@,
            value: self.value.deep_view(),
        }
    }
}

impl View for SPFMechanism {
    type V = MechanismView;

    open spec fn view(&self) -> MechanismView {
        self.deep_view()
    }
}

impl Clone for SPFMechanism {
    fn clone(&self) -> (r: Self)
        ensures
            r@ == self@,
    {
        SPFMechanism {
            qualifier: self.qualifier.clone(),
            mechanism: self.mechanism.clone(),
            value: self.value.clone(),
        }
    }
}

/// A `key=value` directive of a record, the key lower-cased.
#[derive(Debug)]
pub struct SPFModifier {
    pub key: String,
    pub value: String,
}

/// The mathematical content of an [`SPFModifier`].
pub struct ModifierView {
    pub key: Seq<char>,
    pub value: Seq<char>,
}

impl DeepView for SPFModifier {
    type V = ModifierView;

    open spec fn deep_view(&self) -> ModifierView {
        ModifierView { key: self.key@, value: self.value@ }
    }
}

impl View for SPFModifier {
    type V = ModifierView;

    open spec fn view(&self) -> ModifierView {
        self.deep_view()
    }
}

impl Clone for SPFModifier {
    fn clone(&self) -> (r: Self)
        ensures
            r@ == self@,
    {
        SPFModifier { key: self.key.clone(), value: self.value.clone() }
    }
}

/// A parsed record: the version tag, the mechanisms in the order of the text,
/// and the modifiers in the order of the text.
#[derive(Debug)]
pub struct SPFRecord {
    pub version: String,
    pub mechanisms: Vec<SPFMechanism>,
    pub modifiers: Vec<SPFModifier>,
}

/// The mathematical content of an [`SPFRecord`].
pub struct RecordView {
    pub version: Seq<char>,
    pub mechanisms: Seq<MechanismView>,
    pub modifiers: Seq<ModifierView>,
}

impl DeepView for SPFRecord {
    type V = RecordView;

    open spec fn deep_view(&self) -> RecordView {
        RecordView {
            version: self.version@,
            mechanisms: self.mechanisms.deep_view(),
            modifiers: self.modifiers.deep_view(),
        }
    }
}

impl View for SPFRecord {
    type V = RecordView;

    open spec fn view(&self) -> RecordView {
        self.deep_view()
    }
}

/// The version tag that opens every record.
pub open spec fn spf_tag() -> Seq<char> {
    seq!['v', '=', 's', 'p', 'f', '1']
}

/// Whether `s` begins with the version tag, in any letter case.
pub open spec fn has_spf_tag(s: Seq<char>) -> bool {
    starts_with_ignore_ascii_case(s, spf_tag())
}

/// Whether `c` is one of the four qualifier characters.
pub open spec fn is_qualifier(c: char) -> bool {
    c == '+' || c == '-' || c == '~' || c == '?'
}

/// Whether a token is a modifier: it is one exactly if it holds `=`.
pub open spec fn is_modifier_token(token: Seq<char>) -> bool {
    token.contains('=')
}

/// The modifier that a token with `=` spells: the key is what stands before
/// the first `=`, lower-cased, and the value is all that follows it.
pub open spec fn modifier_of(token: Seq<char>) -> ModifierView {
    let k = index_of(token, '=');
    ModifierView { key: lowercase(token.take(k)), value: token.skip(k + 1) }
}

/// The mechanism that a token without `=` spells: the leading qualifier
/// character, or `+` where the token begins with none; then the name up to
/// the first colon, lower-cased; then the value after that colon if there is
/// a colon.
pub open spec fn mechanism_of(token: Seq<char>) -> MechanismView {
    let qualified = token.len() > 0 && is_qualifier(token[0]);
    let core = if qualified {
        token.skip(1)
    } else {
        token
    };
    let k = index_of(core, ':');
    MechanismView {
        qualifier: if qualified {
            Some(seq![token[0]])
        } else {
            Some(seq!['+'])
        },
        mechanism: lowercase(core.take(k)),
        value: if k < core.len() {
            Some(core.skip(k + 1))
        } else {
            None
        },
    }
}

/// The mechanisms among `tokens`, in order.
pub open spec fn mechanisms_of(tokens: Seq<Seq<char>>) -> Seq<MechanismView>
    decreases tokens.len(),
{
    if tokens.len() == 0 {
        Seq::empty()
    } else if is_modifier_token(tokens.last()) {
        mechanisms_of(tokens.drop_last())
    } else {
        mechanisms_of(tokens.drop_last()).push(mechanism_of(tokens.last()))
    }
}

/// The modifiers among `tokens`, in order.
pub open spec fn modifiers_of(tokens: Seq<Seq<char>>) -> Seq<ModifierView>
    decreases tokens.len(),
{
    if tokens.len() == 0 {
        Seq::empty()
    } else if is_modifier_token(tokens.last()) {
        modifiers_of(tokens.drop_last()).push(modifier_of(tokens.last()))
    } else {
        modifiers_of(tokens.drop_last())
    }
}

/// The tokens of a record: the words that follow the version tag.
pub open spec fn tokens_of(content: Seq<char>) -> Seq<Seq<char>> {
    words(trimmed(content).skip(6))
}

/// What [`parse_spf`] returns: nothing unless the trimmed text begins with
/// the version tag, else the record that its tokens spell.
pub open spec fn parsed_spf(content: Seq<char>) -> Option<RecordView> {
    if has_spf_tag(trimmed(content)) {
        Some(
            RecordView {
                version: spf_tag(),
                mechanisms: mechanisms_of(tokens_of(content)),
                modifiers: modifiers_of(tokens_of(content)),
            },
        )
    } else {
        None
    }
}

/// Reads one token that holds no `=` as a mechanism.
pub fn parse_mechanism(token: &Vec<char>) -> (m: SPFMechanism)
    ensures
        m@ == mechanism_of(token@),
{
    let qualified = token.len() > 0 && (token[0] == '+' || token[0] == '-' || token[0] == '~'
        || token[0] == '?');
    let core = if qualified {
        slice(token, 1, token.len())
    } else {
        slice(token, 0, token.len())
    };
    proof {
        assert(token@.subrange(0, token@.len() as int) =~= token@);
        lemma_index_of(core@, ':');
    }
    let qualifier = if qualified {
        let one = slice(token, 0, 1);
        proof {
            assert(one@ =~= seq![token@[0]]);
        }
        Some(string_of(&one))
    } else {
        let mut plus: Vec<char> = Vec::new();
        plus.push('+');
        proof {
            assert(plus@ =~= seq!['+']);
        }
        Some(string_of(&plus))
    };
    let (name, value) = match find_char(&core, ':') {
        Some(k) => {
            let head = slice(&core, 0, k);
            let tail = slice(&core, k + 1, core.len());
            (head, Some(string_of(&tail)))
        },
        None => {
            let head = slice(&core, 0, core.len());
            (head, None)
        },
    };
    let name_text = string_of(&name);
    SPFMechanism { qualifier, mechanism: to_lowercase(name_text.as_str()), value }
}

/// Reads a token as a modifier, given the position `at` of its first `=`.
pub fn parse_modifier(token: &Vec<char>, at: usize) -> (m: SPFModifier)
    requires
        at < token@.len(),
        at == index_of(token@, '='),
    ensures
        m@ == modifier_of(token@),
{
    let n: usize = token.len();
    let head = slice(token, 0, at);
    let tail = slice(token, at + 1, n);
    let key_text = string_of(&head);
    SPFModifier { key: to_lowercase(key_text.as_str()), value: string_of(&tail) }
}

/// Tells whether `content` begins with the version tag, in any letter case.
pub fn starts_with_spf_tag(content: &Vec<char>) -> (r: bool)
    ensures
        r == has_spf_tag(content@),
{
    let tag = chars_of("v=spf1");
    proof {
        reveal_strlit("v=spf1");
    }
    starts_with_ignore_case(content, &tag)
}

/// Turns the text of a TXT record into a record model. Returns `None` unless
/// the text, once trimmed, begins with `v=spf1` in any letter case. What
/// follows the tag is split at white space; a token with `=` is a modifier,
/// any other a mechanism, and each list keeps the order of the text.
pub fn parse_spf(content: &str) -> (r: Option<SPFRecord>)
    ensures
        r.deep_view() == parsed_spf(content@),
{
    let chars = chars_of(content);
    let text = trim(&chars);
    if !starts_with_spf_tag(&text) {
        return None;
    }
    let rest = slice(&text, 6, text.len());
    let tokens = split_whitespace(&rest);
    let ghost all = tokens.deep_view();
    let mut mechanisms: Vec<SPFMechanism> = Vec::new();
    let mut modifiers: Vec<SPFModifier> = Vec::new();
    let mut i: usize = 0;
    while i < tokens.len()
        invariant
            i <= tokens@.len(),
            all == tokens.deep_view(),
            mechanisms.deep_view() == mechanisms_of(all.take(i as int)),
            modifiers.deep_view() == modifiers_of(all.take(i as int)),
        decreases tokens@.len() - i,
    {
        let token = &tokens[i];
        proof {
            assert(all.take(i + 1).drop_last() =~= all.take(i as int));
            assert(all[i as int] =~= token@);
        }
        match find_char(token, '=') {
            Some(at) => {
                let modifier = parse_modifier(token, at);
                modifiers.push(modifier);
            },
            None => {
                let mechanism = parse_mechanism(token);
                mechanisms.push(mechanism);
            },
        }
        i += 1;
    }
    proof {
        assert(all.take(tokens@.len() as int) =~= all);
        reveal_strlit("v=spf1");
        assert("v=spf1"@ =~= spf_tag());
    }
    Some(SPFRecord { version: String::from_str("v=spf1"), mechanisms, modifiers })
}

/// Every mechanism has a qualifier, one of the four characters, and the
/// qualifier of a token that begins with none of them is `+`.
pub proof fn lemma_qualifier(token: Seq<char>)
    ensures
        mechanism_of(token).qualifier matches Some(q) && q.len() == 1 && is_qualifier(q[0]),
        !(token.len() > 0 && is_qualifier(token[0])) ==> mechanism_of(token).qualifier == Some(
            seq!['+'],
        ),
        token.len() > 0 && is_qualifier(token[0]) ==> mechanism_of(token).qualifier == Some(
            seq![token[0]],
        ),
{
}

/// Every mechanism of a record has a qualifier, one of the four characters.
pub proof fn lemma_qualifiers(tokens: Seq<Seq<char>>)
    ensures
        forall|i: int|
            0 <= i < mechanisms_of(tokens).len() ==> ((#[trigger] mechanisms_of(
                tokens,
            )[i]).qualifier matches Some(q) && q.len() == 1 && is_qualifier(q[0])),
    decreases tokens.len(),
{
    if tokens.len() > 0 {
        lemma_qualifiers(tokens.drop_last());
        lemma_qualifier(tokens.last());
    }
}

/// The record `v=spf1 -all` is read as the one mechanism `all` with the
/// qualifier `-` and without a value, and no modifier.
pub proof fn lemma_minus_all_record()
    ensures
        parsed_spf("v=spf1 -all"@) == Some(
            RecordView {
                version: spf_tag(),
                mechanisms: seq![
                    MechanismView { qualifier: Some("-"@), mechanism: "all"@, value: None },
                ],
                modifiers: Seq::empty(),
            },
        ),
{
    reveal_strlit("v=spf1 -all");
    reveal_strlit("-");
    reveal_strlit("all");
    let s = "v=spf1 -all"@;
    lemma_trim_start(s, 0);
    assert(s.skip(0) =~= s);
    lemma_trim_end(s, 11);
    assert(s.take(11) =~= s);
    assert(trimmed(s) == s);
    assert(has_spf_tag(s)) by {
        assert(s.take(6) =~= spf_tag());
    }
    let t = s.skip(6);
    let none = Seq::<char>::empty();
    let token = seq!['-', 'a', 'l', 'l'];
    assert(words(t) == seq![token]) by {
        assert(t.skip(0) =~= t);
        lemma_words_after_step(t, 0, none);
        assert(is_whitespace(t[0]));
        lemma_words_after_step(t, 1, none);
        lemma_words_after_step(t, 2, none.push('-'));
        lemma_words_after_step(t, 3, none.push('-').push('a'));
        lemma_words_after_step(t, 4, none.push('-').push('a').push('l'));
        assert(none.push('-').push('a').push('l').push('l') =~= token);
        assert(t.skip(5).len() == 0);
        assert(words_after(t.skip(5), token) == seq![token]);
        assert(Seq::<Seq<char>>::empty() + seq![token] =~= seq![token]);
    }
    let tokens = seq![token];
    assert(!token.contains('='));
    let core = token.skip(1);
    assert(core =~= "all"@);
    lemma_index_of(core, ':');
    assert(!core.contains(':'));
    assert(core.take(3) =~= core);
    lemma_lowercase_of_small(core);
    assert(seq![token[0]] =~= "-"@);
    assert(mechanism_of(token) == MechanismView {
        qualifier: Some("-"@),
        mechanism: "all"@,
        value: None,
    });
    let head = tokens.drop_last();
    assert(head.len() == 0);
    assert(tokens.last() == token);
    assert(!is_modifier_token(tokens.last()));
    assert(mechanisms_of(head) =~= Seq::<MechanismView>::empty());
    assert(modifiers_of(head) =~= Seq::<ModifierView>::empty());
    assert(mechanisms_of(tokens) =~= seq![mechanism_of(token)]);
    assert(modifiers_of(tokens) =~= Seq::<ModifierView>::empty());
}

} // verus!
