//! Characters and character sequences: white space, trimming, splitting,
//! letter case.

use vstd::prelude::*;

verus! {

/// Whether `c` has the Unicode property White_Space.
pub open spec fn is_whitespace(c: char) -> bool {
    let n = c as u32;
    ||| 0x09 <= n <= 0x0D
    ||| n == 0x20
    ||| n == 0x85
    ||| n == 0xA0
    ||| n == 0x1680
    ||| 0x2000 <= n <= 0x200A
    ||| n == 0x2028
    ||| n == 0x2029
    ||| n == 0x202F
    ||| n == 0x205F
    ||| n == 0x3000
}

/// Tells whether `c` is white space.
#[verifier::when_used_as_spec(is_whitespace)]
pub fn whitespace(c: char) -> (b: bool)
    ensures
        b == is_whitespace(c),
{
    let n: u32 = c as u32;
    (0x09 <= n && n <= 0x0D) || n == 0x20 || n == 0x85 || n == 0xA0 || n == 0x1680 || (0x2000 <= n
        && n <= 0x200A) || n == 0x2028 || n == 0x2029 || n == 0x202F || n == 0x205F || n == 0x3000
}

/// `c` with an ASCII capital letter replaced by its small letter.
pub open spec fn ascii_lower(c: char) -> char {
    if 'A' <= c <= 'Z' {
        ((c as u8) + 32) as char
    } else {
        c
    }
}

/// Maps an ASCII capital letter to its small letter and leaves every other
/// character as it is.
pub fn to_ascii_lower(c: char) -> (r: char)
    ensures
        r == ascii_lower(c),
{
    if 'A' <= c && c <= 'Z' {
        ((c as u8) + 32) as char
    } else {
        c
    }
}

/// Whether `a` and `b` are equal up to the case of ASCII letters.
pub open spec fn eq_ignore_ascii_case(a: Seq<char>, b: Seq<char>) -> bool {
    a.len() == b.len() && forall|i: int| 0 <= i < a.len() ==> ascii_lower(#[trigger] a[i]) == ascii_lower(b[i])
}

/// Whether `s` begins with `prefix`, up to the case of ASCII letters.
pub open spec fn starts_with_ignore_ascii_case(s: Seq<char>, prefix: Seq<char>) -> bool {
    s.len() >= prefix.len() && eq_ignore_ascii_case(s.take(prefix.len() as int), prefix)
}

/// `s` without its leading white space.
pub open spec fn trim_start(s: Seq<char>) -> Seq<char>
    decreases s.len(),
{
    if s.len() > 0 && is_whitespace(s[0]) {
        trim_start(s.drop_first())
    } else {
        s
    }
}

/// `s` without its trailing white space.
pub open spec fn trim_end(s: Seq<char>) -> Seq<char>
    decreases s.len(),
{
    if s.len() > 0 && is_whitespace(s.last()) {
        trim_end(s.drop_last())
    } else {
        s
    }
}

/// `s` without leading and trailing white space.
pub open spec fn trimmed(s: Seq<char>) -> Seq<char> {
    trim_end(trim_start(s))
}

/// `s` without the run of `c` at its end.
pub open spec fn trim_end_char(s: Seq<char>, c: char) -> Seq<char>
    decreases s.len(),
{
    if s.len() > 0 && s.last() == c {
        trim_end_char(s.drop_last(), c)
    } else {
        s
    }
}

/// The words of `s` that follow a word begun with the characters `current`:
/// a word ends at white space or at the end of `s`, and no word is empty.
pub open spec fn words_after(s: Seq<char>, current: Seq<char>) -> Seq<Seq<char>>
    decreases s.len(),
{
    let done = if current.len() > 0 {
        seq![current]
    } else {
        Seq::<Seq<char>>::empty()
    };
    if s.len() == 0 {
        done
    } else if is_whitespace(s[0]) {
        done + words_after(s.drop_first(), Seq::<char>::empty())
    } else {
        words_after(s.drop_first(), current.push(s[0]))
    }
}

/// The maximal runs of characters of `s` that hold no white space, in order.
pub open spec fn words(s: Seq<char>) -> Seq<Seq<char>> {
    words_after(s, Seq::<char>::empty())
}

/// The position of the first `c` in `s`, or the length of `s` if there is none.
pub open spec fn index_of(s: Seq<char>, c: char) -> int
    decreases s.len(),
{
    if s.len() == 0 {
        0
    } else if s[0] == c {
        0
    } else {
        1 + index_of(s.drop_first(), c)
    }
}

/// `index_of` finds the first `c`: no `c` stands before it, and it is the
/// length exactly if there is no `c`.
pub proof fn lemma_index_of(s: Seq<char>, c: char)
    ensures
        0 <= index_of(s, c) <= s.len(),
        forall|i: int| 0 <= i < index_of(s, c) ==> s[i] != c,
        index_of(s, c) < s.len() ==> s[index_of(s, c)] == c,
        s.contains(c) <==> index_of(s, c) < s.len(),
    decreases s.len(),
{
    if s.len() == 0 {
    } else if s[0] == c {
    } else {
        let t = s.drop_first();
        lemma_index_of(t, c);
        assert forall|i: int| 0 <= i < index_of(s, c) implies s[i] != c by {
            if i > 0 {
                assert(s[i] == t[i - 1]);
            }
        }
        if index_of(s, c) < s.len() {
            assert(s[index_of(s, c)] == t[index_of(t, c)]);
        }
        if s.contains(c) {
            let k = choose|k: int| 0 <= k < s.len() && s[k] == c;
            assert(t[k - 1] == c);
        }
    }
}

/// Whether `s` holds ASCII characters only.
pub open spec fn is_ascii_text(s: Seq<char>) -> bool {
    forall|i: int| 0 <= i < s.len() ==> (#[trigger] s[i]) as u32 <= 0x7f
}

/// `s` with every ASCII capital letter replaced by its small letter.
pub open spec fn ascii_lowered(s: Seq<char>) -> Seq<char> {
    Seq::new(s.len(), |i: int| ascii_lower(s[i]))
}

/// The lower-case form, as Unicode defines it, of a text that holds a
/// character outside ASCII.
pub uninterp spec fn unicode_lowercase(s: Seq<char>) -> Seq<char>;

/// The lower-case form of `s` as Unicode defines it. For a text of ASCII
/// characters it is the text with its capital letters replaced by their
/// small letters; for any other text it is named and not spelled out.
pub open spec fn lowercase(s: Seq<char>) -> Seq<char> {
    if is_ascii_text(s) {
        ascii_lowered(s)
    } else {
        unicode_lowercase(s)
    }
}

/// Calls `str::to_lowercase`. Its result is the lower-case form of the
/// argument under Unicode's rules. Of a text that holds ASCII characters
/// only, these rules change the capital letters `A` to `Z` into their small
/// letters and nothing else, and the contract says so. Of any other text
/// the contract only gives the result its name.
#[verifier::external_body]
pub(crate) fn to_lowercase(s: &str) -> (r: String)
    ensures
        r@ == if is_ascii_text(s@) {
            ascii_lowered(s@)
        } else {
            unicode_lowercase(s@)
        },
{
    s.to_lowercase()
}

/// `String::push` appends the character to the end of the string.
pub assume_specification[ String::push ](s: &mut String, c: char)
    ensures
        final(s)@ == old(s)@.push(c),
;

/// The string made of the characters of `chars`, in order.
pub fn string_of(chars: &Vec<char>) -> (r: String)
    ensures
        r@ == chars@,
{
    let mut out = String::new();
    let mut i: usize = 0;
    while i < chars.len()
        invariant
            i <= chars@.len(),
            out@ == chars@.take(i as int),
        decreases chars@.len() - i,
    {
        out.push(chars[i]);
        i += 1;
    }
    out
}

/// The characters of `s`, in order.
pub fn chars_of(s: &str) -> (v: Vec<char>)
    ensures
        v@ == s@,
{
    let mut v: Vec<char> = Vec::new();
    for c in it: s.chars()
        invariant
            v@ == it.seq().take(it.index() as int),
            it.seq() == s@,
    {
        v.push(c);
    }
    v
}

/// Whether two string slices hold the same characters.
pub fn str_eq(a: &str, b: &str) -> (r: bool)
    ensures
        r == (a@ == b@),
{
    let x = String::from_str(a);
    let y = String::from_str(b);
    x == y
}

/// The characters of `v` from position `from` up to, not including, `to`.
pub fn slice(v: &Vec<char>, from: usize, to: usize) -> (r: Vec<char>)
    requires
        from <= to <= v@.len(),
    ensures
        r@ == v@.subrange(from as int, to as int),
{
    let mut r: Vec<char> = Vec::new();
    let mut i: usize = from;
    while i < to
        invariant
            from <= i <= to <= v@.len(),
            r@ == v@.subrange(from as int, i as int),
        decreases to - i,
    {
        r.push(v[i]);
        i += 1;
    }
    r
}

/// Where the first `k` characters are white space and the next one is not,
/// `trim_start` drops exactly those `k`.
pub proof fn lemma_trim_start(s: Seq<char>, k: int)
    requires
        0 <= k <= s.len(),
        forall|i: int| 0 <= i < k ==> is_whitespace(#[trigger] s[i]),
        k < s.len() ==> !is_whitespace(s[k]),
    ensures
        trim_start(s) == s.skip(k),
    decreases k,
{
    if k == 0 {
        assert(s.skip(0) =~= s);
    } else {
        let t = s.drop_first();
        assert forall|i: int| 0 <= i < k - 1 implies is_whitespace(#[trigger] t[i]) by {
            assert(t[i] == s[i + 1]);
        }
        lemma_trim_start(t, k - 1);
        assert(t.skip(k - 1) =~= s.skip(k));
    }
}

/// Where all characters from position `k` on are white space and the one
/// before is not, `trim_end` keeps exactly the first `k`.
pub proof fn lemma_trim_end(s: Seq<char>, k: int)
    requires
        0 <= k <= s.len(),
        forall|i: int| k <= i < s.len() ==> is_whitespace(#[trigger] s[i]),
        k > 0 ==> !is_whitespace(s[k - 1]),
    ensures
        trim_end(s) == s.take(k),
    decreases s.len() - k,
{
    if k == s.len() {
        assert(s.take(k) =~= s);
    } else {
        let t = s.drop_last();
        lemma_trim_end(t, k);
        assert(t.take(k) =~= s.take(k));
    }
}

/// Where all characters from position `k` on are `c` and the one before is
/// not, `trim_end_char` keeps exactly the first `k`.
pub proof fn lemma_trim_end_char(s: Seq<char>, c: char, k: int)
    requires
        0 <= k <= s.len(),
        forall|i: int| k <= i < s.len() ==> #[trigger] s[i] == c,
        k > 0 ==> s[k - 1] != c,
    ensures
        trim_end_char(s, c) == s.take(k),
    decreases s.len() - k,
{
    if k == s.len() {
        assert(s.take(k) =~= s);
    } else {
        let t = s.drop_last();
        lemma_trim_end_char(t, c, k);
        assert(t.take(k) =~= s.take(k));
    }
}

/// Removes leading and trailing white space.
pub fn trim(v: &Vec<char>) -> (r: Vec<char>)
    ensures
        r@ == trimmed(v@),
{
    let n: usize = v.len();
    let mut start: usize = 0;
    while start < n && whitespace(v[start])
        invariant
            start <= n == v@.len(),
            forall|i: int| 0 <= i < start ==> is_whitespace(#[trigger] v@[i]),
        decreases n - start,
    {
        start += 1;
    }
    let mut end: usize = n;
    while end > start && whitespace(v[end - 1])
        invariant
            start <= end <= n == v@.len(),
            forall|i: int| end <= i < n ==> is_whitespace(#[trigger] v@[i]),
        decreases end,
    {
        end -= 1;
    }
    proof {
        lemma_trim_start(v@, start as int);
        let t = v@.skip(start as int);
        lemma_trim_end(t, end - start);
    }
    slice(v, start, end)
}

/// Removes every `c` that stands at the end.
pub fn trim_end_matches(v: &Vec<char>, c: char) -> (r: Vec<char>)
    ensures
        r@ == trim_end_char(v@, c),
{
    let mut end: usize = v.len();
    while end > 0 && v[end - 1] == c
        invariant
            end <= v@.len(),
            forall|i: int| end <= i < v@.len() ==> #[trigger] v@[i] == c,
        decreases end,
    {
        end -= 1;
    }
    proof {
        lemma_trim_end_char(v@, c, end as int);
    }
    slice(v, 0, end)
}

/// The position of the first `c` in `v`, if there is one.
pub fn find_char(v: &Vec<char>, c: char) -> (r: Option<usize>)
    ensures
        match r {
            Some(i) => i == index_of(v@, c) && i < v@.len(),
            None => index_of(v@, c) == v@.len(),
        },
        r is Some <==> v@.contains(c),
{
    let mut i: usize = 0;
    proof {
        lemma_index_of(v@, c);
    }
    while i < v.len()
        invariant
            i <= v@.len(),
            forall|k: int| 0 <= k < i ==> v@[k] != c,
            0 <= index_of(v@, c) <= v@.len(),
            forall|k: int| 0 <= k < index_of(v@, c) ==> v@[k] != c,
            index_of(v@, c) < v@.len() ==> v@[index_of(v@, c)] == c,
            v@.contains(c) <==> index_of(v@, c) < v@.len(),
        decreases v@.len() - i,
    {
        if v[i] == c {
            return Some(i);
        }
        i += 1;
    }
    None
}

/// How `words_after` goes on by one character.
pub proof fn lemma_words_after_step(s: Seq<char>, i: int, current: Seq<char>)
    requires
        0 <= i < s.len(),
    ensures
        words_after(s.skip(i), current) == if is_whitespace(s[i]) {
            (if current.len() > 0 {
                seq![current]
            } else {
                Seq::<Seq<char>>::empty()
            }) + words_after(s.skip(i + 1), Seq::<char>::empty())
        } else {
            words_after(s.skip(i + 1), current.push(s[i]))
        },
{
    assert(s.skip(i).drop_first() =~= s.skip(i + 1));
}

/// Splits at white space; the pieces are the words, none of them empty.
pub fn split_whitespace(v: &Vec<char>) -> (r: Vec<Vec<char>>)
    ensures
        r.deep_view() == words(v@),
{
    let mut out: Vec<Vec<char>> = Vec::new();
    let mut current: Vec<char> = Vec::new();
    let mut i: usize = 0;
    proof {
        assert(v@.skip(0) =~= v@);
    }
    while i < v.len()
        invariant
            i <= v@.len(),
            words(v@) == out.deep_view() + words_after(v@.skip(i as int), current@),
        decreases v@.len() - i,
    {
        let c = v[i];
        let ghost before = out.deep_view();
        let ghost cur = current@;
        proof {
            lemma_words_after_step(v@, i as int, current@);
        }
        if whitespace(c) {
            if current.len() > 0 {
                out.push(current);
                current = Vec::new();
                proof {
                    assert(out.deep_view() =~~= before + seq![cur]);
                }
            } else {
                proof {
                    assert(current@ =~= Seq::<char>::empty());
                }
            }
        } else {
            current.push(c);
        }
        i += 1;
    }
    let ghost before = out.deep_view();
    let ghost cur = current@;
    if current.len() > 0 {
        out.push(current);
        proof {
            assert(out.deep_view() =~~= before + seq![cur]);
        }
    }
    out
}

/// Tells whether `v` begins with `prefix`, up to the case of ASCII letters.
pub fn starts_with_ignore_case(v: &Vec<char>, prefix: &Vec<char>) -> (r: bool)
    ensures
        r == starts_with_ignore_ascii_case(v@, prefix@),
{
    if v.len() < prefix.len() {
        return false;
    }
    let mut i: usize = 0;
    while i < prefix.len()
        invariant
            i <= prefix@.len() <= v@.len(),
            forall|k: int| 0 <= k < i ==> ascii_lower(#[trigger] v@[k]) == ascii_lower(prefix@[k]),
        decreases prefix@.len() - i,
    {
        if to_ascii_lower(v[i]) != to_ascii_lower(prefix[i]) {
            proof {
                assert(v@.take(prefix@.len() as int)[i as int] == v@[i as int]);
            }
            return false;
        }
        i += 1;
    }
    true
}

/// Tells whether `a` and `b` are equal up to the case of ASCII letters.
pub fn eq_ignore_case(a: &Vec<char>, b: &Vec<char>) -> (r: bool)
    ensures
        r == eq_ignore_ascii_case(a@, b@),
{
    if a.len() != b.len() {
        return false;
    }
    proof {
        assert(a@.take(b@.len() as int) =~= a@);
    }
    starts_with_ignore_case(a, b)
}

/// Whether `s` ends with `suffix`.
pub open spec fn ends_with(s: Seq<char>, suffix: Seq<char>) -> bool {
    s.len() >= suffix.len() && s.skip(s.len() - suffix.len()) == suffix
}

/// Tells whether `v` ends with `suffix`.
pub fn has_suffix(v: &Vec<char>, suffix: &Vec<char>) -> (r: bool)
    ensures
        r == ends_with(v@, suffix@),
{
    if v.len() < suffix.len() {
        return false;
    }
    let n: usize = v.len();
    let offset: usize = n - suffix.len();
    let mut i: usize = 0;
    while i < suffix.len()
        invariant
            i <= suffix@.len() <= v@.len() == n,
            offset == v@.len() - suffix@.len(),
            forall|k: int| 0 <= k < i ==> v@[offset + k] == suffix@[k],
        decreases suffix@.len() - i,
    {
        if v[offset + i] != suffix[i] {
            return false;
        }
        i += 1;
    }
    proof {
        assert(v@.skip(offset as int) =~= suffix@);
    }
    true
}

/// Whether `w` holds a character and no white space.
pub open spec fn is_word(w: Seq<char>) -> bool {
    w.len() > 0 && forall|k: int| 0 <= k < w.len() ==> !is_whitespace(#[trigger] w[k])
}

/// Where the word begun holds no white space, every word of `words_after`
/// holds a character and no white space.
pub proof fn lemma_words_after(s: Seq<char>, current: Seq<char>)
    requires
        forall|k: int| 0 <= k < current.len() ==> !is_whitespace(#[trigger] current[k]),
    ensures
        forall|i: int|
            0 <= i < words_after(s, current).len() ==> is_word(#[trigger] words_after(s, current)[i]),
    decreases s.len(),
{
    let done = if current.len() > 0 {
        seq![current]
    } else {
        Seq::<Seq<char>>::empty()
    };
    assert forall|i: int| 0 <= i < done.len() implies is_word(#[trigger] done[i]) by {
        assert(done[i] == current);
    }
    if s.len() == 0 {
        assert(words_after(s, current) == done);
        assert(forall|i: int|
            0 <= i < words_after(s, current).len() ==> is_word(#[trigger] words_after(s, current)[i]));
    } else if is_whitespace(s[0]) {
        let rest = words_after(s.drop_first(), Seq::<char>::empty());
        lemma_words_after(s.drop_first(), Seq::<char>::empty());
        assert(words_after(s, current) == done + rest);
        assert forall|i: int| 0 <= i < (done + rest).len() implies is_word(
            #[trigger] (done + rest)[i],
        ) by {
            if i < done.len() {
                assert((done + rest)[i] == done[i]);
            } else {
                assert((done + rest)[i] == rest[i - done.len()]);
            }
        }
        assert(forall|i: int|
            0 <= i < words_after(s, current).len() ==> is_word(#[trigger] words_after(s, current)[i]));
    } else {
        let next = current.push(s[0]);
        assert forall|k: int| 0 <= k < next.len() implies !is_whitespace(#[trigger] next[k]) by {
            if k < current.len() {
                assert(next[k] == current[k]);
            }
        }
        lemma_words_after(s.drop_first(), next);
        assert(words_after(s, current) == words_after(s.drop_first(), next));
    }
}

/// Every word of `s` holds a character and no white space.
pub proof fn lemma_words(s: Seq<char>)
    ensures
        forall|i: int| 0 <= i < words(s).len() ==> is_word(#[trigger] words(s)[i]),
{
    lemma_words_after(s, Seq::<char>::empty());
}

/// The character of a decimal digit.
pub open spec fn digit_char(d: nat) -> char
    recommends
        d < 10,
{
    if d == 0 {
        '0'
    } else if d == 1 {
        '1'
    } else if d == 2 {
        '2'
    } else if d == 3 {
        '3'
    } else if d == 4 {
        '4'
    } else if d == 5 {
        '5'
    } else if d == 6 {
        '6'
    } else if d == 7 {
        '7'
    } else if d == 8 {
        '8'
    } else {
        '9'
    }
}

/// The decimal digit that `c` is, if it is one.
pub open spec fn digit_value(c: char) -> Option<nat> {
    if '0' <= c <= '9' {
        Some((c as u32 - '0' as u32) as nat)
    } else {
        None
    }
}

/// The decimal numeral of `n`, without leading zeros.
pub open spec fn decimal(n: nat) -> Seq<char>
    decreases n,
{
    if n < 10 {
        seq![digit_char(n)]
    } else {
        decimal(n / 10).push(digit_char(n % 10))
    }
}

/// The character of the digit `d`.
pub fn digit(d: u8) -> (c: char)
    requires
        d < 10,
    ensures
        c == digit_char(d as nat),
        digit_value(c) == Some(d as nat),
{
    if d == 0 {
        '0'
    } else if d == 1 {
        '1'
    } else if d == 2 {
        '2'
    } else if d == 3 {
        '3'
    } else if d == 4 {
        '4'
    } else if d == 5 {
        '5'
    } else if d == 6 {
        '6'
    } else if d == 7 {
        '7'
    } else if d == 8 {
        '8'
    } else {
        '9'
    }
}

/// Writes `n` as a decimal numeral.
pub fn decimal_text(n: u64) -> (r: String)
    ensures
        r@ == decimal(n as nat),
{
    let mut reversed: Vec<char> = Vec::new();
    let mut rest: u64 = n;
    reversed.push(digit((rest % 10) as u8));
    rest = rest / 10;
    while rest > 0
        invariant
            reversed@.len() > 0,
            decimal(n as nat) == if rest == 0 {
                reversed@.reverse()
            } else {
                decimal(rest as nat) + reversed@.reverse()
            },
        decreases rest,
    {
        reversed.push(digit((rest % 10) as u8));
        rest = rest / 10;
    }
    let mut digits: Vec<char> = Vec::new();
    let mut i: usize = reversed.len();
    while i > 0
        invariant
            i <= reversed@.len(),
            digits@ == reversed@.reverse().take(reversed@.len() - i),
        decreases i,
    {
        digits.push(reversed[i - 1]);
        i -= 1;
    }
    string_of(&digits)
}

/// The number that the decimal digits `s` spell, if they all are digits and
/// the number is no more than `max`.
pub open spec fn digits_value(s: Seq<char>, max: nat) -> Option<nat>
    decreases s.len(),
{
    if s.len() == 0 {
        Some(0)
    } else {
        match (digits_value(s.drop_last(), max), digit_value(s.last())) {
            (Some(high), Some(low)) => if high * 10 + low <= max {
                Some(high * 10 + low)
            } else {
                None
            },
            _ => None,
        }
    }
}

/// The number that `s` spells as an unsigned decimal numeral: an optional
/// `+`, then one digit at least and nothing but digits, spelling a number
/// that is no more than `max`.
pub open spec fn unsigned_value(s: Seq<char>, max: nat) -> Option<nat> {
    let digits = if s.len() > 0 && s[0] == '+' {
        s.skip(1)
    } else {
        s
    };
    if digits.len() == 0 {
        None
    } else {
        digits_value(digits, max)
    }
}

/// Reads an unsigned decimal numeral that fits the machine word.
pub fn parse_unsigned(v: &Vec<char>) -> (r: Option<usize>)
    ensures
        match r {
            Some(n) => unsigned_value(v@, usize::MAX as nat) == Some(n as nat),
            None => unsigned_value(v@, usize::MAX as nat) is None,
        },
{
    let n: usize = v.len();
    let start: usize = if n > 0 && v[0] == '+' {
        1
    } else {
        0
    };
    if start == n {
        return None;
    }
    let ghost digits = v@.skip(start as int);
    let mut value: usize = 0;
    let mut i: usize = start;
    proof {
        if start == 0 {
            assert(digits =~= v@);
        }
    }
    while i < n
        invariant
            start <= i <= n == v@.len(),
            digits == v@.skip(start as int),
            unsigned_value(v@, usize::MAX as nat) == digits_value(digits, usize::MAX as nat),
            digits_value(digits.take(i - start), usize::MAX as nat) == Some(value as nat),
        decreases n - i,
    {
        let c = v[i];
        let ghost next = digits.take(i - start + 1);
        proof {
            assert(next.drop_last() =~= digits.take(i - start));
        }
        if !('0' <= c && c <= '9') {
            proof {
                lemma_digits_value_fails(digits, i - start + 1, usize::MAX as nat);
            }
            return None;
        }
        let low: usize = (c as u32 - '0' as u32) as usize;
        if value > (usize::MAX - low) / 10 {
            proof {
                assert(value * 10 + low > usize::MAX) by (nonlinear_arith)
                    requires
                        value > (usize::MAX - low) / 10,
                        low < 10,
                ;
                lemma_digits_value_fails(digits, i - start + 1, usize::MAX as nat);
            }
            return None;
        }
        proof {
            assert(value * 10 + low <= usize::MAX) by (nonlinear_arith)
                requires
                    value <= (usize::MAX - low) / 10,
                    low < 10,
            ;
        }
        value = value * 10 + low;
        i += 1;
    }
    proof {
        assert(digits.take(n - start) =~= digits);
    }
    Some(value)
}

/// Where a beginning of `s` spells no number, neither does `s`.
pub proof fn lemma_digits_value_fails(s: Seq<char>, k: int, max: nat)
    requires
        0 <= k <= s.len(),
        digits_value(s.take(k), max) is None,
    ensures
        digits_value(s, max) is None,
    decreases s.len() - k,
{
    if k < s.len() {
        assert(s.take(k + 1).drop_last() =~= s.take(k));
        lemma_digits_value_fails(s, k + 1, max);
    } else {
        assert(s.take(k) =~= s);
    }
}

/// Whether `needle` stands in `s` at position `at`.
pub open spec fn occurs_at(s: Seq<char>, needle: Seq<char>, at: int) -> bool {
    0 <= at && at + needle.len() <= s.len() && s.subrange(at, at + needle.len()) == needle
}

/// The first position from `from` on at which `needle` stands in `s`.
pub open spec fn find_from(s: Seq<char>, needle: Seq<char>, from: int) -> Option<int>
    decreases s.len() + 1 - from,
{
    if from < 0 || from + needle.len() > s.len() {
        None
    } else if occurs_at(s, needle, from) {
        Some(from)
    } else {
        find_from(s, needle, from + 1)
    }
}

/// What `find_from` finds is the first occurrence from `from` on, and it
/// finds nothing only where there is none.
pub proof fn lemma_find_from(s: Seq<char>, needle: Seq<char>, from: int)
    requires
        0 <= from,
    ensures
        match find_from(s, needle, from) {
            Some(at) => from <= at && occurs_at(s, needle, at) && forall|k: int|
                from <= k < at ==> !occurs_at(s, needle, k),
            None => forall|k: int| from <= k ==> !occurs_at(s, needle, k),
        },
    decreases s.len() + 1 - from,
{
    if from + needle.len() <= s.len() && !occurs_at(s, needle, from) {
        lemma_find_from(s, needle, from + 1);
    }
}

/// Tells whether `needle` stands in `v` at position `at`.
pub fn stands_at(v: &Vec<char>, needle: &Vec<char>, at: usize) -> (r: bool)
    ensures
        r == occurs_at(v@, needle@, at as int),
{
    let n: usize = v.len();
    if at > n || needle.len() > n - at {
        return false;
    }
    let mut i: usize = 0;
    while i < needle.len()
        invariant
            i <= needle@.len(),
            at + needle@.len() <= v@.len() == n,
            forall|k: int| 0 <= k < i ==> v@[at + k] == needle@[k],
        decreases needle@.len() - i,
    {
        if v[at + i] != needle[i] {
            return false;
        }
        i += 1;
    }
    proof {
        assert(v@.subrange(at as int, at + needle@.len()) =~= needle@);
    }
    true
}

/// Finds the first position from `from` on at which `needle` stands in `v`.
pub fn find_text(v: &Vec<char>, needle: &Vec<char>, from: usize) -> (r: Option<usize>)
    ensures
        match r {
            Some(at) => find_from(v@, needle@, from as int) == Some(at as int) && from <= at
                && at + needle@.len() <= v@.len() <= usize::MAX,
            None => find_from(v@, needle@, from as int) is None,
        },
{
    let mut at: usize = from;
    loop
        invariant
            from <= at,
            find_from(v@, needle@, from as int) == find_from(v@, needle@, at as int),
        decreases v@.len() + 1 - at,
    {
        if at > v.len() || needle.len() > v.len() - at {
            return None;
        }
        if stands_at(v, needle, at) {
            return Some(at);
        }
        proof {
            if needle@.len() == 0 {
                assert(v@.subrange(at as int, at as int) =~= needle@);
            }
        }
        at += 1;
    }
}

/// Tells whether `needle` stands somewhere in `v`.
pub fn contains_text(v: &Vec<char>, needle: &Vec<char>) -> (r: bool)
    ensures
        r == (find_from(v@, needle@, 0) is Some),
        r <==> exists|at: int| occurs_at(v@, needle@, at),
{
    proof {
        lemma_find_from(v@, needle@, 0);
    }
    find_text(v, needle, 0).is_some()
}

/// The decimal numeral of a number spells that number: it holds digits
/// only, a digit at least, and its value is the number.
pub proof fn lemma_decimal(n: nat, max: nat)
    requires
        n <= max,
    ensures
        decimal(n).len() > 0,
        forall|i: int| 0 <= i < decimal(n).len() ==> digit_value(#[trigger] decimal(n)[i]) is Some,
        digits_value(decimal(n), max) == Some(n),
        unsigned_value(decimal(n), max) == Some(n),
    decreases n,
{
    let d = digit_char(n % 10);
    assert(digit_value(d) == Some(n % 10)) by {
        lemma_digit_char(n % 10);
    }
    if n < 10 {
        let s = decimal(n);
        assert(s =~= seq![d]);
        assert(s.drop_last() =~= Seq::<char>::empty());
        assert(digits_value(s.drop_last(), max) == Some(0nat));
        assert(s.last() == d);
    } else {
        let head = decimal(n / 10);
        lemma_decimal(n / 10, max);
        let s = decimal(n);
        assert(s == head.push(d));
        assert(s.drop_last() =~= head);
        assert(s.last() == d);
        assert((n / 10) * 10 + n % 10 == n) by (nonlinear_arith);
        assert forall|i: int| 0 <= i < s.len() implies digit_value(#[trigger] s[i]) is Some by {
            if i < head.len() {
                assert(s[i] == head[i]);
            }
        }
    }
    assert(decimal(n)[0] != '+') by {
        assert(digit_value(decimal(n)[0]) is Some);
    }
}

/// Each digit has its own character.
pub proof fn lemma_digit_char(d: nat)
    requires
        d < 10,
    ensures
        digit_value(digit_char(d)) == Some(d),
{
}

/// Different numbers have different decimal numerals.
pub proof fn lemma_decimal_differs(a: nat, b: nat)
    requires
        a != b,
    ensures
        decimal(a) != decimal(b),
{
    let max = if a < b {
        b
    } else {
        a
    };
    lemma_decimal(a, max);
    lemma_decimal(b, max);
}

/// A text of ASCII characters that holds no capital letter is its own
/// lower-case form.
pub proof fn lemma_lowercase_of_small(s: Seq<char>)
    requires
        is_ascii_text(s),
        forall|i: int| 0 <= i < s.len() ==> !('A' <= #[trigger] s[i] <= 'Z'),
    ensures
        lowercase(s) == s,
{
    assert(ascii_lowered(s) =~= s);
}

} // verus!
