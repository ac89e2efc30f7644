//! Secrets: the in-memory store that stands in where the system keyring is
//! unavailable, and the rules by which a long secret is cut into the chunks
//! that a keyring entry can hold.

use vstd::prelude::*;
use crate::text::{
    chars_of, decimal, decimal_text, lemma_decimal, lemma_decimal_differs, parse_unsigned, slice,
    str_eq, string_of, unsigned_value,
};

verus! {

/// The most bytes that one keyring entry is given.
pub const KEYRING_MAX_VALUE_BYTES: usize = 2000;

/// What can go wrong with the store.
#[derive(Debug)]
pub enum StorageError {
    Error(String),
    NotFound,
    KeyringError(String),
}

/// The mathematical content of a [`StorageError`].
pub enum StorageErrorView {
    Error(Seq<char>),
    NotFound,
    KeyringError(Seq<char>),
}

impl DeepView for StorageError {
    type V = StorageErrorView;

    open spec fn deep_view(&self) -> StorageErrorView {
        match self {
            StorageError::Error(m) => StorageErrorView::Error(m@),
            StorageError::NotFound => StorageErrorView::NotFound,
            StorageError::KeyringError(m) => StorageErrorView::KeyringError(m@),
        }
    }
}

impl View for StorageError {
    type V = StorageErrorView;

    open spec fn view(&self) -> StorageErrorView {
        self.deep_view()
    }
}

impl StorageError {
    /// The text of the error.
    pub fn message(&self) -> (r: String)
        ensures
            r@ == match self@ {
                StorageErrorView::Error(m) => "Storage error: "@ + m,
                StorageErrorView::NotFound => "Not found"@,
                StorageErrorView::KeyringError(m) => "Keyring error: "@ + m,
            },
    {
        match self {
            StorageError::Error(m) => String::from_str("Storage error: ").concat(m.as_str()),
            StorageError::NotFound => String::from_str("Not found"),
            StorageError::KeyringError(m) => String::from_str("Keyring error: ").concat(
                m.as_str(),
            ),
        }
    }
}

/// A secret held in memory.
#[derive(Debug)]
pub struct Secret {
    pub key: String,
    pub value: String,
}

/// The mathematical content of a [`Secret`].
pub struct SecretView {
    pub key: Seq<char>,
    pub value: Seq<char>,
}

impl DeepView for Secret {
    type V = SecretView;

    open spec fn deep_view(&self) -> SecretView {
        SecretView { key: self.key@, value: self.value@ }
    }
}

impl View for Secret {
    type V = SecretView;

    open spec fn view(&self) -> SecretView {
        self.deep_view()
    }
}

/// The value of the first of `secrets` under `key`.
pub open spec fn secret_under(secrets: Seq<SecretView>, key: Seq<char>) -> Option<Seq<char>>
    decreases secrets.len(),
{
    if secrets.len() == 0 {
        None
    } else if secrets[0].key == key {
        Some(secrets[0].value)
    } else {
        secret_under(secrets.drop_first(), key)
    }
}

/// Whether no two of `secrets` have the same key.
pub open spec fn distinct_secrets(secrets: Seq<SecretView>) -> bool {
    forall|i: int, j: int|
        0 <= i < j < secrets.len() ==> (#[trigger] secrets[i]).key != (#[trigger] secrets[j]).key
}

/// What is found under a key is the value of the one secret with that key.
pub proof fn lemma_secret_under(secrets: Seq<SecretView>, key: Seq<char>)
    requires
        distinct_secrets(secrets),
    ensures
        match secret_under(secrets, key) {
            Some(value) => exists|i: int|
                0 <= i < secrets.len() && (#[trigger] secrets[i]).key == key && secrets[i].value
                    == value,
            None => forall|i: int| 0 <= i < secrets.len() ==> (#[trigger] secrets[i]).key != key,
        },
        forall|i: int|
            0 <= i < secrets.len() && (#[trigger] secrets[i]).key == key ==> secret_under(
                secrets,
                key,
            ) == Some(secrets[i].value),
    decreases secrets.len(),
{
    if secrets.len() > 0 {
        let rest = secrets.drop_first();
        assert(distinct_secrets(rest)) by {
            assert forall|i: int, j: int| 0 <= i < j < rest.len() implies (#[trigger] rest[i]).key
                != (#[trigger] rest[j]).key by {
                assert(rest[i] == secrets[i + 1] && rest[j] == secrets[j + 1]);
            }
        }
        lemma_secret_under(rest, key);
        if secrets[0].key == key {
            assert forall|i: int| 0 <= i < secrets.len() && (#[trigger] secrets[i]).key
                == key implies secret_under(secrets, key) == Some(secrets[i].value) by {
                if i > 0 {
                    assert(secrets[0].key != secrets[i].key);
                }
            }
        } else {
            match secret_under(rest, key) {
                Some(value) => {
                    let k = choose|k: int|
                        0 <= k < rest.len() && (#[trigger] rest[k]).key == key && rest[k].value
                            == value;
                    assert(secrets[k + 1] == rest[k]);
                },
                None => {
                    assert forall|i: int| 0 <= i < secrets.len() implies (
                    #[trigger] secrets[i]).key != key by {
                        if i > 0 {
                            assert(secrets[i] == rest[i - 1]);
                        }
                    }
                },
            }
            assert forall|i: int| 0 <= i < secrets.len() && (#[trigger] secrets[i]).key
                == key implies secret_under(secrets, key) == Some(secrets[i].value) by {
                assert(secrets[i] == rest[i - 1]);
            }
        }
    }
}

/// The store of secrets. It uses the system keyring where that is wanted and
/// works, and keeps a secret in memory where it does not. In memory no two
/// secrets have the same key.
#[derive(Debug)]
pub struct Storage {
    pub(crate) memory_store: Vec<Secret>,
    pub(crate) use_keyring: bool,
}

impl View for Storage {
    type V = Seq<SecretView>;

    closed spec fn view(&self) -> Seq<SecretView> {
        self.memory_store.deep_view()
    }
}

/// The text that marks a keyring entry as the head of a chunked secret; the
/// number of chunks follows it.
pub open spec fn chunk_marker() -> Seq<char> {
    "__chunked__:"@
}

/// The number of chunks that a keyring entry announces: the entry begins
/// with the marker, and what follows is an unsigned decimal numeral that
/// fits the machine word.
pub open spec fn chunk_count(value: Seq<char>) -> Option<nat> {
    if value.len() >= chunk_marker().len() && value.take(chunk_marker().len() as int)
        == chunk_marker() {
        unsigned_value(value.skip(chunk_marker().len() as int), usize::MAX as nat)
    } else {
        None
    }
}

/// Reads the number of chunks from the head entry of a chunked secret;
/// `None` where the entry is no such head.
pub fn parse_chunk_marker(value: &str) -> (r: Option<usize>)
    ensures
        match r {
            Some(n) => chunk_count(value@) == Some(n as nat),
            None => chunk_count(value@) is None,
        },
{
    let chars = chars_of(value);
    let marker = chars_of("__chunked__:");
    if chars.len() < marker.len() {
        return None;
    }
    let head = slice(&chars, 0, marker.len());
    if !str_eq(string_of(&head).as_str(), "__chunked__:") {
        return None;
    }
    let tail = slice(&chars, marker.len(), chars.len());
    parse_unsigned(&tail)
}

/// The number of bytes that `c` takes in UTF-8.
pub open spec fn utf8_len(c: char) -> nat {
    let n = c as u32;
    if n < 0x80 {
        1
    } else if n < 0x800 {
        2
    } else if n < 0x10000 {
        3
    } else {
        4
    }
}

/// The number of bytes that `s` takes in UTF-8.
pub open spec fn utf8_size(s: Seq<char>) -> nat
    decreases s.len(),
{
    if s.len() == 0 {
        0
    } else {
        utf8_size(s.drop_last()) + utf8_len(s.last())
    }
}

/// The chunks of `s` that follow a chunk begun with the characters
/// `current`: a chunk ends before the character that would take it over
/// `max_bytes`, but never before it holds a character.
pub open spec fn chunks_after(s: Seq<char>, current: Seq<char>, max_bytes: nat) -> Seq<Seq<char>>
    decreases s.len(),
{
    if s.len() == 0 {
        if current.len() > 0 {
            seq![current]
        } else {
            Seq::empty()
        }
    } else if utf8_size(current) + utf8_len(s[0]) > max_bytes && current.len() > 0 {
        seq![current] + chunks_after(s.drop_first(), seq![s[0]], max_bytes)
    } else {
        chunks_after(s.drop_first(), current.push(s[0]), max_bytes)
    }
}

/// What [`split_value_for_keyring`] returns: the chunks of the value, or one
/// empty chunk for the empty value.
pub open spec fn keyring_chunks(value: Seq<char>, max_bytes: nat) -> Seq<Seq<char>> {
    if value.len() == 0 {
        seq![Seq::empty()]
    } else {
        chunks_after(value, Seq::empty(), max_bytes)
    }
}

/// The texts of `pieces` put together.
pub open spec fn concat(pieces: Seq<Seq<char>>) -> Seq<char>
    decreases pieces.len(),
{
    if pieces.len() == 0 {
        Seq::empty()
    } else {
        pieces[0] + concat(pieces.drop_first())
    }
}

/// The chunks put together are the characters taken in, and no chunk is
/// empty.
pub proof fn lemma_chunks_after(s: Seq<char>, current: Seq<char>, max_bytes: nat)
    ensures
        concat(chunks_after(s, current, max_bytes)) == current + s,
        forall|i: int|
            0 <= i < chunks_after(s, current, max_bytes).len() ==> (#[trigger] chunks_after(
                s,
                current,
                max_bytes,
            )[i]).len() > 0,
    decreases s.len(),
{
    let all = chunks_after(s, current, max_bytes);
    if s.len() == 0 {
        if current.len() > 0 {
            assert(all.drop_first() =~= Seq::<Seq<char>>::empty());
            assert(concat(all.drop_first()) =~= Seq::<char>::empty());
            assert(concat(all) =~= current + s);
        } else {
            assert(concat(all) =~= current + s);
        }
    } else if utf8_size(current) + utf8_len(s[0]) > max_bytes && current.len() > 0 {
        let rest = chunks_after(s.drop_first(), seq![s[0]], max_bytes);
        lemma_chunks_after(s.drop_first(), seq![s[0]], max_bytes);
        assert(all.drop_first() =~= rest);
        assert(concat(all) =~= current + s);
        assert forall|i: int| 0 <= i < all.len() implies (#[trigger] all[i]).len() > 0 by {
            if i > 0 {
                assert(all[i] == rest[i - 1]);
            }
        }
    } else {
        lemma_chunks_after(s.drop_first(), current.push(s[0]), max_bytes);
        assert(current.push(s[0]) + s.drop_first() =~= current + s);
    }
}

/// The chunks of a value, put together, are the value; and no chunk of a
/// value that is not empty is empty.
pub proof fn lemma_keyring_chunks(value: Seq<char>, max_bytes: nat)
    ensures
        concat(keyring_chunks(value, max_bytes)) == value,
        keyring_chunks(value, max_bytes).len() >= 1,
        value.len() > 0 ==> forall|i: int|
            0 <= i < keyring_chunks(value, max_bytes).len() ==> (#[trigger] keyring_chunks(
                value,
                max_bytes,
            )[i]).len() > 0,
{
    let all = keyring_chunks(value, max_bytes);
    if value.len() == 0 {
        assert(all.drop_first() =~= Seq::<Seq<char>>::empty());
        assert(concat(all.drop_first()) =~= Seq::<char>::empty());
        assert(concat(all) =~= value);
    } else {
        lemma_chunks_after(value, Seq::empty(), max_bytes);
        assert(Seq::<char>::empty() + value =~= value);
        lemma_chunks_after_some(value, Seq::empty(), max_bytes);
    }
}

/// Where there is a character to hold, there is a chunk.
pub proof fn lemma_chunks_after_some(s: Seq<char>, current: Seq<char>, max_bytes: nat)
    requires
        s.len() + current.len() > 0,
    ensures
        chunks_after(s, current, max_bytes).len() >= 1,
    decreases s.len(),
{
    if s.len() > 0 {
        if utf8_size(current) + utf8_len(s[0]) > max_bytes && current.len() > 0 {
        } else {
            lemma_chunks_after_some(s.drop_first(), current.push(s[0]), max_bytes);
        }
    }
}

/// The number of bytes that `c` takes in UTF-8.
pub fn char_len_utf8(c: char) -> (n: u8)
    ensures
        n == utf8_len(c),
        1 <= n <= 4,
{
    let code: u32 = c as u32;
    if code < 0x80 {
        1
    } else if code < 0x800 {
        2
    } else if code < 0x10000 {
        3
    } else {
        4
    }
}

/// A character takes four bytes at most.
pub proof fn lemma_utf8_size_bound(s: Seq<char>)
    ensures
        utf8_size(s) <= 4 * s.len(),
    decreases s.len(),
{
    if s.len() > 0 {
        lemma_utf8_size_bound(s.drop_last());
    }
}

/// Cuts a value into chunks of at most `max_bytes` bytes of UTF-8 each,
/// never within a character. A chunk holds one character at least, so a
/// character that alone takes more than `max_bytes` makes a longer chunk.
/// The empty value gives one empty chunk.
pub fn split_value_for_keyring(value: &str, max_bytes: usize) -> (r: Vec<String>)
    ensures
        r.deep_view() == keyring_chunks(value@, max_bytes as nat),
        concat(r.deep_view()) == value@,
        r@.len() >= 1,
{
    proof {
        lemma_keyring_chunks(value@, max_bytes as nat);
    }
    let chars = chars_of(value);
    let mut out: Vec<String> = Vec::new();
    if chars.len() == 0 {
        out.push(String::new());
        return out;
    }
    let mut current: Vec<char> = Vec::new();
    let mut current_bytes: u128 = 0;
    let mut i: usize = 0;
    proof {
        assert(chars@.skip(0) =~= chars@);
    }
    while i < chars.len()
        invariant
            i <= chars@.len(),
            current@.len() <= i,
            current_bytes == utf8_size(current@),
            chunks_after(chars@, Seq::empty(), max_bytes as nat) == out.deep_view() + chunks_after(
                chars@.skip(i as int),
                current@,
                max_bytes as nat,
            ),
        decreases chars@.len() - i,
    {
        let c = chars[i];
        let n = char_len_utf8(c);
        let ghost cur = current@;
        let ghost rest = chars@.skip(i as int);
        proof {
            assert(rest.drop_first() =~= chars@.skip(i + 1));
            lemma_utf8_size_bound(cur);
        }
        if current_bytes + (n as u128) > (max_bytes as u128) && current.len() > 0 {
            out.push(string_of(&current));
            current = Vec::new();
            current_bytes = 0;
        }
        let ghost held = current@;
        current.push(c);
        current_bytes = current_bytes + (n as u128);
        proof {
            assert(current@.drop_last() =~= held);
            lemma_utf8_size_bound(held);
        }
        i += 1;
    }
    if current.len() > 0 {
        out.push(string_of(&current));
    }
    out
}

/// The name of the keyring entry that holds chunk `index` of the secret
/// under `key`.
pub open spec fn chunk_key_for(key: Seq<char>, index: nat) -> Seq<char> {
    key + "::chunk:"@ + decimal(index)
}

impl Storage {
    /// Names the keyring entry that holds chunk `index` of the secret under
    /// `key`.
    pub fn chunk_key(key: &str, index: usize) -> (r: String)
        ensures
            r@ == chunk_key_for(key@, index as nat),
    {
        String::from_str(key).concat("::chunk:").concat(decimal_text(index as u64).as_str())
    }
}

/// One step of writing to the keyring.
#[derive(Debug)]
pub enum KeyringOp {
    /// Set the entry of this name to this value; a failure ends the write.
    Write(String, String),
    /// Delete the entry of this name; a failure is passed over.
    Delete(String),
}

/// The mathematical content of a [`KeyringOp`].
pub enum KeyringOpView {
    Write(Seq<char>, Seq<char>),
    Delete(Seq<char>),
}

impl DeepView for KeyringOp {
    type V = KeyringOpView;

    open spec fn deep_view(&self) -> KeyringOpView {
        match self {
            KeyringOp::Write(name, value) => KeyringOpView::Write(name@, value@),
            KeyringOp::Delete(name) => KeyringOpView::Delete(name@),
        }
    }
}

impl View for KeyringOp {
    type V = KeyringOpView;

    open spec fn view(&self) -> KeyringOpView {
        self.deep_view()
    }
}

/// The steps that set the chunks from position `from` on, each under its
/// chunk name.
pub open spec fn chunk_sets(key: Seq<char>, chunks: Seq<Seq<char>>, from: nat) -> Seq<KeyringOpView>
    decreases chunks.len() - from,
{
    if from >= chunks.len() {
        Seq::empty()
    } else {
        seq![KeyringOpView::Write(chunk_key_for(key, from), chunks[from as int])] + chunk_sets(
            key,
            chunks,
            from + 1,
        )
    }
}

/// The steps that delete the chunk entries from position `from` up to, not
/// including, `to`.
pub open spec fn chunk_deletes(key: Seq<char>, from: nat, to: nat) -> Seq<KeyringOpView>
    decreases to - from,
{
    if from >= to {
        Seq::empty()
    } else {
        seq![KeyringOpView::Delete(chunk_key_for(key, from))] + chunk_deletes(key, from + 1, to)
    }
}

/// The steps that write `value` under `key` where the entry under `key`
/// announced `previous` chunks before.
///
/// A value of one chunk is set under `key` itself, and all chunk entries of
/// before are deleted. A longer value has each chunk set under its chunk
/// name, then the marker with the number of chunks set under `key`, then the
/// chunk entries of before that are no longer used deleted.
pub open spec fn keyring_write(key: Seq<char>, value: Seq<char>, previous: nat) -> Seq<
    KeyringOpView,
> {
    let chunks = keyring_chunks(value, KEYRING_MAX_VALUE_BYTES as nat);
    if chunks.len() == 1 {
        seq![KeyringOpView::Write(key, value)] + chunk_deletes(key, 0, previous)
    } else {
        chunk_sets(key, chunks, 0) + seq![
            KeyringOpView::Write(key, chunk_marker() + decimal(chunks.len())),
        ] + chunk_deletes(key, chunks.len(), previous)
    }
}

/// Adds to `ops` the steps that delete the chunk entries from `from` up to,
/// not including, `to`.
pub fn push_chunk_deletes(ops: &mut Vec<KeyringOp>, key: &str, from: usize, to: usize)
    ensures
        final(ops).deep_view() == old(ops).deep_view() + chunk_deletes(
            key@,
            from as nat,
            to as nat,
        ),
{
    let ghost start = ops.deep_view();
    let mut i: usize = from;
    while i < to
        invariant
            start + chunk_deletes(key@, from as nat, to as nat) == ops.deep_view() + chunk_deletes(
                key@,
                i as nat,
                to as nat,
            ),
        decreases to - i,
    {
        ops.push(KeyringOp::Delete(Storage::chunk_key(key, i)));
        i += 1;
    }
}

impl Storage {
    /// Lists the steps that write `value` under `key` to the keyring, in the
    /// order in which they are to be taken. `previous_chunk_count` is the number
    /// of chunks that the entry under `key` announced before, 0 where it
    /// announced none.
    pub fn write_keyring_secret(key: &str, value: &str, previous_chunk_count: usize) -> (r: Vec<
        KeyringOp,
    >)
        ensures
            r.deep_view() == keyring_write(key@, value@, previous_chunk_count as nat),
    {
        let chunks = split_value_for_keyring(value, KEYRING_MAX_VALUE_BYTES);
        let ghost pieces = chunks.deep_view();
        let mut ops: Vec<KeyringOp> = Vec::new();
        if chunks.len() == 1 {
            ops.push(KeyringOp::Write(String::from_str(key), String::from_str(value)));
            push_chunk_deletes(&mut ops, key, 0, previous_chunk_count);
            return ops;
        }
        let mut i: usize = 0;
        while i < chunks.len()
            invariant
                i <= chunks@.len(),
                pieces == chunks.deep_view(),
                chunk_sets(key@, pieces, 0) == ops.deep_view() + chunk_sets(key@, pieces, i as nat),
            decreases chunks@.len() - i,
        {
            ops.push(KeyringOp::Write(Storage::chunk_key(key, i), chunks[i].clone()));
            i += 1;
        }
        let marker = String::from_str("__chunked__:").concat(
            decimal_text(chunks.len() as u64).as_str(),
        );
        ops.push(KeyringOp::Write(String::from_str(key), marker));
        push_chunk_deletes(&mut ops, key, chunks.len(), previous_chunk_count);
        ops
    }
}

/// The names of the keyring entries that hold the chunks of the secret under
/// `key`, in order.
pub fn chunk_entries(key: &str, chunk_count: usize) -> (r: Vec<String>)
    ensures
        r@.len() == chunk_count,
        forall|i: int| 0 <= i < chunk_count ==> (#[trigger] r@[i])@ == chunk_key_for(key@, i as nat),
{
    let mut out: Vec<String> = Vec::new();
    let mut i: usize = 0;
    while i < chunk_count
        invariant
            i <= chunk_count,
            out@.len() == i,
            forall|k: int| 0 <= k < i ==> (#[trigger] out@[k])@ == chunk_key_for(key@, k as nat),
        decreases chunk_count - i,
    {
        out.push(Storage::chunk_key(key, i));
        i += 1;
    }
    out
}

/// What reading a secret from the keyring needs next.
#[derive(Debug)]
pub enum KeyringRead {
    /// The secret is complete.
    Secret(String),
    /// The entries of these names hold the chunks of the secret, in order.
    Chunks(Vec<String>),
}

impl Storage {
    /// Reads the entry found under `key`: it is the secret itself, or the head
    /// of a chunked secret, which names the chunk entries to read.
    pub fn read_keyring_secret(key: &str, entry: String) -> (r: KeyringRead)
        ensures
            match r {
                KeyringRead::Secret(secret) => chunk_count(entry@) is None && secret@ == entry@,
                KeyringRead::Chunks(names) => chunk_count(entry@) == Some(names@.len() as nat)
                    && forall|i: int|
                    0 <= i < names@.len() ==> (#[trigger] names@[i])@ == chunk_key_for(key@, i as nat),
            },
    {
        match parse_chunk_marker(entry.as_str()) {
            Some(count) => KeyringRead::Chunks(chunk_entries(key, count)),
            None => KeyringRead::Secret(entry),
        }
    }
}

/// Puts the chunks of a secret together.
pub fn join_chunks(chunks: &Vec<String>) -> (r: String)
    ensures
        r@ == concat(chunks.deep_view()),
{
    let ghost all = chunks.deep_view();
    let mut out = String::new();
    let mut i: usize = 0;
    proof {
        assert(all.skip(0) =~= all);
    }
    while i < chunks.len()
        invariant
            i <= chunks@.len(),
            all == chunks.deep_view(),
            concat(all) == out@ + concat(all.skip(i as int)),
        decreases chunks@.len() - i,
    {
        proof {
            assert(all.skip(i as int).drop_first() =~= all.skip(i + 1));
        }
        out.append(chunks[i].as_str());
        i += 1;
    }
    out
}

impl Storage {
    /// The steps that delete the secret under `key` from the keyring, where the
    /// entry under `key` announced `chunk_count` chunks.
    pub fn delete_chunk_entries(key: &str, chunk_count: usize) -> (r: Vec<KeyringOp>)
        ensures
            r.deep_view() == seq![KeyringOpView::Delete(key@)] + chunk_deletes(
                key@,
                0,
                chunk_count as nat,
            ),
    {
        let mut ops: Vec<KeyringOp> = Vec::new();
        ops.push(KeyringOp::Delete(String::from_str(key)));
        push_chunk_deletes(&mut ops, key, 0, chunk_count);
        ops
    }

    #[verifier::type_invariant]
    spec fn well_formed(self) -> bool {
        distinct_secrets(self.memory_store.deep_view())
    }

    /// Whether the keyring is to be tried first.
    pub closed spec fn wants_keyring(&self) -> bool {
        self.use_keyring
    }

    /// What the store holds in memory under `key`.
    pub open spec fn held(&self, key: Seq<char>) -> Option<Seq<char>> {
        secret_under(self@, key)
    }

    /// A store that holds nothing in memory.
    pub fn new(use_keyring: bool) -> (storage: Storage)
        ensures
            storage.wants_keyring() == use_keyring,
            storage@.len() == 0,
            forall|key: Seq<char>| storage.held(key) is None,
    {
        let memory_store: Vec<Secret> = Vec::new();
        Storage { memory_store, use_keyring }
    }

    /// Tells whether the keyring is to be tried first.
    pub fn use_keyring(&self) -> (r: bool)
        ensures
            r == self.wants_keyring(),
    {
        self.use_keyring
    }

    /// Finds the secret under `key` in memory: its position, or the number
    /// of secrets where there is none.
    fn find(&self, key: &str) -> (at: usize)
        ensures
            at <= self@.len(),
            at < self@.len() ==> self@[at as int].key == key@ && self.held(key@) == Some(
                self@[at as int].value,
            ),
            at == self@.len() ==> self.held(key@) is None && forall|i: int|
                0 <= i < self@.len() ==> (#[trigger] self@[i]).key != key@,
            distinct_secrets(self@),
    {
        let mut i: usize = 0;
        while i < self.memory_store.len()
            invariant
                i <= self.memory_store@.len(),
                forall|k: int| 0 <= k < i ==> (#[trigger] self@[k]).key != key@,
            decreases self.memory_store@.len() - i,
        {
            if str_eq(self.memory_store[i].key.as_str(), key) {
                proof {
                    use_type_invariant(self);
                    lemma_secret_under(self@, key@);
                }
                return i;
            }
            i += 1;
        }
        proof {
            use_type_invariant(self);
            lemma_secret_under(self@, key@);
        }
        i
    }

    /// Stores a secret. `keyring_written` tells whether the caller has
    /// written it to the keyring. Where the keyring is wanted and the write
    /// worked, the memory is left alone; else the secret goes to memory,
    /// over the one under the same key where there is one.
    pub fn store_secret(&mut self, key: &str, value: &str, keyring_written: bool)
        ensures
            final(self).wants_keyring() == old(self).wants_keyring(),
            old(self).wants_keyring() && keyring_written ==> final(self)@ == old(self)@,
            !(old(self).wants_keyring() && keyring_written) ==> final(self).held(key@) == Some(
                value@,
            ) && forall|other: Seq<char>|
                other != key@ ==> final(self).held(other) == old(self).held(other),
    {
        if self.use_keyring && keyring_written {
            return ;
        }
        let ghost before = self@;
        let at = self.find(key);
        let mut secrets: Vec<Secret> = Vec::new();
        proof {
            assert(secrets.deep_view() =~= Seq::<SecretView>::empty());
        }
        core::mem::swap(&mut self.memory_store, &mut secrets);
        let secret = Secret { key: String::from_str(key), value: String::from_str(value) };
        let ghost added = secret@;
        if at < secrets.len() {
            secrets[at] = secret;
            proof {
                assert(secrets.deep_view() =~= before.update(at as int, added));
            }
        } else {
            secrets.push(secret);
            proof {
                assert(secrets.deep_view() =~= before.push(added));
            }
        }
        let ghost after = secrets.deep_view();
        proof {
            assert(distinct_secrets(after)) by {
                assert forall|i: int, j: int| 0 <= i < j < after.len() implies (
                #[trigger] after[i]).key != (#[trigger] after[j]).key by {
                    if at < before.len() {
                        assert(after[i].key == before[i].key);
                        assert(after[j].key == before[j].key);
                    } else if j < before.len() {
                        assert(after[i] == before[i] && after[j] == before[j]);
                    } else {
                        assert(after[i] == before[i]);
                    }
                }
            }
            lemma_secret_under(after, key@);
            assert(after[at as int] == added);
            assert forall|other: Seq<char>| other != key@ implies secret_under(after, other)
                == secret_under(before, other) by {
                lemma_secret_under(after, other);
                lemma_secret_under(before, other);
                match secret_under(before, other) {
                    Some(v) => {
                        let k = choose|k: int|
                            0 <= k < before.len() && (#[trigger] before[k]).key == other
                                && before[k].value == v;
                        assert(after[k] == before[k]);
                    },
                    None => {
                        match secret_under(after, other) {
                            Some(w) => {
                                let k = choose|k: int|
                                    0 <= k < after.len() && (#[trigger] after[k]).key == other
                                        && after[k].value == w;
                                if k < before.len() {
                                    assert(after[k].key == before[k].key);
                                }
                            },
                            None => {},
                        }
                    },
                }
            }
        }
        self.memory_store = secrets;
    }

    /// Reads a secret. `from_keyring` is what the caller has read from the
    /// keyring, if it has read anything. Where the keyring is wanted and had
    /// the secret, that is the result; else what memory holds under the key
    /// is; and where memory holds nothing the error `NotFound`.
    pub fn get_secret(&self, key: &str, from_keyring: Option<String>) -> (r: Result<
        String,
        StorageError,
    >)
        ensures
            match r {
                Ok(secret) => if self.wants_keyring() && from_keyring is Some {
                    Some(secret@) == from_keyring.deep_view()
                } else {
                    self.held(key@) == Some(secret@)
                },
                Err(e) => e@ == StorageErrorView::NotFound && self.held(key@) is None && !(
                self.wants_keyring() && from_keyring is Some),
            },
    {
        if self.use_keyring {
            match from_keyring {
                Some(secret) => {
                    return Ok(secret);
                },
                None => {},
            }
        }
        let at = self.find(key);
        if at < self.memory_store.len() {
            Ok(self.memory_store[at].value.clone())
        } else {
            Err(StorageError::NotFound)
        }
    }

    /// Removes the secret under `key` from memory; every other secret stays.
    pub fn delete_secret(&mut self, key: &str)
        ensures
            final(self).wants_keyring() == old(self).wants_keyring(),
            final(self).held(key@) is None,
            forall|other: Seq<char>|
                other != key@ ==> final(self).held(other) == old(self).held(other),
    {
        let ghost before = self@;
        let at = self.find(key);
        if at >= self.memory_store.len() {
            return ;
        }
        let mut secrets: Vec<Secret> = Vec::new();
        proof {
            assert(secrets.deep_view() =~= Seq::<SecretView>::empty());
        }
        core::mem::swap(&mut self.memory_store, &mut secrets);
        let _removed = secrets.remove(at);
        let ghost after = secrets.deep_view();
        proof {
            assert(after =~= before.remove(at as int));
            assert(distinct_secrets(after)) by {
                assert forall|i: int, j: int| 0 <= i < j < after.len() implies (
                #[trigger] after[i]).key != (#[trigger] after[j]).key by {
                    let a = if i < at {
                        i
                    } else {
                        i + 1
                    };
                    let b = if j < at {
                        j
                    } else {
                        j + 1
                    };
                    assert(after[i] == before[a] && after[j] == before[b]);
                }
            }
            lemma_secret_under(after, key@);
            match secret_under(after, key@) {
                Some(v) => {
                    let k = choose|k: int|
                        0 <= k < after.len() && (#[trigger] after[k]).key == key@ && after[k].value
                            == v;
                    let a = if k < at {
                        k
                    } else {
                        k + 1
                    };
                    assert(after[k] == before[a]);
                    assert(before[a].key != before[at as int].key);
                },
                None => {},
            }
            assert forall|other: Seq<char>| other != key@ implies secret_under(after, other)
                == secret_under(before, other) by {
                lemma_secret_under(after, other);
                lemma_secret_under(before, other);
                match secret_under(before, other) {
                    Some(v) => {
                        let k = choose|k: int|
                            0 <= k < before.len() && (#[trigger] before[k]).key == other
                                && before[k].value == v;
                        let a = if k < at {
                            k
                        } else {
                            k - 1
                        };
                        assert(after[a] == before[k]);
                    },
                    None => {
                        match secret_under(after, other) {
                            Some(w) => {
                                let k = choose|k: int|
                                    0 <= k < after.len() && (#[trigger] after[k]).key == other
                                        && after[k].value == w;
                                let a = if k < at {
                                    k
                                } else {
                                    k + 1
                                };
                                assert(after[k] == before[a]);
                            },
                            None => {},
                        }
                    },
                }
            }
        }
        self.memory_store = secrets;
    }
}

/// The key under which the vault secret of `id` is stored.
pub open spec fn vault_key_for(id: Seq<char>) -> Seq<char> {
    "vault:"@ + id
}

/// Names the key under which the vault secret of `id` is stored.
pub fn vault_key(id: &str) -> (r: String)
    ensures
        r@ == vault_key_for(id@),
{
    String::from_str("vault:").concat(id)
}

impl Storage {
    /// Stores the vault secret of `id`, as [`Storage::store_secret`] does
    /// under the vault key.
    pub fn store_vault_secret(&mut self, id: &str, secret: &str, keyring_written: bool)
        ensures
            final(self).wants_keyring() == old(self).wants_keyring(),
            old(self).wants_keyring() && keyring_written ==> final(self)@ == old(self)@,
            !(old(self).wants_keyring() && keyring_written) ==> final(self).held(
                vault_key_for(id@),
            ) == Some(secret@) && forall|other: Seq<char>|
                other != vault_key_for(id@) ==> final(self).held(other) == old(self).held(other),
    {
        let key = vault_key(id);
        self.store_secret(key.as_str(), secret, keyring_written)
    }

    /// Reads the vault secret of `id`, as [`Storage::get_secret`] does under
    /// the vault key.
    pub fn get_vault_secret(&self, id: &str, from_keyring: Option<String>) -> (r: Result<
        String,
        StorageError,
    >)
        ensures
            match r {
                Ok(secret) => if self.wants_keyring() && from_keyring is Some {
                    Some(secret@) == from_keyring.deep_view()
                } else {
                    self.held(vault_key_for(id@)) == Some(secret@)
                },
                Err(e) => e@ == StorageErrorView::NotFound && self.held(vault_key_for(id@))
                    is None && !(self.wants_keyring() && from_keyring is Some),
            },
    {
        let key = vault_key(id);
        self.get_secret(key.as_str(), from_keyring)
    }

    /// Removes the vault secret of `id` from memory.
    pub fn delete_vault_secret(&mut self, id: &str)
        ensures
            final(self).wants_keyring() == old(self).wants_keyring(),
            final(self).held(vault_key_for(id@)) is None,
            forall|other: Seq<char>|
                other != vault_key_for(id@) ==> final(self).held(other) == old(self).held(other),
    {
        let key = vault_key(id);
        self.delete_secret(key.as_str())
    }
}

impl Default for Storage {
    fn default() -> (storage: Storage)
        ensures
            storage.wants_keyring(),
            storage@.len() == 0,
    {
        Storage::new(true)
    }
}

/// What the keyring holds after the steps `ops` were taken on `ring`, in
/// order.
pub open spec fn applied(ops: Seq<KeyringOpView>, ring: Map<Seq<char>, Seq<char>>) -> Map<
    Seq<char>,
    Seq<char>,
>
    decreases ops.len(),
{
    if ops.len() == 0 {
        ring
    } else {
        let before = applied(ops.drop_last(), ring);
        match ops.last() {
            KeyringOpView::Write(name, value) => before.insert(name, value),
            KeyringOpView::Delete(name) => before.remove(name),
        }
    }
}

/// The values of the first `count` chunk entries of the secret under `key`.
pub open spec fn chunk_values(ring: Map<Seq<char>, Seq<char>>, key: Seq<char>, count: nat) -> Seq<
    Seq<char>,
> {
    Seq::new(count, |i: int| ring[chunk_key_for(key, i as nat)])
}

/// The secret that is read from the keyring under `key`: the entry itself,
/// or, where the entry announces chunks, the chunks put together.
pub open spec fn read_back(ring: Map<Seq<char>, Seq<char>>, key: Seq<char>) -> Option<Seq<char>> {
    if !ring.dom().contains(key) {
        None
    } else {
        match chunk_count(ring[key]) {
            None => Some(ring[key]),
            Some(count) => Some(concat(chunk_values(ring, key, count))),
        }
    }
}

/// One step sets or removes one entry.
pub proof fn lemma_applied_one(op: KeyringOpView, ring: Map<Seq<char>, Seq<char>>)
    ensures
        applied(seq![op], ring) == match op {
            KeyringOpView::Write(name, value) => ring.insert(name, value),
            KeyringOpView::Delete(name) => ring.remove(name),
        },
{
    let none = Seq::<KeyringOpView>::empty();
    assert(seq![op].drop_last() =~= none);
    assert(applied(none, ring) == ring);
    assert(seq![op].last() == op);
}

/// Taking two runs of steps one after the other is taking them in a row.
pub proof fn lemma_applied_in_a_row(
    first: Seq<KeyringOpView>,
    second: Seq<KeyringOpView>,
    ring: Map<Seq<char>, Seq<char>>,
)
    ensures
        applied(first + second, ring) == applied(second, applied(first, ring)),
    decreases second.len(),
{
    if second.len() == 0 {
        assert(first + second =~= first);
    } else {
        assert((first + second).drop_last() =~= first + second.drop_last());
        assert((first + second).last() == second.last());
        lemma_applied_in_a_row(first, second.drop_last(), ring);
    }
}

/// The name of a chunk entry is not the key, and different chunks have
/// different names.
pub proof fn lemma_chunk_names(key: Seq<char>, i: nat, j: nat)
    ensures
        chunk_key_for(key, i) != key,
        i != j ==> chunk_key_for(key, i) != chunk_key_for(key, j),
{
    reveal_strlit("::chunk:");
    let head = key + "::chunk:"@;
    assert(chunk_key_for(key, i).len() > key.len());
    if i != j {
        lemma_decimal_differs(i, j);
        if chunk_key_for(key, i) == chunk_key_for(key, j) {
            assert(chunk_key_for(key, i).skip(head.len() as int) =~= decimal(i));
            assert(chunk_key_for(key, j).skip(head.len() as int) =~= decimal(j));
        }
    }
}

/// Deleting chunk entries leaves every entry that is none of them as it is.
pub proof fn lemma_chunk_deletes(
    key: Seq<char>,
    from: nat,
    to: nat,
    ring: Map<Seq<char>, Seq<char>>,
    name: Seq<char>,
)
    requires
        forall|i: nat| from <= i < to ==> name != #[trigger] chunk_key_for(key, i),
    ensures
        applied(chunk_deletes(key, from, to), ring).dom().contains(name) == ring.dom().contains(
            name,
        ),
        applied(chunk_deletes(key, from, to), ring)[name] == ring[name],
    decreases to - from,
{
    if from < to {
        let step = seq![KeyringOpView::Delete(chunk_key_for(key, from))];
        let rest = chunk_deletes(key, from + 1, to);
        lemma_applied_in_a_row(step, rest, ring);
        let after_step = applied(step, ring);
        lemma_applied_one(KeyringOpView::Delete(chunk_key_for(key, from)), ring);
        assert(after_step == ring.remove(chunk_key_for(key, from)));
        assert(name != chunk_key_for(key, from));
        lemma_chunk_deletes(key, from + 1, to, after_step, name);
    }
}

/// Writing chunk entries leaves every entry that is none of them as it is.
pub proof fn lemma_chunk_sets_keep(
    key: Seq<char>,
    chunks: Seq<Seq<char>>,
    from: nat,
    ring: Map<Seq<char>, Seq<char>>,
    name: Seq<char>,
)
    requires
        forall|i: nat| from <= i < chunks.len() ==> name != #[trigger] chunk_key_for(key, i),
    ensures
        applied(chunk_sets(key, chunks, from), ring).dom().contains(name) == ring.dom().contains(
            name,
        ),
        applied(chunk_sets(key, chunks, from), ring)[name] == ring[name],
    decreases chunks.len() - from,
{
    if from < chunks.len() {
        let first = chunk_key_for(key, from);
        let step = seq![KeyringOpView::Write(first, chunks[from as int])];
        let rest = chunk_sets(key, chunks, from + 1);
        lemma_applied_in_a_row(step, rest, ring);
        lemma_applied_one(KeyringOpView::Write(first, chunks[from as int]), ring);
        assert(name != chunk_key_for(key, from));
        lemma_chunk_sets_keep(key, chunks, from + 1, applied(step, ring), name);
    }
}

/// Writing chunk entries puts each chunk under its name.
pub proof fn lemma_chunk_sets_hold(
    key: Seq<char>,
    chunks: Seq<Seq<char>>,
    from: nat,
    ring: Map<Seq<char>, Seq<char>>,
    i: nat,
)
    requires
        from <= i < chunks.len(),
    ensures
        applied(chunk_sets(key, chunks, from), ring).dom().contains(chunk_key_for(key, i)),
        applied(chunk_sets(key, chunks, from), ring)[chunk_key_for(key, i)] == chunks[i as int],
    decreases chunks.len() - from,
{
    let first = chunk_key_for(key, from);
    let step = seq![KeyringOpView::Write(first, chunks[from as int])];
    let rest = chunk_sets(key, chunks, from + 1);
    lemma_applied_in_a_row(step, rest, ring);
    lemma_applied_one(KeyringOpView::Write(first, chunks[from as int]), ring);
    let after_step = applied(step, ring);
    if i == from {
        assert forall|j: nat| from + 1 <= j < chunks.len() implies first != #[trigger] chunk_key_for(
            key,
            j,
        ) by {
            lemma_chunk_names(key, from, j);
        }
        lemma_chunk_sets_keep(key, chunks, from + 1, after_step, first);
    } else {
        lemma_chunk_sets_hold(key, chunks, from + 1, after_step, i);
    }
}

/// The head of a chunked secret announces the number of its chunks.
pub proof fn lemma_marker_reads_back(count: nat)
    requires
        count <= usize::MAX,
    ensures
        chunk_count(chunk_marker() + decimal(count)) == Some(count),
{
    let text = chunk_marker() + decimal(count);
    lemma_decimal(count, usize::MAX as nat);
    assert(text.take(chunk_marker().len() as int) =~= chunk_marker());
    assert(text.skip(chunk_marker().len() as int) =~= decimal(count));
}

/// A secret that was written to the keyring is read back from it, whatever
/// the keyring held before and however many chunks were announced before.
/// This holds of every secret that takes more than one chunk, and of a
/// shorter one unless it reads like the head of a chunked secret itself.
pub proof fn lemma_written_secret_reads_back(
    ring: Map<Seq<char>, Seq<char>>,
    key: Seq<char>,
    value: Seq<char>,
    previous: nat,
)
    requires
        keyring_chunks(value, KEYRING_MAX_VALUE_BYTES as nat).len() <= usize::MAX,
        keyring_chunks(value, KEYRING_MAX_VALUE_BYTES as nat).len() == 1 ==> chunk_count(value)
            is None,
    ensures
        read_back(applied(keyring_write(key, value, previous), ring), key) == Some(value),
{
    let chunks = keyring_chunks(value, KEYRING_MAX_VALUE_BYTES as nat);
    let count = chunks.len();
    lemma_keyring_chunks(value, KEYRING_MAX_VALUE_BYTES as nat);
    if count == 1 {
        let head = seq![KeyringOpView::Write(key, value)];
        let deletes = chunk_deletes(key, 0, previous);
        lemma_applied_in_a_row(head, deletes, ring);
        lemma_applied_one(KeyringOpView::Write(key, value), ring);
        let written = applied(head, ring);
        assert(written == ring.insert(key, value));
        assert forall|i: nat| 0 <= i < previous implies key != #[trigger] chunk_key_for(key, i) by {
            lemma_chunk_names(key, i, i);
        }
        lemma_chunk_deletes(key, 0, previous, written, key);
    } else {
        let sets = chunk_sets(key, chunks, 0);
        let marker = chunk_marker() + decimal(count);
        let head = seq![KeyringOpView::Write(key, marker)];
        let deletes = chunk_deletes(key, count, previous);
        lemma_applied_in_a_row(sets + head, deletes, ring);
        lemma_applied_in_a_row(sets, head, ring);
        let with_chunks = applied(sets, ring);
        lemma_applied_one(KeyringOpView::Write(key, marker), with_chunks);
        let with_head = applied(head, with_chunks);
        assert(with_head == with_chunks.insert(key, marker));
        let after = applied(deletes, with_head);
        assert(after == applied(keyring_write(key, value, previous), ring));
        assert forall|i: nat| count <= i < previous implies key != #[trigger] chunk_key_for(key, i) by {
            lemma_chunk_names(key, i, i);
        }
        lemma_chunk_deletes(key, count, previous, with_head, key);
        lemma_marker_reads_back(count);
        assert(after[key] == marker);
        assert forall|i: int| 0 <= i < count implies #[trigger] chunk_values(after, key, count)[i]
            == chunks[i] by {
            let name = chunk_key_for(key, i as nat);
            lemma_chunk_names(key, i as nat, i as nat);
            assert forall|j: nat| count <= j < previous implies name != #[trigger] chunk_key_for(
                key,
                j,
            ) by {
                lemma_chunk_names(key, i as nat, j);
            }
            lemma_chunk_deletes(key, count, previous, with_head, name);
            lemma_chunk_sets_hold(key, chunks, 0, ring, i as nat);
            assert(with_head[name] == with_chunks[name]);
        }
        assert(chunk_values(after, key, count) =~= chunks);
    }
}

} // verus!
