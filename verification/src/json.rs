//! What is read from JSON.
//!
//! A value is read where it stands in a text: the functions take the bytes of
//! the text and a JSON Pointer to the value, the empty pointer for the whole.

use vstd::prelude::*;
use crate::text::{decimal, decimal_text};
use crate::topology::settings::or_text;

verus! {

/// The text under `field` in the JSON object that `bytes` spell: `Ok(None)`
/// where the bytes spell JSON without a text under that field, and the text
/// of the parser's complaint where they spell no JSON.
pub uninterp spec fn json_field(bytes: Seq<u8>, field: Seq<char>) -> Result<
    Option<Seq<char>>,
    Seq<char>,
>;

/// The text that stands at `pointer`, a JSON Pointer, in the JSON that
/// `bytes` spell: nothing where they spell no JSON, or where no text stands
/// there.
pub uninterp spec fn json_text(bytes: Seq<u8>, pointer: Seq<char>) -> Option<Seq<char>>;

/// The truth value that stands at `pointer` in the JSON that `bytes` spell:
/// nothing where they spell no JSON, or where no truth value stands there.
pub uninterp spec fn json_flag(bytes: Seq<u8>, pointer: Seq<char>) -> Option<bool>;

/// The whole number without a sign that stands at `pointer` in the JSON that
/// `bytes` spell: nothing where they spell no JSON, or where no such number
/// stands there.
pub uninterp spec fn json_number(bytes: Seq<u8>, pointer: Seq<char>) -> Option<u64>;

/// The items of the array that stands at `pointer` in the JSON that `bytes`
/// spell, each as the text it is or as nothing: nothing at all where the
/// bytes spell no JSON, or where no array stands there.
pub uninterp spec fn json_texts(bytes: Seq<u8>, pointer: Seq<char>) -> Option<
    Seq<Option<Seq<char>>>,
>;

/// Whether the value that stands at `pointer` in the JSON that `bytes` spell
/// is `null`: nothing where they spell no JSON, or where no value stands
/// there.
pub uninterp spec fn json_is_null(bytes: Seq<u8>, pointer: Seq<char>) -> Option<bool>;

/// Whether nothing but `null` stands at `pointer` in the JSON that `bytes`
/// spell: so it is where they spell no JSON, or where no value stands there.
pub open spec fn json_null(bytes: Seq<u8>, pointer: Seq<char>) -> bool {
    json_is_null(bytes, pointer) != Some(false)
}

/// Whether any value stands at `pointer` in the JSON that `bytes` spell.
pub uninterp spec fn json_holds(bytes: Seq<u8>, pointer: Seq<char>) -> bool;

/// Calls `serde_json::from_slice` for a `serde_json::Value` and picks the
/// text under `field` with `Value::get` and `Value::as_str`. The result
/// depends on the arguments alone; the contract gives it a name. An error of
/// the parser comes back as its text.
#[verifier::external_body]
pub(crate) fn read_json_field(bytes: &[u8], field: &str) -> (r: Result<Option<String>, String>)
    ensures
        match r {
            Ok(Some(text)) => json_field(bytes@, field@) == Ok::<Option<Seq<char>>, Seq<char>>(
                Some(text@),
            ),
            Ok(None) => json_field(bytes@, field@) == Ok::<Option<Seq<char>>, Seq<char>>(None),
            Err(message) => json_field(bytes@, field@) == Err::<Option<Seq<char>>, Seq<char>>(
                message@,
            ),
        },
{
    serde_json::from_slice::<serde_json::Value>(bytes).map(
        |v| v.get(field).and_then(|f| f.as_str()).map(|s| s.to_string()),
    ).map_err(|e| e.to_string())
}

/// Calls `serde_json::from_slice` for a `serde_json::Value`, looks the
/// pointer up with `Value::pointer` and reads the value found with
/// `Value::as_str`. The result depends on the arguments alone; the contract
/// gives it a name.
#[verifier::external_body]
pub(crate) fn read_json_text(bytes: &[u8], pointer: &str) -> (r: Option<String>)
    ensures
        r.deep_view() == json_text(bytes@, pointer@),
{
    let value = serde_json::from_slice::<serde_json::Value>(bytes).ok()?;
    value.pointer(pointer)?.as_str().map(|s| s.to_string())
}

/// Calls `serde_json::from_slice` for a `serde_json::Value`, looks the
/// pointer up with `Value::pointer` and reads the value found with
/// `Value::as_bool`. The result depends on the arguments alone; the contract
/// gives it a name.
#[verifier::external_body]
pub(crate) fn read_json_flag(bytes: &[u8], pointer: &str) -> (r: Option<bool>)
    ensures
        r == json_flag(bytes@, pointer@),
{
    let value = serde_json::from_slice::<serde_json::Value>(bytes).ok()?;
    value.pointer(pointer)?.as_bool()
}

/// Calls `serde_json::from_slice` for a `serde_json::Value`, looks the
/// pointer up with `Value::pointer` and reads the value found with
/// `Value::as_u64`. The result depends on the arguments alone; the contract
/// gives it a name.
#[verifier::external_body]
pub(crate) fn read_json_number(bytes: &[u8], pointer: &str) -> (r: Option<u64>)
    ensures
        r == json_number(bytes@, pointer@),
{
    let value = serde_json::from_slice::<serde_json::Value>(bytes).ok()?;
    value.pointer(pointer)?.as_u64()
}

/// Calls `serde_json::from_slice` for a `serde_json::Value`, looks the
/// pointer up with `Value::pointer`, takes the value found as an array with
/// `Value::as_array` and reads each item with `Value::as_str`. The result has
/// one entry for each item, in order, and depends on the arguments alone; the
/// contract gives it a name.
#[verifier::external_body]
pub(crate) fn read_json_texts(bytes: &[u8], pointer: &str) -> (r: Option<Vec<Option<String>>>)
    ensures
        r.deep_view() == json_texts(bytes@, pointer@),
{
    let value = serde_json::from_slice::<serde_json::Value>(bytes).ok()?;
    let items = value.pointer(pointer)?.as_array()?;
    Some(items.iter().map(|item| item.as_str().map(|s| s.to_string())).collect())
}

/// Calls `serde_json::from_slice` for a `serde_json::Value`, looks the
/// pointer up with `Value::pointer` and calls `Value::is_null` on the value
/// found. The result depends on the arguments alone; the contract gives it a
/// name.
#[verifier::external_body]
pub(crate) fn read_json_is_null(bytes: &[u8], pointer: &str) -> (r: Option<bool>)
    ensures
        r == json_is_null(bytes@, pointer@),
{
    let value = serde_json::from_slice::<serde_json::Value>(bytes).ok()?;
    Some(value.pointer(pointer)?.is_null())
}

/// Tells whether nothing but `null` stands at `pointer`.
pub fn is_json_null(bytes: &[u8], pointer: &str) -> (r: bool)
    ensures
        r == json_null(bytes@, pointer@),
{
    match read_json_is_null(bytes, pointer) {
        Some(false) => false,
        _ => true,
    }
}

/// Calls `serde_json::from_slice` for a `serde_json::Value` and looks the
/// pointer up with `Value::pointer`: whether a value was found. The result
/// depends on the arguments alone; the contract gives it a name.
#[verifier::external_body]
pub(crate) fn has_json_value(bytes: &[u8], pointer: &str) -> (r: bool)
    ensures
        r == json_holds(bytes@, pointer@),
{
    serde_json::from_slice::<serde_json::Value>(bytes).is_ok_and(|v| v.pointer(pointer).is_some())
}

/// The number of items of the array that stands at `pointer` in the JSON
/// that `bytes` spell: nothing where they spell no JSON, or where no array
/// stands there.
pub open spec fn json_count(bytes: Seq<u8>, pointer: Seq<char>) -> Option<nat> {
    match json_texts(bytes, pointer) {
        Some(items) => Some(items.len()),
        None => None,
    }
}

/// Counts the items of the array that stands at `pointer`.
pub fn read_json_count(bytes: &[u8], pointer: &str) -> (r: Option<usize>)
    ensures
        match r {
            Some(count) => json_count(bytes@, pointer@) == Some(count as nat),
            None => json_count(bytes@, pointer@) is None,
        },
{
    match read_json_texts(bytes, pointer) {
        Some(items) => Some(items.len()),
        None => None,
    }
}

/// The pointer to the member `key` of the value at `at`, for a key that
/// holds neither `/` nor `~`, which a pointer writes otherwise.
pub open spec fn member(at: Seq<char>, key: Seq<char>) -> Seq<char> {
    at + "/"@ + key
}

/// The pointer to the item of the given number of the array at `at`.
pub open spec fn item(at: Seq<char>, number: nat) -> Seq<char> {
    member(at, decimal(number))
}

/// Writes the pointer to the member `key` of the value at `at`.
pub fn member_pointer(at: &str, key: &str) -> (r: String)
    ensures
        r@ == member(at@, key@),
{
    let mut pointer = String::from_str(at);
    pointer.append("/");
    pointer.append(key);
    pointer
}

/// Writes the pointer to the item of the given number of the array at `at`.
pub fn item_pointer(at: &str, number: usize) -> (r: String)
    ensures
        r@ == item(at@, number as nat),
{
    let numeral = decimal_text(number as u64);
    member_pointer(at, numeral.as_str())
}

/// The texts among `items`, in order.
pub open spec fn texts_among(items: Seq<Option<Seq<char>>>) -> Seq<Seq<char>>
    decreases items.len(),
{
    if items.len() == 0 {
        Seq::empty()
    } else {
        match items.last() {
            Some(text) => texts_among(items.drop_last()).push(text),
            None => texts_among(items.drop_last()),
        }
    }
}

/// The text that is the member `key` of the value at `at`.
pub open spec fn text_at(bytes: Seq<u8>, at: Seq<char>, key: Seq<char>) -> Option<Seq<char>> {
    json_text(bytes, member(at, key))
}

/// The truth value that is the member `key` of the value at `at`.
pub open spec fn flag_at(bytes: Seq<u8>, at: Seq<char>, key: Seq<char>) -> Option<bool> {
    json_flag(bytes, member(at, key))
}

/// The texts in the array that is the member `key` of the value at `at`.
pub open spec fn names_at(bytes: Seq<u8>, at: Seq<char>, key: Seq<char>) -> Option<Seq<Seq<char>>> {
    match json_texts(bytes, member(at, key)) {
        Some(items) => Some(texts_among(items)),
        None => None,
    }
}

/// Reads the text that is a member of the value at `at`.
pub fn read_text(bytes: &[u8], at: &str, key: &str) -> (r: Option<String>)
    ensures
        r.deep_view() == text_at(bytes@, at@, key@),
{
    let pointer = member_pointer(at, key);
    read_json_text(bytes, pointer.as_str())
}

/// Reads the truth value that is a member of the value at `at`.
pub fn read_flag(bytes: &[u8], at: &str, key: &str) -> (r: Option<bool>)
    ensures
        r == flag_at(bytes@, at@, key@),
{
    let pointer = member_pointer(at, key);
    read_json_flag(bytes, pointer.as_str())
}

/// Reads the texts in the array that is a member of the value at `at`; what
/// is no text there is passed over.
pub fn read_names(bytes: &[u8], at: &str, key: &str) -> (r: Option<Vec<String>>)
    ensures
        r.deep_view() == names_at(bytes@, at@, key@),
{
    let pointer = member_pointer(at, key);
    match read_json_texts(bytes, pointer.as_str()) {
        None => None,
        Some(items) => {
            let ghost all = items.deep_view();
            let mut names: Vec<String> = Vec::new();
            let mut i: usize = 0;
            proof {
                assert(all.take(0) =~= Seq::<Option<Seq<char>>>::empty());
                assert(names.deep_view() =~= Seq::<Seq<char>>::empty());
            }
            while i < items.len()
                invariant
                    i <= items@.len(),
                    all == items.deep_view(),
                    names.deep_view() == texts_among(all.take(i as int)),
                decreases items@.len() - i,
            {
                let ghost before = names.deep_view();
                proof {
                    assert(all.take(i + 1).drop_last() =~= all.take(i as int));
                    assert(all.take(i + 1).last() == all[i as int]);
                    assert(all[i as int] == items@[i as int].deep_view());
                }
                match &items[i] {
                    Some(text) => {
                        names.push(text.clone());
                        proof {
                            assert(names.deep_view() =~= before.push(text@));
                        }
                    },
                    None => {},
                }
                i += 1;
            }
            proof {
                assert(all.take(items@.len() as int) =~= all);
            }
            Some(names)
        },
    }
}

/// The text under `key` in the first item of the array under `array`.
pub open spec fn first_text(bytes: Seq<u8>, array: Seq<char>, key: Seq<char>) -> Option<Seq<char>> {
    if json_count(bytes, member(Seq::empty(), array)) is Some {
        text_at(bytes, item(member(Seq::empty(), array), 0), key)
    } else {
        None
    }
}

/// Reads the text under `key` in the first item of the array under `array`.
pub fn read_first_text(bytes: &[u8], array: &str, key: &str) -> (r: Option<String>)
    ensures
        r.deep_view() == first_text(bytes@, array@, key@),
{
    proof {
        reveal_strlit("");
        assert(""@ =~= Seq::<char>::empty());
    }
    let pointer = member_pointer("", array);
    if read_json_count(bytes, pointer.as_str()).is_some() {
        let first = item_pointer(pointer.as_str(), 0);
        read_text(bytes, first.as_str(), key)
    } else {
        None
    }
}

/// The text where there is one, else the fallback.
pub fn text_or(value: Option<String>, fallback: &str) -> (r: String)
    ensures
        r@ == or_text(value.deep_view(), fallback@),
{
    match value {
        Some(text) => text,
        None => String::from_str(fallback),
    }
}

} // verus!
