//! A JSON document model for the exchange formats, with the lookups the
//! importers use and a builder for objects of string fields.
//!
//! Numbers are kept as the decimal text they were written with: the
//! library never computes with them.
use vstd::prelude::*;

use crate::graph::types::{opt_str_view, string_views};
use crate::text::{owned, pair_views, str_eq};

verus! {

/// A JSON value.  An object keeps its entries in order.
#[derive(Debug)]
pub enum JsonValue {
    Null,
    Bool(bool),
    Number(String),
    Str(String),
    Array(Vec<JsonValue>),
    Object(Vec<(String, JsonValue)>),
}

/// The JSON string literal `serde_json` writes for a text, quotes
/// included (its escaping rules are `serde_json`'s own).
pub uninterp spec fn json_string_literal(s: Seq<char>) -> Seq<char>;

/// `serde_json::to_string` of a string slice: its JSON string literal.
/// The contract claims the result is `json_string_literal` of the text,
/// a function of the text alone.  Writing a string slice cannot fail:
/// `to_string` serializes it into an in-memory byte vector, and the
/// documented failures (a failing `Serialize` impl, a map with non-string
/// keys) cannot arise for it; the error arm is never taken.
#[verifier::external_body]
pub(crate) fn json_string(s: &str) -> (r: String)
    ensures
        r@ == json_string_literal(s@),
{
    match serde_json::to_string(s) {
        Ok(t) => t,
        Err(_) => String::new(),
    }
}

/// The content of a JSON value: its shape, with every text as characters.
/// Two values with the same content print the same.
pub enum JsonContent {
    Null,
    Bool(bool),
    Number(Seq<char>),
    Str(Seq<char>),
    Array(Seq<JsonContent>),
    Object(Seq<(Seq<char>, JsonContent)>),
}

/// The content of `v`.
pub open spec fn json_content(v: JsonValue) -> JsonContent
    decreases v,
{
    match v {
        JsonValue::Null => JsonContent::Null,
        JsonValue::Bool(b) => JsonContent::Bool(b),
        JsonValue::Number(n) => JsonContent::Number(n@),
        JsonValue::Str(s) => JsonContent::Str(s@),
        JsonValue::Array(items) => JsonContent::Array(
            Seq::new(
                items@.len(),
                |i: int|
                    if 0 <= i < items@.len() {
                        json_content(items@[i])
                    } else {
                        JsonContent::Null
                    },
            ),
        ),
        JsonValue::Object(entries) => JsonContent::Object(
            Seq::new(
                entries@.len(),
                |i: int|
                    if 0 <= i < entries@.len() {
                        (entries@[i].0@, json_content(entries@[i].1))
                    } else {
                        (Seq::empty(), JsonContent::Null)
                    },
            ),
        ),
    }
}

/// The value of the first entry with key `key`.
pub open spec fn entry_value(entries: Seq<(String, JsonValue)>, key: Seq<char>) -> Option<JsonValue>
    decreases entries.len(),
{
    if entries.len() == 0 {
        None
    } else if entries[0].0@ == key {
        Some(entries[0].1)
    } else {
        entry_value(entries.drop_first(), key)
    }
}

/// The value stored under `key`, when `v` is an object that has it.
pub open spec fn json_get(v: JsonValue, key: Seq<char>) -> Option<JsonValue> {
    match v {
        JsonValue::Object(entries) => entry_value(entries@, key),
        _ => None,
    }
}

/// The text of a string value.
pub open spec fn as_text(v: Option<JsonValue>) -> Option<Seq<char>> {
    match v {
        Some(JsonValue::Str(s)) => Some(s@),
        _ => None,
    }
}

/// The items of an array value.
pub open spec fn as_items(v: Option<JsonValue>) -> Option<Seq<JsonValue>> {
    match v {
        Some(JsonValue::Array(items)) => Some(items@),
        _ => None,
    }
}

/// The string stored under `key`.
pub open spec fn text_field(v: JsonValue, key: Seq<char>) -> Option<Seq<char>> {
    as_text(json_get(v, key))
}

/// The first item of the array stored under `key`, when it is a string.
pub open spec fn first_text_item(v: JsonValue, key: Seq<char>) -> Option<Seq<char>> {
    match as_items(json_get(v, key)) {
        Some(items) => if items.len() > 0 {
            as_text(Some(items[0]))
        } else {
            None
        },
        None => None,
    }
}

/// The strings among `items`, in order.
pub open spec fn texts_of(items: Seq<JsonValue>) -> Seq<Seq<char>>
    decreases items.len(),
{
    if items.len() == 0 {
        Seq::empty()
    } else {
        let rest = texts_of(items.drop_last());
        match items.last() {
            JsonValue::Str(s) => rest.push(s@),
            _ => rest,
        }
    }
}

/// The strings in the array stored under `key` (none when there is no
/// such array).
pub open spec fn text_items(v: JsonValue, key: Seq<char>) -> Seq<Seq<char>> {
    match as_items(json_get(v, key)) {
        Some(items) => texts_of(items),
        None => Seq::empty(),
    }
}

/// `entries` are exactly the given (key, string) fields, in order.
pub open spec fn text_entries(entries: Seq<(String, JsonValue)>, fields: Seq<(Seq<char>, Seq<char>)>) -> bool {
    &&& entries.len() == fields.len()
    &&& forall|i: int|
        0 <= i < entries.len() ==> (#[trigger] entries[i]).0@ == fields[i].0 && as_text(
            Some(entries[i].1),
        ) == Some(fields[i].1)
}

/// `v` is an object made of exactly the given (key, string) fields, in
/// order.
pub open spec fn is_text_object(v: JsonValue, fields: Seq<(Seq<char>, Seq<char>)>) -> bool {
    v matches JsonValue::Object(entries) && text_entries(entries@, fields)
}

/// The entries `ea` and `eb` hold the same keys and the same contents.
pub open spec fn same_entries(ea: Seq<(String, JsonValue)>, eb: Seq<(String, JsonValue)>) -> bool {
    &&& ea.len() == eb.len()
    &&& forall|i: int|
        0 <= i < ea.len() ==> (#[trigger] ea[i]).0@ == eb[i].0@ && json_content(ea[i].1)
            == json_content(eb[i].1)
}

/// Objects whose entries hold the same keys and contents have the same
/// content.
pub proof fn lemma_same_entries_content(ea: Vec<(String, JsonValue)>, eb: Vec<(String, JsonValue)>)
    requires
        same_entries(ea@, eb@),
    ensures
        json_content(JsonValue::Object(ea)) == json_content(JsonValue::Object(eb)),
{
    let ca = json_content(JsonValue::Object(ea));
    let cb = json_content(JsonValue::Object(eb));
    if let JsonContent::Object(xa) = ca {
        if let JsonContent::Object(xb) = cb {
            assert forall|i: int| 0 <= i < xa.len() implies xa[i] == xb[i] by {
                assert(ea@[i].0@ == eb@[i].0@);
            }
            assert(xa =~= xb);
        }
    }
}

/// Two objects made of the same string fields have the same content.
pub proof fn lemma_text_objects_same_content(
    a: JsonValue,
    b: JsonValue,
    fields: Seq<(Seq<char>, Seq<char>)>,
)
    requires
        is_text_object(a, fields),
        is_text_object(b, fields),
    ensures
        json_content(a) == json_content(b),
{
    if let JsonValue::Object(ea) = a {
        if let JsonValue::Object(eb) = b {
            lemma_text_entries_same(ea@, eb@, fields);
            lemma_same_entries_content(ea, eb);
        }
    }
}

/// Entries made of the same string fields hold the same keys and contents.
pub proof fn lemma_text_entries_same(
    ea: Seq<(String, JsonValue)>,
    eb: Seq<(String, JsonValue)>,
    fields: Seq<(Seq<char>, Seq<char>)>,
)
    requires
        text_entries(ea, fields),
        text_entries(eb, fields),
    ensures
        same_entries(ea, eb),
{
    assert forall|i: int| 0 <= i < ea.len() implies (#[trigger] ea[i]).0@ == eb[i].0@ && json_content(
        ea[i].1,
    ) == json_content(eb[i].1) by {
        assert(ea[i].0@ == fields[i].0);
        assert(eb[i].0@ == fields[i].0);
        assert(as_text(Some(ea[i].1)) == Some(fields[i].1));
        assert(as_text(Some(eb[i].1)) == Some(fields[i].1));
    }
}

/// The value stored under `key`, when `v` is an object that has it.
pub fn get<'a>(v: &'a JsonValue, key: &str) -> (r: Option<&'a JsonValue>)
    ensures
        match r {
            Some(x) => json_get(*v, key@) == Some(*x),
            None => json_get(*v, key@) is None,
        },
{
    match v {
        JsonValue::Object(entries) => {
            let mut i: usize = 0;
            assert(entries@.skip(0) =~= entries@);
            while i < entries.len()
                invariant
                    i <= entries@.len(),
                    json_get(*v, key@) == entry_value(entries@, key@),
                    entry_value(entries@, key@) == entry_value(entries@.skip(i as int), key@),
                decreases entries.len() - i,
            {
                assert(entries@.skip(i as int).drop_first() =~= entries@.skip(i + 1));
                assert(entries@.skip(i as int)[0] == entries@[i as int]);
                if str_eq(entries[i].0.as_str(), key) {
                    assert(entries@.skip(i as int).len() > 0);
                    assert(entry_value(entries@.skip(i as int), key@) == Some(entries@[i as int].1));
                    return Some(&entries[i].1);
                }
                i = i + 1;
            }
            None
        },
        _ => None,
    }
}

/// The string stored under `key`.
pub fn get_str<'a>(v: &'a JsonValue, key: &str) -> (r: Option<&'a str>)
    ensures
        opt_str_view(r) == text_field(*v, key@),
{
    match get(v, key) {
        Some(JsonValue::Str(s)) => Some(s.as_str()),
        _ => None,
    }
}

/// The first item of the array stored under `key`, when it is a string.
pub fn first_str_item<'a>(v: &'a JsonValue, key: &str) -> (r: Option<&'a str>)
    ensures
        opt_str_view(r) == first_text_item(*v, key@),
{
    match get(v, key) {
        Some(JsonValue::Array(items)) => {
            if items.len() > 0 {
                match &items[0] {
                    JsonValue::Str(s) => Some(s.as_str()),
                    _ => None,
                }
            } else {
                None
            }
        },
        _ => None,
    }
}

/// The strings in the array stored under `key`, in order.
pub fn str_items(v: &JsonValue, key: &str) -> (r: Vec<String>)
    ensures
        string_views(r@) == text_items(*v, key@),
{
    let mut out: Vec<String> = Vec::new();
    match get(v, key) {
        Some(JsonValue::Array(items)) => {
            let mut i: usize = 0;
            while i < items.len()
                invariant
                    i <= items@.len(),
                    string_views(out@) == texts_of(items@.take(i as int)),
                decreases items.len() - i,
            {
                assert(items@.take(i + 1).drop_last() =~= items@.take(i as int));
                match &items[i] {
                    JsonValue::Str(s) => {
                        let ghost prev = out@;
                        out.push(owned(s.as_str()));
                        assert(string_views(out@) =~= string_views(prev).push(s@));
                    },
                    _ => {},
                }
                i = i + 1;
            }
            assert(items@.take(i as int) =~= items@);
        },
        _ => {},
    }
    out
}

/// An object of string fields, in order.
pub fn text_object(fields: &Vec<(String, String)>) -> (r: JsonValue)
    ensures
        is_text_object(r, pair_views(fields@)),
{
    let ghost all = pair_views(fields@);
    let mut entries: Vec<(String, JsonValue)> = Vec::new();
    let mut i: usize = 0;
    while i < fields.len()
        invariant
            i <= fields@.len(),
            all == pair_views(fields@),
            text_entries(entries@, all.take(i as int)),
        decreases fields.len() - i,
    {
        let ghost prev = entries@;
        entries.push((fields[i].0.clone(), JsonValue::Str(fields[i].1.clone())));
        assert forall|j: int| 0 <= j < entries@.len() implies (#[trigger] entries@[j]).0@ == all.take(
            i + 1,
        )[j].0 && as_text(Some(entries@[j].1)) == Some(all.take(i + 1)[j].1) by {
            if j < i {
                assert(entries@[j] == prev[j]);
            }
        }
        i = i + 1;
    }
    assert(all.take(i as int) =~= all);
    JsonValue::Object(entries)
}

/// The first string stored under `key` among `items`.
pub open spec fn first_text_among(items: Seq<JsonValue>, key: Seq<char>) -> Option<Seq<char>>
    decreases items.len(),
{
    if items.len() == 0 {
        None
    } else {
        match text_field(items[0], key) {
            Some(t) => Some(t),
            None => first_text_among(items.drop_first(), key),
        }
    }
}

/// The first string stored under `key` among the items of the array
/// stored under `array_key`.
pub open spec fn first_nested_text(v: JsonValue, array_key: Seq<char>, key: Seq<char>) -> Option<Seq<char>> {
    match as_items(json_get(v, array_key)) {
        Some(items) => first_text_among(items, key),
        None => None,
    }
}

/// The string stored under `key` in the first item of the array stored
/// under `array_key`.
pub open spec fn first_item_text(v: JsonValue, array_key: Seq<char>, key: Seq<char>) -> Option<Seq<char>> {
    match as_items(json_get(v, array_key)) {
        Some(items) => if items.len() > 0 {
            text_field(items[0], key)
        } else {
            None
        },
        None => None,
    }
}

/// The first string stored under `key` among the items of the array
/// stored under `array_key`.
pub fn first_nested_str<'a>(v: &'a JsonValue, array_key: &str, key: &str) -> (r: Option<&'a str>)
    ensures
        opt_str_view(r) == first_nested_text(*v, array_key@, key@),
{
    match get(v, array_key) {
        Some(JsonValue::Array(items)) => {
            let mut i: usize = 0;
            assert(items@.skip(0) =~= items@);
            while i < items.len()
                invariant
                    i <= items@.len(),
                    first_nested_text(*v, array_key@, key@) == first_text_among(items@, key@),
                    first_text_among(items@, key@) == first_text_among(items@.skip(i as int), key@),
                decreases items.len() - i,
            {
                assert(items@.skip(i as int).drop_first() =~= items@.skip(i + 1));
                assert(items@.skip(i as int)[0] == items@[i as int]);
                match get_str(&items[i], key) {
                    Some(t) => {
                        return Some(t);
                    },
                    None => {},
                }
                i = i + 1;
            }
            None
        },
        _ => None,
    }
}

/// The string stored under `key` in the first item of the array stored
/// under `array_key`.
pub fn first_item_str<'a>(v: &'a JsonValue, array_key: &str, key: &str) -> (r: Option<&'a str>)
    ensures
        opt_str_view(r) == first_item_text(*v, array_key@, key@),
{
    match get(v, array_key) {
        Some(JsonValue::Array(items)) => {
            if items.len() > 0 {
                get_str(&items[0], key)
            } else {
                None
            }
        },
        _ => None,
    }
}

/// The decimal text of the number stored under `key`.
pub open spec fn number_field(v: JsonValue, key: Seq<char>) -> Option<Seq<char>> {
    match json_get(v, key) {
        Some(JsonValue::Number(n)) => Some(n@),
        _ => None,
    }
}

/// The decimal text of the number stored under `key`.
pub fn get_number<'a>(v: &'a JsonValue, key: &str) -> (r: Option<&'a str>)
    ensures
        opt_str_view(r) == number_field(*v, key@),
{
    match get(v, key) {
        Some(JsonValue::Number(n)) => Some(n.as_str()),
        _ => None,
    }
}

// ----------------------------------------------------------------------
// Objects read entry by entry
// ----------------------------------------------------------------------

/// The entries of an object (none for another value).
pub open spec fn entries_of(v: JsonValue) -> Seq<(String, JsonValue)> {
    match v {
        JsonValue::Object(entries) => entries@,
        _ => Seq::empty(),
    }
}

/// `v` is an object of `n` entries.
pub open spec fn is_object_of(v: JsonValue, n: nat) -> bool {
    v is Object && entries_of(v).len() == n
}

/// The key of the `i`-th entry of an object.
pub open spec fn key_at(v: JsonValue, i: int) -> Seq<char> {
    entries_of(v)[i].0@
}

/// The value of the `i`-th entry of an object.
pub open spec fn value_at(v: JsonValue, i: int) -> JsonValue {
    entries_of(v)[i].1
}

/// `v` is the string `s`.
pub open spec fn is_text(v: JsonValue, s: Seq<char>) -> bool {
    v matches JsonValue::Str(t) && t@ == s
}

/// `v` is the number written `digits`.
pub open spec fn is_number(v: JsonValue, digits: Seq<char>) -> bool {
    v matches JsonValue::Number(n) && n@ == digits
}

/// `v` is an array of exactly the given strings, in order.
pub open spec fn is_text_array(v: JsonValue, items: Seq<Seq<char>>) -> bool {
    v matches JsonValue::Array(a) && a@.len() == items.len() && forall|i: int|
        0 <= i < items.len() ==> is_text(#[trigger] a@[i], items[i])
}

/// The `i`-th entry of `v` is `key` with the string `s`.
pub open spec fn text_at(v: JsonValue, i: int, key: Seq<char>, s: Seq<char>) -> bool {
    key_at(v, i) == key && is_text(value_at(v, i), s)
}

/// The `i`-th entry of `v` is `key` with the number written `digits`.
pub open spec fn number_at(v: JsonValue, i: int, key: Seq<char>, digits: Seq<char>) -> bool {
    key_at(v, i) == key && is_number(value_at(v, i), digits)
}

/// An object entry holding a string.
pub fn text_entry(key: &str, value: &str) -> (e: (String, JsonValue))
    ensures
        e.0@ == key@,
        is_text(e.1, value@),
{
    (owned(key), JsonValue::Str(owned(value)))
}

/// An object entry holding a number written `digits`.
pub fn number_entry(key: &str, digits: &str) -> (e: (String, JsonValue))
    ensures
        e.0@ == key@,
        is_number(e.1, digits@),
{
    (owned(key), JsonValue::Number(owned(digits)))
}

/// An array of two strings.
pub fn text_pair(a: String, b: String) -> (v: JsonValue)
    ensures
        is_text_array(v, seq![a@, b@]),
{
    let mut items: Vec<JsonValue> = Vec::new();
    items.push(JsonValue::Str(a));
    items.push(JsonValue::Str(b));
    JsonValue::Array(items)
}

} // verus!
