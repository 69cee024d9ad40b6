//! JSON values of `serde_json`, seen through a mathematical tree.
//!
//! The crate is built with insertion-ordered objects, so an object is a
//! sequence of entries here.
use crate::text::{decimal, texts};
use serde_json::Value;
use vstd::prelude::*;

verus! {

/// A JSON value as a tree. A number is the text it is displayed as.
pub enum JsonTree {
    Null,
    Bool(bool),
    Number(Seq<char>),
    Text(Seq<char>),
    Array(Seq<JsonTree>),
    Object(Seq<(Seq<char>, JsonTree)>),
}

/// `serde_json::Value`, known only through `json_tree`.
#[verifier::external_type_specification]
#[verifier::external_body]
pub struct ExValue(serde_json::Value);

/// `serde_json::Map`, known only through `object_entries`.
#[verifier::external_type_specification]
#[verifier::external_body]
#[verifier::reject_recursive_types(K)]
#[verifier::reject_recursive_types(V)]
pub struct ExMap<K, V>(serde_json::Map<K, V>);

/// What a JSON value holds.
pub uninterp spec fn json_tree(value: serde_json::Value) -> JsonTree;

/// What a JSON object holds: its entries in insertion order.
pub uninterp spec fn object_entries(
    object: serde_json::Map<String, serde_json::Value>,
) -> Seq<(Seq<char>, JsonTree)>;

/// What parsing a text as one JSON value gives: the value, or the text of
/// the parse error.
pub uninterp spec fn parsed_json(text: Seq<char>) -> Result<JsonTree, Seq<char>>;

/// Whether a text parses as a JSON value with this tree.
pub open spec fn parses_to(text: Seq<char>, tree: JsonTree) -> bool {
    parsed_json(text) == Ok::<JsonTree, Seq<char>>(tree)
}

/// The compact notation of a JSON value.
pub uninterp spec fn rendered_json(tree: JsonTree) -> Seq<char>;

/// The trees of a list of values.
pub open spec fn trees(values: Seq<Value>) -> Seq<JsonTree> {
    values.map_values(|v: Value| json_tree(v))
}

/// The entries that a list of keys and values stands for.
pub open spec fn entry_trees(entries: Seq<(String, Value)>) -> Seq<(Seq<char>, JsonTree)> {
    entries.map_values(|e: (String, Value)| (e.0@, json_tree(e.1)))
}

/// The position of a key among the entries of an object, or their number.
pub open spec fn key_index(entries: Seq<(Seq<char>, JsonTree)>, key: Seq<char>) -> nat
    decreases entries.len(),
{
    if entries.len() == 0 {
        0
    } else if entries[0].0 == key {
        0
    } else {
        1 + key_index(entries.drop_first(), key)
    }
}

/// The value under a key.
pub open spec fn entry_value(entries: Seq<(Seq<char>, JsonTree)>, key: Seq<char>) -> Option<
    JsonTree,
> {
    if key_index(entries, key) < entries.len() {
        Some(entries[key_index(entries, key) as int].1)
    } else {
        None
    }
}

/// The entries after setting a key: a present key keeps its position.
pub open spec fn with_entry(
    entries: Seq<(Seq<char>, JsonTree)>,
    entry: (Seq<char>, JsonTree),
) -> Seq<(Seq<char>, JsonTree)> {
    let at = key_index(entries, entry.0);
    if at < entries.len() {
        entries.update(at as int, entry)
    } else {
        entries.push(entry)
    }
}

/// The object that results from setting the entries one after another.
pub open spec fn object_of(entries: Seq<(Seq<char>, JsonTree)>) -> JsonTree {
    JsonTree::Object(entries.fold_left(Seq::empty(), |o, e| with_entry(o, e)))
}

/// The text, or JSON null where there is none.
pub open spec fn text_or_null(text: Option<String>) -> JsonTree {
    match text {
        Some(t) => JsonTree::Text(t@),
        None => JsonTree::Null,
    }
}

/// The tree of an unsigned number.
pub open spec fn number_tree(n: nat) -> JsonTree {
    JsonTree::Number(decimal(n))
}

/// Whether every number of the tree is an integer that fits in 64 bits.
pub open spec fn whole_numbers_only(tree: JsonTree) -> bool
    decreases tree,
{
    match tree {
        JsonTree::Number(text) => whole_number(text),
        JsonTree::Array(items) => forall|i: int|
            0 <= i < items.len() ==> whole_numbers_only(#[trigger] items[i]),
        JsonTree::Object(entries) => forall|i: int|
            0 <= i < entries.len() ==> whole_numbers_only((#[trigger] entries[i]).1),
        _ => true,
    }
}

/// Whether a number's text is that of a 64-bit integer.
pub open spec fn whole_number(text: Seq<char>) -> bool {
    ||| exists|n: u64| text == #[trigger] decimal(n as nat)
    ||| exists|n: u64| 1 <= n <= 0x8000_0000_0000_0000 && text == seq!['-'] + #[trigger] decimal(n as nat)
}

/// Whether two trees differ at most in numbers that are no 64-bit integers.
pub open spec fn alike(tree: JsonTree, other: JsonTree) -> bool
    decreases tree,
{
    match (tree, other) {
        (JsonTree::Number(text), JsonTree::Number(read)) => whole_number(text) ==> text == read,
        (JsonTree::Array(items), JsonTree::Array(read)) => items.len() == read.len() && forall|
            i: int,
        |
            0 <= i < items.len() ==> alike(#[trigger] items[i], read[i]),
        (JsonTree::Object(entries), JsonTree::Object(read)) => entries.len() == read.len()
            && forall|i: int|
            0 <= i < entries.len() ==> (#[trigger] entries[i]).0 == read[i].0 && alike(
                entries[i].1,
                read[i].1,
            ),
        _ => tree == other,
    }
}

/// Whether a text parses as a JSON value that is alike to this tree.
pub open spec fn reads_back(text: Seq<char>, tree: JsonTree) -> bool {
    parsed_json(text) matches Ok(read) && alike(tree, read)
}

/// A tree whose numbers are all 64-bit integers is alike to no other tree.
pub proof fn lemma_whole_numbers_stay(tree: JsonTree, other: JsonTree)
    requires
        whole_numbers_only(tree),
        alike(tree, other),
    ensures
        other == tree,
    decreases tree,
{
    match (tree, other) {
        (JsonTree::Array(items), JsonTree::Array(read)) => {
            assert forall|i: int| 0 <= i < items.len() implies items[i] == #[trigger] read[i] by {
                assert(whole_numbers_only(items[i]));
                assert(alike(items[i], read[i]));
                lemma_whole_numbers_stay(items[i], read[i]);
            }
            assert(items =~= read);
        },
        (JsonTree::Object(entries), JsonTree::Object(read)) => {
            assert forall|i: int| 0 <= i < entries.len() implies entries[i]
                == #[trigger] read[i] by {
                assert(whole_numbers_only(entries[i].1));
                assert(alike(entries[i].1, read[i].1));
                lemma_whole_numbers_stay(entries[i].1, read[i].1);
            }
            assert(entries =~= read);
        },
        _ => {},
    }
}

/// Whether the containers of the tree nest at most `depth` levels deep.
pub open spec fn nests_within(tree: JsonTree, depth: nat) -> bool
    decreases tree,
{
    match tree {
        JsonTree::Array(items) => depth > 0 && forall|i: int|
            0 <= i < items.len() ==> #[trigger] nests_within(items[i], (depth - 1) as nat),
        JsonTree::Object(entries) => depth > 0 && forall|i: int|
            0 <= i < entries.len() ==> nests_within(
                (#[trigger] entries[i]).1,
                (depth - 1) as nat,
            ),
        _ => true,
    }
}

/// `serde_json::from_str::<Value>` parses a text as one JSON value, and
/// names the failure's text where it is none.
#[verifier::external_body]
pub(crate) fn parse_json(text: &str) -> (parsed: Result<Value, String>)
    ensures
        match parsed {
            Ok(value) => parsed_json(text@) matches Ok(tree) && tree == json_tree(value),
            Err(message) => parsed_json(text@) matches Err(error) && error == message@,
        },
{
    serde_json::from_str::<Value>(text).map_err(|error| error.to_string())
}

/// `Value`'s `Display` writes the compact notation. What it writes of a value
/// whose containers nest no deeper than the parser follows parses again, and
/// gives the same value but for numbers that are no integers: the parser may
/// read a fraction as one of its neighbours.
#[verifier::external_body]
pub(crate) fn render_json(value: &Value) -> (text: String)
    ensures
        text@ == rendered_json(json_tree(*value)),
        nests_within(json_tree(*value), 127) ==> reads_back(text@, json_tree(*value)),
{
    value.to_string()
}

/// The variant `Value::Null`.
#[verifier::external_body]
pub(crate) fn json_null() -> (value: Value)
    ensures
        json_tree(value) == JsonTree::Null,
{
    Value::Null
}

/// The variant `Value::String`.
#[verifier::external_body]
pub(crate) fn json_text(text: String) -> (value: Value)
    ensures
        json_tree(value) == JsonTree::Text(text@),
{
    Value::String(text)
}

/// `Value::from` a `u64` is a number that is displayed in decimal notation.
#[verifier::external_body]
pub(crate) fn json_number(n: u64) -> (value: Value)
    ensures
        json_tree(value) == number_tree(n as nat),
{
    Value::from(n)
}

/// The variant `Value::Bool`.
#[verifier::external_body]
pub(crate) fn json_bool(b: bool) -> (value: Value)
    ensures
        json_tree(value) == JsonTree::Bool(b),
{
    Value::Bool(b)
}

/// The variant `Value::Array`.
#[verifier::external_body]
pub(crate) fn json_array(items: Vec<Value>) -> (value: Value)
    ensures
        json_tree(value) == JsonTree::Array(trees(items@)),
{
    Value::Array(items)
}

/// `Value`'s `FromIterator` over keys and values sets the entries one after
/// another: a repeated key keeps its first position and its last value.
#[verifier::external_body]
pub(crate) fn json_object(entries: Vec<(String, Value)>) -> (value: Value)
    ensures
        json_tree(value) == object_of(entry_trees(entries@)),
{
    entries.into_iter().collect::<Value>()
}

/// `Value::Object` around an object.
#[verifier::external_body]
pub(crate) fn object_value(object: serde_json::Map<String, Value>) -> (value: Value)
    ensures
        json_tree(value) == JsonTree::Object(object_entries(object)),
{
    Value::Object(object)
}

/// `Value`'s `Clone` gives an equal value.
#[verifier::external_body]
pub(crate) fn copy_json(value: &Value) -> (copied: Value)
    ensures
        json_tree(copied) == json_tree(*value),
{
    value.clone()
}

/// `Map`'s `Clone` gives an object with the same entries.
#[verifier::external_body]
pub(crate) fn copy_object(
    object: &serde_json::Map<String, Value>,
) -> (copied: serde_json::Map<String, Value>)
    ensures
        object_entries(copied) == object_entries(*object),
{
    object.clone()
}

/// The object inside `Value::Object`; any other variant has none.
#[verifier::external_body]
pub(crate) fn into_object(value: Value) -> (object: Option<serde_json::Map<String, Value>>)
    ensures
        match object {
            Some(object) => json_tree(value) == JsonTree::Object(object_entries(object)),
            None => !(json_tree(value) is Object),
        },
{
    match value {
        Value::Object(object) => Some(object),
        _ => None,
    }
}

/// `Value::as_str`: the text inside `Value::String`.
#[verifier::external_body]
pub(crate) fn text_of(value: &Value) -> (text: Option<String>)
    ensures
        match text {
            Some(text) => json_tree(*value) == JsonTree::Text(text@),
            None => !(json_tree(*value) is Text),
        },
{
    value.as_str().map(|text| text.to_string())
}

/// `Value::as_u64`: the number, where it is an unsigned 64-bit integer.
#[verifier::external_body]
pub(crate) fn number_of(value: &Value) -> (number: Option<u64>)
    ensures
        match number {
            Some(n) => json_tree(*value) == number_tree(n as nat),
            None => forall|n: u64| json_tree(*value) != #[trigger] number_tree(n as nat),
        },
{
    value.as_u64()
}

/// `Map::keys`, in insertion order.
#[verifier::external_body]
pub(crate) fn object_keys(object: &serde_json::Map<String, Value>) -> (keys: Vec<String>)
    ensures
        texts(keys@) == object_entries(*object).map_values(|e: (Seq<char>, JsonTree)| e.0),
{
    object.keys().cloned().collect()
}

/// `Map`'s `IntoIterator` over a copy of the object hands out its entries in
/// insertion order.
#[verifier::external_body]
pub(crate) fn object_fields(object: &serde_json::Map<String, Value>) -> (fields: Vec<
    (String, Value),
>)
    ensures
        entry_trees(fields@) == object_entries(*object),
{
    object.clone().into_iter().collect()
}

/// `Map::get`: the value under a key.
#[verifier::external_body]
pub(crate) fn object_get<'a>(
    object: &'a serde_json::Map<String, Value>,
    key: &str,
) -> (value: Option<&'a Value>)
    ensures
        match value {
            Some(value) => entry_value(object_entries(*object), key@) == Some(json_tree(*value)),
            None => entry_value(object_entries(*object), key@) is None,
        },
{
    object.get(key)
}

/// Adds one field to the fields of an object under construction.
pub(crate) fn with_field(
    fields: Vec<(String, Value)>,
    key: &str,
    value: Value,
) -> (extended: Vec<(String, Value)>)
    ensures
        entry_trees(extended@) == entry_trees(fields@).push((key@, json_tree(value))),
{
    let mut extended = fields;
    extended.push((key.to_owned(), value));
    proof {
        assert(entry_trees(extended@) =~= entry_trees(fields@).push((key@, json_tree(value))));
    }
    extended
}

/// A text value, or JSON null where there is none.
pub(crate) fn optional_text(text: &Option<String>) -> (value: Value)
    ensures
        json_tree(value) == text_or_null(*text),
{
    match text {
        Some(text) => json_text(text.clone()),
        None => json_null(),
    }
}

/// Whether no key occurs twice.
pub open spec fn keys_differ(entries: Seq<(Seq<char>, JsonTree)>) -> bool {
    forall|i: int, j: int|
        0 <= i < j < entries.len() ==> (#[trigger] entries[i]).0 != (#[trigger] entries[j]).0
}

/// A key that occurs only at one place is found there.
pub proof fn lemma_key_found(entries: Seq<(Seq<char>, JsonTree)>, at: int)
    requires
        0 <= at < entries.len(),
        keys_differ(entries),
    ensures
        key_index(entries, entries[at].0) == at,
        entry_value(entries, entries[at].0) == Some(entries[at].1),
    decreases entries.len(),
{
    if at > 0 {
        let rest = entries.drop_first();
        assert(entries[0].0 != entries[at].0);
        assert forall|i: int, j: int| 0 <= i < j < rest.len() implies (#[trigger] rest[i]).0 != (
        #[trigger] rest[j]).0 by {
            assert(entries[i + 1].0 != entries[j + 1].0);
        }
        lemma_key_found(rest, at - 1);
        assert(rest[at - 1] == entries[at]);
    }
}

/// A key that does not occur is not found.
pub proof fn lemma_key_missing(entries: Seq<(Seq<char>, JsonTree)>, key: Seq<char>)
    requires
        forall|i: int| 0 <= i < entries.len() ==> (#[trigger] entries[i]).0 != key,
    ensures
        key_index(entries, key) == entries.len(),
    decreases entries.len(),
{
    if entries.len() > 0 {
        let rest = entries.drop_first();
        assert forall|i: int| 0 <= i < rest.len() implies (#[trigger] rest[i]).0 != key by {
            assert(entries[i + 1].0 != key);
        }
        assert(entries[0].0 != key);
        lemma_key_missing(rest, key);
    }
}

/// Setting entries with different keys gives an object of just these entries.
pub proof fn lemma_object_of_different_keys(entries: Seq<(Seq<char>, JsonTree)>)
    requires
        keys_differ(entries),
    ensures
        object_of(entries) == JsonTree::Object(entries),
    decreases entries.len(),
{
    if entries.len() == 0 {
        assert(entries =~= Seq::empty());
    } else {
        let shorter = entries.drop_last();
        assert forall|i: int, j: int| 0 <= i < j < shorter.len() implies (#[trigger] shorter[i]).0
            != (#[trigger] shorter[j]).0 by {
            assert(entries[i].0 != entries[j].0);
        }
        lemma_object_of_different_keys(shorter);
        let last = entries.last();
        assert forall|i: int| 0 <= i < shorter.len() implies (#[trigger] shorter[i]).0
            != last.0 by {
            assert(entries[i].0 != entries[entries.len() - 1].0);
        }
        lemma_key_missing(shorter, last.0);
        assert(shorter.push(last) =~= entries);
    }
}

/// Whether an object holds a value under a key.
pub open spec fn shows(object: JsonTree, key: Seq<char>, value: JsonTree) -> bool {
    object matches JsonTree::Object(entries) && entry_value(entries, key) == Some(value)
}

/// Whether an object holds nothing under a key.
pub open spec fn lacks(object: JsonTree, key: Seq<char>) -> bool {
    object matches JsonTree::Object(entries) && entry_value(entries, key) is None
}

/// An object made of entries with different keys shows each of them.
pub proof fn lemma_object_shows_its_entries(entries: Seq<(Seq<char>, JsonTree)>)
    requires
        keys_differ(entries),
    ensures
        forall|i: int|
            0 <= i < entries.len() ==> shows(
                object_of(entries),
                (#[trigger] entries[i]).0,
                entries[i].1,
            ),
        forall|key: Seq<char>|
            (forall|i: int| 0 <= i < entries.len() ==> (#[trigger] entries[i]).0 != key)
                ==> #[trigger] lacks(object_of(entries), key),
{
    lemma_object_of_different_keys(entries);
    assert forall|i: int| 0 <= i < entries.len() implies shows(
        object_of(entries),
        (#[trigger] entries[i]).0,
        entries[i].1,
    ) by {
        lemma_key_found(entries, i);
    }
    assert forall|key: Seq<char>|
        (forall|i: int| 0 <= i < entries.len() ==> (#[trigger] entries[i]).0 != key) implies
        #[trigger] lacks(object_of(entries), key) by {
        lemma_key_missing(entries, key);
    }
}

} // verus!
