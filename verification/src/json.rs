//! The JSON values that the library stores and hands on are `serde_json`'s.
//! This file is the whole of what is taken on trust about that crate: the
//! types, a name for what a value and a mapping hold, a name for the text that
//! the encoder writes, and one contract for each operation that the library
//! calls.

use crate::text::{key_listed, texts};
use crate::tree::{distinct_keys, only_keys, upsert, value_at, without_key, Entry, JsonView};
use serde_json::Value;
use vstd::prelude::*;

verus! {

/// `serde_json::Value`, a JSON document. Verus does not look inside it.
#[verifier::external_type_specification]
#[verifier::external_body]
pub struct ExValue(Value);

/// `serde_json::Map`, the mapping inside a JSON object. The crate is built
/// with its feature `preserve_order`, so that a mapping keeps its members in
/// the order in which they were inserted.
#[verifier::external_type_specification]
#[verifier::external_body]
#[verifier::reject_recursive_types(K)]
#[verifier::reject_recursive_types(V)]
pub struct ExObject<K, V>(serde_json::Map<K, V>);

/// `serde_json::Error`, what the encoder returns when it gives up.
#[verifier::external_type_specification]
#[verifier::external_body]
pub struct ExEncodeError(serde_json::Error);

/// The tree that a `serde_json::Value` holds.
pub uninterp spec fn json_view(value: Value) -> JsonView;

/// The members of a `serde_json::Map`, in the order in which it walks them.
pub uninterp spec fn map_entries(map: serde_json::Map<String, Value>) -> Seq<(Seq<char>, JsonView)>;

/// What `serde_json::to_string` returns for a value that holds the tree
/// `tree`: the compact JSON text that it writes, or nothing where it gives up.
pub uninterp spec fn json_text(tree: JsonView) -> Option<Seq<char>>;

/// `Map::new` makes a mapping without members.
pub assume_specification[ serde_json::Map::<String, Value>::new ]() -> (map: serde_json::Map<
    String,
    Value,
>)
    ensures
        map_entries(map) == Seq::<(Seq<char>, JsonView)>::empty(),
;

/// `Map::insert`: where the key is present its member keeps its place and
/// takes the new value, and the old value comes back; where it is absent the
/// new member goes last and `None` comes back.
pub assume_specification[ serde_json::Map::<String, Value>::insert ](
    map: &mut serde_json::Map<String, Value>,
    k: String,
    v: Value,
) -> (previous: Option<Value>)
    ensures
        map_entries(*final(map)) == upsert(map_entries(*old(map)), k@, json_view(v)),
        match previous {
            Some(p) => value_at(map_entries(*old(map)), k@) == Some(json_view(p)),
            None => value_at(map_entries(*old(map)), k@) is None,
        },
;

/// `Map::shift_remove` takes the member with the key `key` out and returns its
/// value; the members behind it keep their order. Without such a member the
/// mapping stays as it is and `None` comes back.
#[verifier::external_body]
pub(crate) fn shift_remove(map: &mut serde_json::Map<String, Value>, key: &str) -> (removed: Option<
    Value,
>)
    ensures
        map_entries(*final(map)) == without_key(map_entries(*old(map)), key@),
        match removed {
            Some(r) => value_at(map_entries(*old(map)), key@) == Some(json_view(r)),
            None => value_at(map_entries(*old(map)), key@) is None,
        },
{
    map.shift_remove(key)
}

/// `Map::retain` keeps the members for which the closure returns `true`, here
/// those whose key is one of `keys`; the members that stay keep their order.
#[verifier::external_body]
pub(crate) fn retain_listed(map: &mut serde_json::Map<String, Value>, keys: &Vec<String>)
    ensures
        map_entries(*final(map)) == only_keys(map_entries(*old(map)), texts(keys@)),
{
    map.retain(|key, _| key_listed(keys, key));
}

/// `Map::get` returns the value stored under `key`, if there is one.
#[verifier::external_body]
pub(crate) fn get_value<'a>(map: &'a serde_json::Map<String, Value>, key: &str) -> (found: Option<
    &'a Value,
>)
    ensures
        match found {
            Some(v) => value_at(map_entries(*map), key@) == Some(json_view(*v)),
            None => value_at(map_entries(*map), key@) is None,
        },
{
    map.get(key)
}

/// The members that a vector of keys and values stands for.
pub open spec fn entry_views(entries: Seq<(String, Value)>) -> Seq<Entry> {
    entries.map_values(|entry: (String, Value)| (entry.0@, json_view(entry.1)))
}

/// `IntoIterator::into_iter` on a `Map` hands out the members, first to last.
#[verifier::external_body]
pub(crate) fn into_entries(map: serde_json::Map<String, Value>) -> (entries: Vec<(String, Value)>)
    ensures
        entry_views(entries@) == map_entries(map),
{
    map.into_iter().collect()
}

/// `Clone::clone` on a `Map` copies every member, in order.
#[verifier::external_body]
pub(crate) fn clone_map(map: &serde_json::Map<String, Value>) -> (copy: serde_json::Map<
    String,
    Value,
>)
    ensures
        map_entries(copy) == map_entries(*map),
{
    map.clone()
}

/// `Clone::clone` on a `Value` copies the tree.
#[verifier::external_body]
pub(crate) fn clone_value(value: &Value) -> (copy: Value)
    ensures
        json_view(copy) == json_view(*value),
{
    value.clone()
}

/// `Value::Object` wraps a mapping: the value is the object with these members.
#[verifier::external_body]
pub(crate) fn object_value(map: serde_json::Map<String, Value>) -> (value: Value)
    ensures
        json_view(value) == JsonView::Object(map_entries(map)),
{
    Value::Object(map)
}

/// Takes the mapping out of a value that is an object, and hands any other
/// value back as it came. No key occurs twice in a mapping.
#[verifier::external_body]
pub(crate) fn into_object(value: Value) -> (split: Result<serde_json::Map<String, Value>, Value>)
    ensures
        match split {
            Ok(map) => json_view(value) == JsonView::Object(map_entries(map)) && distinct_keys(
                map_entries(map),
            ),
            Err(other) => other == value && !(json_view(value) is Object),
        },
{
    match value {
        Value::Object(map) => Ok(map),
        other => Err(other),
    }
}

/// `Value::String` wraps a string.
#[verifier::external_body]
pub(crate) fn text_value(text: String) -> (value: Value)
    ensures
        json_view(value) == JsonView::Text(text@),
{
    Value::String(text)
}

/// `Value::as_str` returns the string of a value that is one, and `None` for
/// any other value.
pub assume_specification<'a>[ Value::as_str ](value: &'a Value) -> (text: Option<&'a str>)
    ensures
        match text {
            Some(t) => json_view(*value) == JsonView::Text(t@),
            None => !(json_view(*value) is Text),
        },
;

/// `Value::as_object` returns the mapping of a value that is an object, and
/// `None` for any other value.
pub assume_specification<'a>[ Value::as_object ](value: &'a Value) -> (map: Option<
    &'a serde_json::Map<String, Value>,
>)
    ensures
        match map {
            Some(m) => json_view(*value) == JsonView::Object(map_entries(*m)),
            None => !(json_view(*value) is Object),
        },
;

/// `Value::is_null` tells whether a value is `null`.
pub assume_specification[ Value::is_null ](value: &Value) -> (null: bool)
    ensures
        null == (json_view(*value) is Null),
;

/// `Value::Null`.
#[verifier::external_body]
pub(crate) fn null_value() -> (value: Value)
    ensures
        json_view(value) == JsonView::Null,
{
    Value::Null
}

/// `serde_json::to_string` on a `Value`. Whether it writes a text, and which,
/// depends on the tree alone. Nothing is claimed about the trees on which it
/// gives up.
#[verifier::external_body]
pub(crate) fn encode(value: &Value) -> (encoded: Result<String, serde_json::Error>)
    ensures
        match encoded {
            Ok(text) => json_text(json_view(*value)) == Some(text@),
            Err(_) => json_text(json_view(*value)) is None,
        },
{
    serde_json::to_string(value)
}

} // verus!
