//! JSON documents, read and written by `serde_json`.
use vstd::prelude::*;

use crate::strmap::{distinct_keys, has_key, map_of, StrMap};

verus! {

/// What a JSON document says.
pub enum Json {
    Null,
    Bool(bool),
    /// A number, with its value where that is an integer from 0 up that fits 64 bits.
    Number(Option<u64>),
    Text(Seq<char>),
    List(Seq<Json>),
    Object(Map<Seq<char>, Json>),
}

/// The member of an object with that key; null where there is none.
pub open spec fn json_member(json: Json, key: Seq<char>) -> Json {
    match json {
        Json::Object(members) => if members.dom().contains(key) {
            members[key]
        } else {
            Json::Null
        },
        _ => Json::Null,
    }
}

/// The items of a list.
pub open spec fn json_items(json: Json) -> Option<Seq<Json>> {
    match json {
        Json::List(items) => Some(items),
        _ => None,
    }
}

/// The characters of a text.
pub open spec fn json_text(json: Json) -> Option<Seq<char>> {
    match json {
        Json::Text(chars) => Some(chars),
        _ => None,
    }
}

/// The value of an integer from 0 up that fits 64 bits.
pub open spec fn json_uint(json: Json) -> Option<u64> {
    match json {
        Json::Number(n) => n,
        _ => None,
    }
}

/// A JSON document as `serde_json` holds it.
#[verifier::external_type_specification]
#[verifier::external_body]
pub struct ExValue(serde_json::Value);

/// What a `serde_json::Value` holds.
pub uninterp spec fn json_content(value: serde_json::Value) -> Json;

/// The document that `serde_json::from_str` reads from a text, if it is one.
pub uninterp spec fn json_document(chars: Seq<char>) -> Option<Json>;

/// The texts by key that `serde_json::from_slice` reads from bytes, if they are an object of
/// texts.
pub uninterp spec fn json_texts(bytes: Seq<u8>) -> Option<Map<Seq<char>, Seq<char>>>;

/// `serde_json::from_str` into a `serde_json::Value`: whether it succeeds, and with what
/// document, depends on the text alone. The grammar is not stated.
#[verifier::external_body]
pub(crate) fn parse_document(chars: &str) -> (r: Option<serde_json::Value>)
    ensures
        match r {
            Some(value) => json_document(chars@) == Some(json_content(value)),
            None => json_document(chars@) is None,
        },
{
    serde_json::from_str::<serde_json::Value>(chars).ok()
}

/// Indexing a `serde_json::Value` with a text: the member with that key, and null where the
/// value is no object or lacks the key.
#[verifier::external_body]
pub(crate) fn member<'a>(value: &'a serde_json::Value, key: &str) -> (r: &'a serde_json::Value)
    ensures
        json_content(*r) == json_member(json_content(*value), key@),
{
    &value[key]
}

/// `serde_json::Value::as_array`: the items in order where the value is a list.
pub assume_specification[ serde_json::Value::as_array ](value: &serde_json::Value) -> (r: Option<
    &Vec<serde_json::Value>,
>)
    ensures
        match json_items(json_content(*value)) {
            Some(items) => r is Some && r->0@.len() == items.len() && forall|i: int|
                0 <= i < items.len() ==> json_content(#[trigger] r->0@[i]) == items[i],
            None => r is None,
        },
;

/// `serde_json::Value::as_str`: the characters where the value is a text.
pub assume_specification[ serde_json::Value::as_str ](value: &serde_json::Value) -> (r: Option<&str>)
    ensures
        match json_text(json_content(*value)) {
            Some(chars) => r is Some && r->0@ == chars,
            None => r is None,
        },
;

/// `serde_json::Value::as_u64`: the value of an integer from 0 up that fits 64 bits.
pub assume_specification[ serde_json::Value::as_u64 ](value: &serde_json::Value) -> (r: Option<u64>)
    ensures
        r == json_uint(json_content(*value)),
;

/// `serde_json::from_slice` into a map of texts: whether it succeeds, and with what keys and
/// texts, depends on the bytes alone. Their order in the result is left open.
#[verifier::external_body]
pub(crate) fn parse_texts(bytes: &Vec<u8>) -> (r: Option<Vec<(String, String)>>)
    ensures
        match r {
            Some(pairs) => distinct_keys(pairs.deep_view()) && json_texts(bytes@) == Some(
                map_of(pairs.deep_view()),
            ),
            None => json_texts(bytes@) is None,
        },
{
    serde_json::from_slice::<std::collections::HashMap<String, String>>(bytes)
        .ok()
        .map(|texts| texts.into_iter().collect())
}

/// `serde_json::to_vec` of a map of texts: it succeeds, and `serde_json::from_slice` reads the
/// same keys and texts back. In which order the bytes hold them is left open.
#[verifier::external_body]
pub(crate) fn print_texts(pairs: &Vec<(&String, &String)>) -> (r: Option<Vec<u8>>)
    requires
        distinct_keys(pairs.deep_view()),
    ensures
        r is Some,
        json_texts(r->0@) == Some(map_of(pairs.deep_view())),
{
    let texts: std::collections::HashMap<&String, &String> = pairs.iter().copied().collect();
    serde_json::to_vec(&texts).ok()
}

/// One slot of a core's `data.json`, as far as it says which files go where.
#[derive(Debug, PartialEq, Eq)]
pub struct DataSlot {
    /// The bits that say how the slot is filled.
    pub parameters: Option<u64>,
    /// Where the core looks for a fixed file.
    pub filename: Option<String>,
    /// The file extensions that it takes; an item that is no text is `None`.
    pub extensions: Option<Vec<Option<String>>>,
}

pub struct DataSlotView {
    pub parameters: Option<u64>,
    pub filename: Option<Seq<char>>,
    pub extensions: Option<Seq<Option<Seq<char>>>>,
}

impl DeepView for DataSlot {
    type V = DataSlotView;

    open spec fn deep_view(&self) -> DataSlotView {
        DataSlotView {
            parameters: self.parameters,
            filename: self.filename.deep_view(),
            extensions: self.extensions.deep_view(),
        }
    }
}

/// The slot that an item of `data_slots` describes.
pub open spec fn slot_of(json: Json) -> DataSlotView {
    DataSlotView {
        parameters: json_uint(json_member(json, "parameters"@)),
        filename: json_text(json_member(json, "filename"@)),
        extensions: match json_items(json_member(json, "extensions"@)) {
            Some(items) => Some(items.map_values(|item: Json| json_text(item))),
            None => None,
        },
    }
}

/// The slots that a document lists under `data` and `data_slots`.
pub open spec fn slots_of(json: Json) -> Option<Seq<DataSlotView>> {
    match json_items(json_member(json_member(json, "data"@), "data_slots"@)) {
        Some(items) => Some(items.map_values(|item: Json| slot_of(item))),
        None => None,
    }
}

/// The slots that the text of a `data.json` lists; `None` where it is no JSON or lists none.
pub open spec fn slots_in(chars: Seq<char>) -> Option<Seq<DataSlotView>> {
    match json_document(chars) {
        Some(json) => slots_of(json),
        None => None,
    }
}

fn owned_text(value: &serde_json::Value) -> (r: Option<String>)
    ensures
        r.deep_view() == json_text(json_content(*value)),
{
    match value.as_str() {
        Some(chars) => Some(chars.to_owned()),
        None => None,
    }
}

fn read_slot(value: &serde_json::Value) -> (r: DataSlot)
    ensures
        r.deep_view() == slot_of(json_content(*value)),
{
    let ghost json = json_content(*value);
    let extensions = match member(value, "extensions").as_array() {
        Some(items) => {
            let ghost texts = json_items(json_member(json, "extensions"@))->0.map_values(
                |item: Json| json_text(item),
            );
            let mut out: Vec<Option<String>> = Vec::new();
            let mut i: usize = 0;
            while i < items.len()
                invariant
                    i <= items@.len() == texts.len(),
                    forall|j: int|
                        0 <= j < texts.len() ==> json_text(json_content(#[trigger] items@[j])) == texts[j],
                    out.deep_view() == texts.take(i as int),
                decreases items@.len() - i,
            {
                let ghost before = out.deep_view();
                out.push(owned_text(&items[i]));
                assert(out.deep_view() =~= before.push(texts[i as int]));
                assert(out.deep_view() =~= texts.take(i + 1));
                i += 1;
            }
            assert(out.deep_view() =~= texts);
            Some(out)
        },
        None => None,
    };
    DataSlot {
        parameters: member(value, "parameters").as_u64(),
        filename: owned_text(member(value, "filename")),
        extensions,
    }
}

/// The slots that the text of a `data.json` lists; `None` where it is no JSON or lists none.
pub fn read_slots(chars: &str) -> (r: Option<Vec<DataSlot>>)
    ensures
        r.deep_view() == slots_in(chars@),
{
    let document = match parse_document(chars) {
        Some(value) => value,
        None => {
            return None;
        },
    };
    let ghost json = json_content(document);
    match member(member(&document, "data"), "data_slots").as_array() {
        Some(items) => {
            let ghost slots = slots_of(json)->0;
            let mut out: Vec<DataSlot> = Vec::new();
            let mut i: usize = 0;
            while i < items.len()
                invariant
                    i <= items@.len() == slots.len(),
                    forall|j: int|
                        0 <= j < slots.len() ==> slot_of(json_content(#[trigger] items@[j])) == slots[j],
                    out.deep_view() == slots.take(i as int),
                decreases items@.len() - i,
            {
                let ghost before = out.deep_view();
                out.push(read_slot(&items[i]));
                assert(out.deep_view() =~= before.push(slots[i as int]));
                assert(out.deep_view() =~= slots.take(i + 1));
                i += 1;
            }
            assert(out.deep_view() =~= slots);
            Some(out)
        },
        None => None,
    }
}

/// The bytes in which a map of texts is stored.
pub fn encode_texts(texts: &StrMap<String>) -> (r: Option<Vec<u8>>)
    ensures
        r is Some,
        json_texts(r->0@) == Some(texts.map()),
{
    let mut pairs: Vec<(&String, &String)> = Vec::new();
    let mut i: usize = 0;
    let ghost entries = texts.entries();
    while i < texts.len()
        invariant
            i <= entries.len(),
            entries == texts.entries(),
            pairs.deep_view() == entries.take(i as int),
            i > 0 ==> distinct_keys(entries),
        decreases entries.len() - i,
    {
        let ghost before = pairs.deep_view();
        pairs.push(texts.entry(i));
        assert(pairs.deep_view() =~= before.push(entries[i as int]));
        assert(pairs.deep_view() =~= entries.take(i + 1));
        i += 1;
    }
    assert(pairs.deep_view() =~= entries);
    print_texts(&pairs)
}

/// The map of texts that was stored in these bytes; `None` where they hold none.
pub fn decode_texts(bytes: &Vec<u8>) -> (r: Option<StrMap<String>>)
    ensures
        match r {
            Some(texts) => json_texts(bytes@) == Some(texts.map()),
            None => json_texts(bytes@) is None,
        },
{
    let pairs = match parse_texts(bytes) {
        Some(pairs) => pairs,
        None => {
            return None;
        },
    };
    let ghost all = pairs.deep_view();
    let mut texts: StrMap<String> = StrMap::new();
    let mut i: usize = 0;
    while i < pairs.len()
        invariant
            i <= pairs@.len(),
            all == pairs.deep_view(),
            distinct_keys(all),
            texts.entries() == all.take(i as int),
        decreases pairs@.len() - i,
    {
        let ghost before = texts.entries();
        assert(!has_key(before, all[i as int].0)) by {
            if has_key(before, all[i as int].0) {
                let j = choose|j: int| 0 <= j < before.len() && (#[trigger] before[j]).0 == all[i as int].0;
                assert(all[j].0 != all[i as int].0);
            }
        }
        texts.insert(pairs[i].0.clone(), pairs[i].1.clone());
        assert(texts.entries() =~= all.take(i + 1));
        i += 1;
    }
    assert(texts.entries() =~= all);
    Some(texts)
}

} // verus!
