//! The answers of the service as they come over the wire: JSON, read field
//! by field into what the library works on. A field that an answer lacks, or
//! holds in another shape, is read as missing; nothing is assumed to be
//! there.

use crate::catalog::{Aggregate, ChapterRecord, VolumeRecord};
use crate::resolve::ChapterMeta;
use serde_json::Value;
use vstd::prelude::*;
use vstd::string::*;

verus! {

/// A JSON value, `serde_json::Value`. Nothing of its inside is known here;
/// the names below stand for what it holds.
#[verifier::external_type_specification]
#[verifier::external_body]
pub struct ExValue(Value);

/// The JSON value that `data` is the text of; `None` where it is no JSON.
pub uninterp spec fn parsed(data: Seq<u8>) -> Option<Value>;

/// What a JSON value holds under `key`: the member of that name if the value
/// is an object that has one, the null value otherwise.
pub uninterp spec fn member(value: Value, key: Seq<char>) -> Value;

/// The text that a JSON value holds, if it is a string.
pub uninterp spec fn text_in(value: Value) -> Option<Seq<char>>;

/// The items that a JSON value holds, in order, if it is an array.
pub uninterp spec fn items_in(value: Value) -> Option<Seq<Value>>;

/// The members that a JSON value holds, each with its name, if it is an
/// object. They stand in the order in which the object hands them out: that
/// of its map, which is by name, not that of the text it was read from.
pub uninterp spec fn members_in(value: Value) -> Option<Seq<(Seq<char>, Value)>>;

/// `serde_json::from_slice`, at type `Value`. Not proved, but claimed:
/// whether it succeeds, and with which value, depends on the bytes alone.
#[verifier::external_body]
fn json_parse(data: &[u8]) -> (r: Option<Value>)
    ensures
        r == parsed(data@),
{
    serde_json::from_slice::<Value>(data).ok()
}

/// Indexing a `Value` by a string, `value[key]`, which never fails: it
/// gives the null value where there is no such member. Not proved, but
/// claimed: the result depends on the value and the key alone.
#[verifier::external_body]
fn json_get<'a>(value: &'a Value, key: &str) -> (r: &'a Value)
    ensures
        *r == member(*value, key@),
{
    &value[key]
}

/// `Value::as_str`: the text of a string, `None` for any other value. Not
/// proved, but claimed: the result depends on the value alone.
#[verifier::external_body]
fn json_text<'a>(value: &'a Value) -> (r: Option<&'a str>)
    ensures
        r is Some <==> text_in(*value) is Some,
        r matches Some(text) ==> text@ == text_in(*value)->0,
{
    value.as_str()
}

/// `Value::as_array`: the items of an array, `None` for any other value. Not
/// proved, but claimed: the result depends on the value alone.
#[verifier::external_body]
fn json_items<'a>(value: &'a Value) -> (r: Option<&'a Vec<Value>>)
    ensures
        r is Some <==> items_in(*value) is Some,
        r matches Some(items) ==> items@ == items_in(*value)->0,
{
    value.as_array()
}

/// `Value::as_object`, and `Map::iter` over the object found: the members of
/// an object as the map hands them out, `None` for any other value. Not
/// proved, but claimed: the result depends on the value alone.
#[verifier::external_body]
fn json_members<'a>(value: &'a Value) -> (r: Option<Vec<(&'a String, &'a Value)>>)
    ensures
        r is Some <==> members_in(*value) is Some,
        r matches Some(found) ==> {
            &&& found@.len() == members_in(*value)->0.len()
            &&& forall|i: int|
                0 <= i < found@.len() ==> (#[trigger] found@[i]).0@ == members_in(*value)->0[i].0
                    && *found@[i].1 == members_in(*value)->0[i].1
        },
{
    match value.as_object() {
        Some(object) => Some(object.iter().collect()),
        None => None,
    }
}

/// Whether `held` is what `value` holds of text: the text of a string, and
/// nothing for any other value.
pub open spec fn text_reflects(held: Option<String>, value: Value) -> bool {
    match text_in(value) {
        Some(text) => held matches Some(s) && s@ == text,
        None => held is None,
    }
}

/// Whether every one of `items` is a string.
pub open spec fn all_texts(items: Seq<Value>) -> bool {
    forall|i: int| 0 <= i < items.len() ==> text_in(#[trigger] items[i]) is Some
}

/// Whether `held` is what `value` holds of a list of texts: the texts of an
/// array of strings, in order, and nothing for any other value.
pub open spec fn list_reflects(held: Option<Vec<String>>, value: Value) -> bool {
    if items_in(value) is Some && all_texts(items_in(value)->0) {
        &&& held matches Some(list)
        &&& list@.len() == items_in(value)->0.len()
        &&& forall|i: int|
            0 <= i < list@.len() ==> (#[trigger] list@[i])@ == text_in(items_in(value)->0[i])->0
    } else {
        held is None
    }
}

/// Whether `record` is what the aggregate says under the chapter label
/// `label`: its `id` as the primary translation, its `others` as the
/// alternates.
pub open spec fn record_reflects(record: ChapterRecord, label: Seq<char>, data: Value) -> bool {
    &&& record.label@ == label
    &&& text_reflects(record.id, member(data, "id"@))
    &&& list_reflects(record.others, member(data, "others"@))
}

/// Whether `volume` is what the aggregate says of a volume: a record for
/// each member of its `chapters`, under the member's name, in order.
pub open spec fn volume_reflects(volume: VolumeRecord, data: Value) -> bool {
    match members_in(member(data, "chapters"@)) {
        Some(listed) => {
            &&& volume.chapters matches Some(records)
            &&& records@.len() == listed.len()
            &&& forall|i: int|
                0 <= i < records@.len() ==> record_reflects(
                    #[trigger] records@[i],
                    listed[i].0,
                    listed[i].1,
                )
        },
        None => volume.chapters is None,
    }
}

/// Whether `aggregate` is what the answer `body` says: a volume for each
/// member of its `volumes`, in order.
pub open spec fn aggregate_reflects(aggregate: Aggregate, body: Value) -> bool {
    match members_in(member(body, "volumes"@)) {
        Some(listed) => {
            &&& aggregate.volumes matches Some(volumes)
            &&& volumes@.len() == listed.len()
            &&& forall|i: int|
                0 <= i < volumes@.len() ==> volume_reflects(#[trigger] volumes@[i], listed[i].1)
        },
        None => aggregate.volumes is None,
    }
}

/// Whether `meta` is what the answer `body` says of a translation, under
/// `data` and `attributes`: its `translatedLanguage` and its `externalUrl`.
pub open spec fn meta_reflects(meta: ChapterMeta, body: Value) -> bool {
    let attributes = member(member(body, "data"@), "attributes"@);
    &&& text_reflects(meta.language, member(attributes, "translatedLanguage"@))
    &&& text_reflects(meta.external_url, member(attributes, "externalUrl"@))
}

/// Whether the answer `body` says of a translation that it qualifies for a
/// request in `language`: its `translatedLanguage` is that language, and it
/// has no `externalUrl`.
pub open spec fn qualifies_in(body: Value, language: Seq<char>) -> bool {
    let attributes = member(member(body, "data"@), "attributes"@);
    &&& text_in(member(attributes, "translatedLanguage"@)) == Some(language)
    &&& text_in(member(attributes, "externalUrl"@)) is None
}

/// Metadata read from an answer qualifies exactly when the answer says so.
pub proof fn lemma_meta_qualifies(meta: ChapterMeta, body: Value, language: Seq<char>)
    requires
        meta_reflects(meta, body),
    ensures
        meta.qualifies(language) == qualifies_in(body, language),
{
}

/// The text that a JSON value holds, if it is a string.
fn text_of(value: &Value) -> (held: Option<String>)
    ensures
        text_reflects(held, *value),
{
    match json_text(value) {
        Some(text) => Some(String::from_str(text)),
        None => None,
    }
}

/// The texts that a JSON value holds, if it is an array of strings.
fn list_of(value: &Value) -> (held: Option<Vec<String>>)
    ensures
        list_reflects(held, *value),
{
    let items = match json_items(value) {
        Some(items) => items,
        None => {
            return None;
        },
    };
    let mut list: Vec<String> = Vec::new();
    let mut i: usize = 0;
    while i < items.len()
        invariant
            i <= items.len(),
            items@ == items_in(*value)->0,
            items_in(*value) is Some,
            list@.len() == i,
            forall|k: int| 0 <= k < i ==> text_in(#[trigger] items@[k]) is Some,
            forall|k: int| 0 <= k < i ==> (#[trigger] list@[k])@ == text_in(items@[k])->0,
        decreases items.len() - i,
    {
        match json_text(&items[i]) {
            Some(text) => {
                list.push(String::from_str(text));
            },
            None => {
                return None;
            },
        }
        i = i + 1;
    }
    Some(list)
}

/// What the aggregate says of one volume.
fn volume_of(data: &Value) -> (volume: VolumeRecord)
    ensures
        volume_reflects(volume, *data),
{
    let listed = match json_members(json_get(data, "chapters")) {
        Some(listed) => listed,
        None => {
            return VolumeRecord { chapters: None };
        },
    };
    let ghost members = members_in(member(*data, "chapters"@))->0;
    let mut records: Vec<ChapterRecord> = Vec::new();
    let mut i: usize = 0;
    while i < listed.len()
        invariant
            i <= listed.len(),
            listed@.len() == members.len(),
            forall|k: int|
                0 <= k < listed@.len() ==> (#[trigger] listed@[k]).0@ == members[k].0
                    && *listed@[k].1 == members[k].1,
            records@.len() == i,
            forall|k: int|
                0 <= k < i ==> record_reflects(#[trigger] records@[k], members[k].0, members[k].1),
        decreases listed.len() - i,
    {
        let (label, data) = listed[i];
        let record = ChapterRecord {
            label: label.clone(),
            id: text_of(json_get(data, "id")),
            others: list_of(json_get(data, "others")),
        };
        records.push(record);
        i = i + 1;
    }
    VolumeRecord { chapters: Some(records) }
}

/// Reads the aggregate answer, field for field.
pub fn aggregate_of(body: &Value) -> (aggregate: Aggregate)
    ensures
        aggregate_reflects(aggregate, *body),
{
    let listed = match json_members(json_get(body, "volumes")) {
        Some(listed) => listed,
        None => {
            return Aggregate { volumes: None };
        },
    };
    let ghost members = members_in(member(*body, "volumes"@))->0;
    let mut volumes: Vec<VolumeRecord> = Vec::new();
    let mut i: usize = 0;
    while i < listed.len()
        invariant
            i <= listed.len(),
            listed@.len() == members.len(),
            forall|k: int|
                0 <= k < listed@.len() ==> (#[trigger] listed@[k]).0@ == members[k].0
                    && *listed@[k].1 == members[k].1,
            volumes@.len() == i,
            forall|k: int| 0 <= k < i ==> volume_reflects(#[trigger] volumes@[k], members[k].1),
        decreases listed.len() - i,
    {
        let (_, data) = listed[i];
        volumes.push(volume_of(data));
        i = i + 1;
    }
    Aggregate { volumes: Some(volumes) }
}

/// Reads the metadata answer, field for field.
pub fn meta_of(body: &Value) -> (meta: ChapterMeta)
    ensures
        meta_reflects(meta, *body),
{
    let attributes = json_get(json_get(body, "data"), "attributes");
    ChapterMeta {
        language: text_of(json_get(attributes, "translatedLanguage")),
        external_url: text_of(json_get(attributes, "externalUrl")),
    }
}

/// Reads the aggregate answer from the bytes of its body; `None` where the
/// bytes are no JSON.
pub fn read_aggregate(data: &[u8]) -> (r: Option<Aggregate>)
    ensures
        r is Some <==> parsed(data@) is Some,
        r matches Some(aggregate) ==> aggregate_reflects(aggregate, parsed(data@)->0),
{
    match json_parse(data) {
        Some(body) => Some(aggregate_of(&body)),
        None => None,
    }
}

/// Reads the metadata answer from the bytes of its body; `None` where the
/// bytes are no JSON.
pub fn read_meta(data: &[u8]) -> (r: Option<ChapterMeta>)
    ensures
        r is Some <==> parsed(data@) is Some,
        r matches Some(meta) ==> meta_reflects(meta, parsed(data@)->0),
{
    match json_parse(data) {
        Some(body) => Some(meta_of(&body)),
        None => None,
    }
}

} // verus!
