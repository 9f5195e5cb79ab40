//! What the agents ask a model for, and the schemas of the tools they offer to it.
use crate::config::calls::ToolSpec;
use crate::config::schema;
use crate::json;
use crate::json::{list_value, object_value, push_entry, text_value, Entries, Json, JsonValue};
use vstd::prelude::*;

verus! {

/// What a model is asked for: two prompts, and a tool that it is to call.
#[derive(Debug)]
pub struct ChatRequest {
    pub system_prompt: String,
    pub user_prompt: String,
    pub tool: ToolSpec,
}

/// The schema of values of a type.
pub open spec fn typed(name: Seq<char>) -> Json {
    Json::Record(seq![("type"@, Json::Text(name))])
}

/// The schema of lists.
pub open spec fn list_of(items: Json) -> Json {
    Json::Record(seq![("items"@, items), ("type"@, Json::Text("array"@))])
}

pub open spec fn texts(items: Seq<Seq<char>>) -> Json {
    Json::List(items.map_values(|s: Seq<char>| Json::Text(s)))
}

/// The schema of objects that have the required properties and no others than the given ones.
pub open spec fn object_of(properties: Entries, required: Seq<Seq<char>>) -> Json {
    Json::Record(
        seq![
            ("additionalProperties"@, Json::Bool(false)),
            ("properties"@, Json::Record(properties)),
            ("required"@, texts(required)),
            ("type"@, Json::Text("object"@)),
        ],
    )
}

pub fn typed_schema(name: &str) -> (res: JsonValue)
    ensures
        res@ == typed(name@),
{
    let mut entries: Vec<(String, JsonValue)> = Vec::new();
    assert(json::entries_model(entries@) =~= Seq::empty());
    push_entry(&mut entries, "type", text_value(name));
    assert(json::entries_model(entries@) =~= seq![("type"@, Json::Text(name@))]);
    object_value(entries)
}

pub fn list_schema(items: JsonValue) -> (res: JsonValue)
    ensures
        res@ == list_of(items@),
{
    let mut entries: Vec<(String, JsonValue)> = Vec::new();
    assert(json::entries_model(entries@) =~= Seq::empty());
    push_entry(&mut entries, "items", items);
    push_entry(&mut entries, "type", text_value("array"));
    assert(json::entries_model(entries@) =~= seq![
        ("items"@, items@),
        ("type"@, Json::Text("array"@)),
    ]);
    object_value(entries)
}

pub open spec fn names(list: Seq<&'static str>) -> Seq<Seq<char>> {
    list.map_values(|s: &'static str| s@)
}

fn text_list(list: &Vec<&'static str>) -> (res: JsonValue)
    ensures
        res@ == texts(names(list@)),
{
    let mut items: Vec<JsonValue> = Vec::new();
    let mut i: usize = 0;
    while i < list.len()
        invariant
            i <= list.len(),
            items@.len() == i,
            forall|j: int| 0 <= j < i ==> (#[trigger] items@[j])@ == Json::Text(list@[j]@),
        decreases list.len() - i,
    {
        items.push(text_value(list[i]));
        i += 1;
    }
    assert(json::items_model(items@) =~= names(list@).map_values(|s: Seq<char>| Json::Text(s)));
    list_value(items)
}

pub fn object_schema(
    properties: Vec<(String, JsonValue)>,
    required: &Vec<&'static str>,
) -> (res: JsonValue)
    ensures
        res@ == object_of(json::entries_model(properties@), names(required@)),
{
    let ghost listed = json::entries_model(properties@);
    let mut entries: Vec<(String, JsonValue)> = Vec::new();
    assert(json::entries_model(entries@) =~= Seq::empty());
    push_entry(&mut entries, "additionalProperties", JsonValue::Bool(false));
    push_entry(&mut entries, "properties", object_value(properties));
    push_entry(&mut entries, "required", text_list(required));
    push_entry(&mut entries, "type", text_value("object"));
    assert(json::entries_model(entries@) =~= seq![
        ("additionalProperties"@, Json::Bool(false)),
        ("properties"@, Json::Record(listed)),
        ("required"@, texts(names(required@))),
        ("type"@, Json::Text("object"@)),
    ]);
    object_value(entries)
}

// ---------------------------------------------------------------------------
// Laws
// ---------------------------------------------------------------------------
/// A value meets the schema of an object exactly where it is an object with all required
/// properties, with no others than the listed ones, and with values that meet their schemas.
pub proof fn lemma_object_of(value: Json, properties: Entries, required: Seq<Seq<char>>)
    ensures
        schema::meets(value, object_of(properties, required)) <==> {
            &&& value is Record
            &&& forall|property: Seq<char>|
                required.contains(property) ==> #[trigger] json::has_key(
                    value->Record_0,
                    property,
                )
            &&& forall|i: int|
                0 <= i < value->Record_0.len() ==> json::has_key(
                    properties,
                    (#[trigger] value->Record_0[i]).0,
                )
            &&& forall|i: int|
                0 <= i < properties.len() ==> (json::entry(
                    value->Record_0,
                    (#[trigger] properties[i]).0,
                ) matches Some(inner) ==> schema::meets(inner, properties[i].1))
        },
{
    let whole = object_of(properties, required);
    lemma_members(properties, required);
    let listed = texts(required)->List_0;
    assert forall|property: Seq<char>| #[trigger]
        listed.contains(Json::Text(property)) <==> required.contains(property) by {
        if listed.contains(Json::Text(property)) {
            let i = choose|i: int| 0 <= i < listed.len() && listed[i] == Json::Text(property);
            assert(required[i] == property);
        }
        if required.contains(property) {
            let i = choose|i: int| 0 <= i < required.len() && required[i] == property;
            assert(listed[i] == Json::Text(property));
        }
    }
    assert(schema::expects_type(whole, "object"@));
    assert(schema::items_under(whole, "required"@) == listed);
    assert(schema::entries_under(whole, "properties"@) == properties);
    assert(json::bool_of(json::member(whole, "additionalProperties"@)) == Some(false));
}

proof fn lemma_members(properties: Entries, required: Seq<Seq<char>>)
    ensures
        ({
            let whole = object_of(properties, required);
            &&& json::member(whole, "additionalProperties"@) == Some(Json::Bool(false))
            &&& json::member(whole, "properties"@) == Some(Json::Record(properties))
            &&& json::member(whole, "required"@) == Some(texts(required))
            &&& json::member(whole, "type"@) == Some(Json::Text("object"@))
        }),
{
    reveal_strlit("additionalProperties");
    reveal_strlit("properties");
    reveal_strlit("required");
    reveal_strlit("type");
    assert("additionalProperties"@.len() == 20);
    assert("properties"@.len() == 10);
    assert("required"@.len() == 8);
    assert("type"@.len() == 4);
    let entries = object_of(properties, required)->Record_0;
    json::lemma_key(entries, "additionalProperties"@);
    json::lemma_key(entries, "properties"@);
    json::lemma_key(entries, "required"@);
    json::lemma_key(entries, "type"@);
    lemma_index_of(entries, "additionalProperties"@, 0);
    lemma_index_of(entries, "properties"@, 1);
    lemma_index_of(entries, "required"@, 2);
    lemma_index_of(entries, "type"@, 3);
}

proof fn lemma_index_of(entries: Entries, key: Seq<char>, i: int)
    requires
        0 <= i < entries.len(),
        entries[i].0 == key,
        forall|j: int| 0 <= j < i ==> (#[trigger] entries[j]).0 != key,
    ensures
        json::key_index(entries, key) == i,
{
    json::lemma_key(entries, key);
    let k = json::key_index(entries, key);
    if k < i {
        assert(entries[k].0 == key);
    }
    if i < k {
        assert(entries[i].0 != key);
    }
}

/// A value meets the schema of a list exactly where it is a list and each of its items meets the
/// schema of items.
pub proof fn lemma_list_of(value: Json, items: Json)
    ensures
        schema::meets(value, list_of(items)) <==> {
            &&& value is List
            &&& forall|i: int|
                0 <= i < value->List_0.len() ==> schema::meets(#[trigger] value->List_0[i], items)
        },
{
    reveal_strlit("items");
    reveal_strlit("type");
    reveal_strlit("maxItems");
    reveal_strlit("minItems");
    reveal_strlit("array");
    reveal_strlit("object");
    assert("items"@.len() == 5 && "type"@.len() == 4 && "maxItems"@.len() == 8);
    assert("minItems"@.len() == 8);
    assert("array"@.len() == 5 && "object"@.len() == 6);
    let whole = list_of(items);
    let entries = whole->Record_0;
    lemma_index_of(entries, "items"@, 0);
    lemma_index_of(entries, "type"@, 1);
    json::lemma_key(entries, "maxItems"@);
    json::lemma_key(entries, "minItems"@);
    assert(entries[0].0 != "maxItems"@ && entries[1].0 != "maxItems"@);
    assert(entries[0].0 != "minItems"@ && entries[1].0 != "minItems"@);
    assert(json::member(whole, "maxItems"@) is None);
    assert(json::member(whole, "minItems"@) is None);
    assert(json::member(whole, "items"@) == Some(items));
    assert(!schema::expects_type(whole, "object"@));
    assert(schema::expects_type(whole, "array"@));
}

/// An object that meets its schema has each required property, with a value that meets the schema
/// that is listed for it.
pub proof fn lemma_property(
    value: Json,
    properties: Entries,
    required: Seq<Seq<char>>,
    i: int,
)
    requires
        schema::meets(value, object_of(properties, required)),
        0 <= i < properties.len(),
        required.contains(properties[i].0),
    ensures
        value is Record,
        json::entry(value->Record_0, properties[i].0) is Some,
        schema::meets(json::entry(value->Record_0, properties[i].0)->0, properties[i].1),
{
    lemma_object_of(value, properties, required);
    assert(json::has_key(value->Record_0, properties[i].0));
    json::lemma_key(value->Record_0, properties[i].0);
}

} // verus!
