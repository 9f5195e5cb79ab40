//! The arguments of a tool call and the JSON schema that they have to meet.
use crate::compose;
use crate::compose::decimal_text;
use crate::config::literals;
use crate::config::literals::sanitize_invalid_json_literals;
use crate::failure;
use crate::failure::Failure;
use crate::json;
use crate::json::{find_entry, get_entry, parse_json, Entries, Json, JsonValue};
use crate::text::same;
use vstd::prelude::*;

verus! {

// ---------------------------------------------------------------------------
// Reading arguments
// ---------------------------------------------------------------------------
/// What the raw arguments of a call hold, or why they hold no JSON.
pub open spec fn parsed_arguments(raw: Seq<char>, tool_name: Seq<char>) -> Result<
    Json,
    Seq<Seq<char>>,
> {
    match json::parsed_json(literals::sanitized(raw)) {
        Ok(value) => Ok(value),
        Err(error) => Err(
            failure::in_context(
                "tool call `"@ + tool_name + "` did not contain valid JSON arguments"@,
                failure::plain(error),
            ),
        ),
    }
}

/// Reads JSON arguments; a literal that JSON does not have counts as `null`.
pub fn parse_json_arguments(raw_json: &str, tool_name: &str) -> (res: Result<JsonValue, Failure>)
    ensures
        parsed_arguments(raw_json@, tool_name@) == match res {
            Ok(value) => Ok::<Json, Seq<Seq<char>>>(value@),
            Err(error) => Err::<Json, Seq<Seq<char>>>(error@),
        },
{
    let (text, _) = sanitize_invalid_json_literals(raw_json);
    match parse_json(text.as_str()) {
        Ok(value) => Ok(value),
        Err(error) => {
            let mut message = "tool call `".to_owned();
            message.append(tool_name);
            message.append("` did not contain valid JSON arguments");
            Err(Failure::new(error).context(message))
        },
    }
}

// ---------------------------------------------------------------------------
// Types
// ---------------------------------------------------------------------------
/// The schema asks for a value of the type, alone or among others.
pub open spec fn expects_type(schema: Json, expected: Seq<char>) -> bool {
    match json::member(schema, "type"@) {
        Some(Json::Text(kind)) => kind == expected,
        Some(Json::List(kinds)) => kinds.contains(Json::Text(expected)),
        _ => false,
    }
}

pub fn schema_expects_type(schema: &JsonValue, expected: &str) -> (res: bool)
    ensures
        res == expects_type(schema@, expected@),
{
    match schema.get("type") {
        Some(JsonValue::Text(kind)) => same(kind.as_str(), expected),
        Some(JsonValue::Array(kinds)) => {
            proof {
                json::lemma_items(*kinds);
            }
            let ghost all = json::items_model(kinds@);
            let mut i: usize = 0;
            while i < kinds.len()
                invariant
                    i <= kinds.len(),
                    all == json::items_model(kinds@),
                    json::member(schema@, "type"@) == Some(Json::List(all)),
                    forall|j: int| 0 <= j < i ==> #[trigger] all[j] != Json::Text(expected@),
                decreases kinds.len() - i,
            {
                assert(all[i as int] == kinds@[i as int]@);
                if let JsonValue::Text(kind) = &kinds[i] {
                    if same(kind.as_str(), expected) {
                        assert(all[i as int] == Json::Text(expected@));
                        return true;
                    }
                }
                i += 1;
            }
            false
        },
        _ => false,
    }
}

/// The schema names properties that must be there.
pub open spec fn requires_properties(schema: Json) -> bool {
    match json::items_of(json::member(schema, "required"@)) {
        Some(required) => required.len() > 0,
        None => false,
    }
}

pub fn tool_requires_properties(schema: &JsonValue) -> (res: bool)
    ensures
        res == requires_properties(schema@),
{
    match schema.get("required") {
        Some(JsonValue::Array(required)) => {
            proof {
                json::lemma_items(*required);
            }
            required.len() > 0
        },
        _ => false,
    }
}

// ---------------------------------------------------------------------------
// Coercion
// ---------------------------------------------------------------------------
pub open spec fn property_schema(schema: Json, key: Seq<char>) -> Option<Json> {
    match json::entries_of(json::member(schema, "properties"@)) {
        Some(properties) => json::entry(properties, key),
        None => None,
    }
}

/// The schema of a property is a smaller value.
pub proof fn lemma_property_smaller(schema: Json, key: Seq<char>)
    ensures
        property_schema(schema, key) matches Some(v) ==> decreases_to!(schema => v),
{
    json::lemma_member_smaller(schema, "properties"@);
    if let Some(properties) = json::member(schema, "properties"@) {
        json::lemma_member_smaller(properties, key);
    }
}

/// Text in the place of an object or an array is read as the JSON text of one.
pub open spec fn unquoted(value: Json, schema: Json, tool_name: Seq<char>) -> Result<
    Json,
    Seq<Seq<char>>,
> {
    match value {
        Json::Text(raw) => if expects_type(schema, "object"@) || expects_type(schema, "array"@) {
            parsed_arguments(raw, tool_name)
        } else {
            Ok(value)
        },
        _ => Ok(value),
    }
}

/// The value with the text inside it that the schema wants as an object or an array read as
/// one, or why the first such text could not be read.
pub open spec fn coerced(value: Json, schema: Json, tool_name: Seq<char>) -> Result<
    Json,
    Seq<Seq<char>>,
>
    decreases schema, 1nat, 0nat,
{
    match unquoted(value, schema, tool_name) {
        Err(error) => Err(error),
        Ok(Json::Record(entries)) => match coerced_entries(entries, schema, tool_name) {
            Ok(done) => Ok(Json::Record(done)),
            Err(error) => Err(error),
        },
        Ok(Json::List(items)) => match coerced_items(items, schema, tool_name) {
            Ok(done) => Ok(Json::List(done)),
            Err(error) => Err(error),
        },
        Ok(other) => Ok(other),
    }
}

pub open spec fn coerced_entries(entries: Entries, schema: Json, tool_name: Seq<char>) -> Result<
    Entries,
    Seq<Seq<char>>,
>
    decreases schema, 0nat, entries.len(),
{
    if entries.len() == 0 {
        Ok(Seq::empty())
    } else {
        match coerced_entries(entries.drop_last(), schema, tool_name) {
            Err(error) => Err(error),
            Ok(done) => {
                proof {
                    lemma_property_smaller(schema, entries.last().0);
                }
                match property_schema(schema, entries.last().0) {
                    None => Ok(done.push(entries.last())),
                    Some(inner) => match coerced(entries.last().1, inner, tool_name) {
                        Ok(value) => Ok(done.push((entries.last().0, value))),
                        Err(error) => Err(error),
                    },
                }
            },
        }
    }
}

pub open spec fn coerced_items(items: Seq<Json>, schema: Json, tool_name: Seq<char>) -> Result<
    Seq<Json>,
    Seq<Seq<char>>,
>
    decreases schema, 0nat, items.len(),
{
    if items.len() == 0 {
        Ok(Seq::empty())
    } else {
        match coerced_items(items.drop_last(), schema, tool_name) {
            Err(error) => Err(error),
            Ok(done) => {
                proof {
                    json::lemma_member_smaller(schema, "items"@);
                }
                match json::member(schema, "items"@) {
                    None => Ok(done.push(items.last())),
                    Some(inner) => match coerced(items.last(), inner, tool_name) {
                        Ok(value) => Ok(done.push(value)),
                        Err(error) => Err(error),
                    },
                }
            },
        }
    }
}

proof fn lemma_entries_error(entries: Entries, schema: Json, tool_name: Seq<char>, i: int)
    requires
        0 <= i <= entries.len(),
        coerced_entries(entries.take(i), schema, tool_name) is Err,
    ensures
        coerced_entries(entries, schema, tool_name) == coerced_entries(
            entries.take(i),
            schema,
            tool_name,
        ),
    decreases entries.len() - i,
{
    if i < entries.len() {
        assert(entries.take(i + 1).drop_last() == entries.take(i));
        lemma_entries_error(entries, schema, tool_name, i + 1);
    } else {
        assert(entries.take(i) == entries);
    }
}

proof fn lemma_items_error(items: Seq<Json>, schema: Json, tool_name: Seq<char>, i: int)
    requires
        0 <= i <= items.len(),
        coerced_items(items.take(i), schema, tool_name) is Err,
    ensures
        coerced_items(items, schema, tool_name) == coerced_items(
            items.take(i),
            schema,
            tool_name,
        ),
    decreases items.len() - i,
{
    if i < items.len() {
        assert(items.take(i + 1).drop_last() == items.take(i));
        lemma_items_error(items, schema, tool_name, i + 1);
    } else {
        assert(items.take(i) == items);
    }
}

/// Reads the text that stands where the schema wants an object or an array.
pub fn coerce_arguments_to_schema(value: &JsonValue, schema: &JsonValue, tool_name: &str) -> (res:
    Result<JsonValue, Failure>)
    ensures
        coerced(value@, schema@, tool_name@) == match res {
            Ok(done) => Ok::<Json, Seq<Seq<char>>>(done@),
            Err(error) => Err::<Json, Seq<Seq<char>>>(error@),
        },
    decreases schema, 1nat,
{
    if let JsonValue::Text(raw_json) = value {
        if schema_expects_type(schema, "object") || schema_expects_type(schema, "array") {
            return match parse_json_arguments(raw_json.as_str(), tool_name) {
                Err(error) => Err(error),
                Ok(parsed) => coerce_contents(&parsed, schema, tool_name),
            };
        }
    }
    coerce_contents(value, schema, tool_name)
}

fn coerce_contents(value: &JsonValue, schema: &JsonValue, tool_name: &str) -> (res: Result<
    JsonValue,
    Failure,
>)
    ensures
        value@ matches Json::Record(entries) ==> coerced_entries(entries, schema@, tool_name@)
            == match res {
            Ok(done) => Ok::<Entries, Seq<Seq<char>>>(done@->Record_0),
            Err(error) => Err::<Entries, Seq<Seq<char>>>(error@),
        } && (res matches Ok(done) ==> done@ is Record),
        value@ matches Json::List(items) ==> coerced_items(items, schema@, tool_name@)
            == match res {
            Ok(done) => Ok::<Seq<Json>, Seq<Seq<char>>>(done@->List_0),
            Err(error) => Err::<Seq<Json>, Seq<Seq<char>>>(error@),
        } && (res matches Ok(done) ==> done@ is List),
        !(value@ is Record) && !(value@ is List) ==> (res matches Ok(done) && done@ == value@),
    decreases schema, 0nat,
{
    match value {
        JsonValue::Object(entries) => {
            proof {
                json::lemma_entries(*entries);
            }
            let ghost all = json::entries_model(entries@);
            let properties: Option<&JsonValue> = schema.get("properties");
            let mut done: Vec<(String, JsonValue)> = Vec::new();
            let mut i: usize = 0;
            assert(all.take(0) =~= Seq::empty());
            assert(json::entries_model(done@) =~= Seq::empty());
            while i < entries.len()
                invariant
                    i <= entries.len(),
                    all == json::entries_model(entries@),
                    value@ == Json::Record(all),
                    json::member(schema@, "properties"@) == match properties {
                        Some(v) => Some(v@),
                        None => None,
                    },
                    properties matches Some(v) ==> decreases_to!(*schema => *v),
                    coerced_entries(all.take(i as int), schema@, tool_name@) == Ok::<
                        Entries,
                        Seq<Seq<char>>,
                    >(json::entries_model(done@)),
                decreases entries.len() - i,
            {
                proof {
                    assert(all.take(i as int + 1).drop_last() == all.take(i as int));
                    assert(all.take(i as int + 1).last() == all[i as int]);
                    assert(all[i as int] == (entries@[i as int].0@, entries@[i as int].1@));
                }
                let ghost before = json::entries_model(done@);
                let key = entries[i].0.clone();
                let inner: Option<&JsonValue> = match properties {
                    Some(object) => object.get(key.as_str()),
                    None => None,
                };
                assert(property_schema(schema@, key@) == match inner {
                    Some(v) => Some(v@),
                    None => None,
                });
                let item: JsonValue = match inner {
                    Some(property) => match coerce_arguments_to_schema(
                        &entries[i].1,
                        property,
                        tool_name,
                    ) {
                        Ok(coerced_value) => coerced_value,
                        Err(error) => {
                            proof {
                                lemma_entries_error(all, schema@, tool_name@, i as int + 1);
                            }
                            return Err(error);
                        },
                    },
                    None => entries[i].1.copied(),
                };
                done.push((key, item));
                assert(json::entries_model(done@) =~= before.push((key@, item@)));
                i += 1;
            }
            assert(all.take(all.len() as int) == all);
            proof {
                json::lemma_entries(done);
            }
            Ok(JsonValue::Object(done))
        },
        JsonValue::Array(items) => {
            proof {
                json::lemma_items(*items);
            }
            let ghost all = json::items_model(items@);
            let inner: Option<&JsonValue> = schema.get("items");
            let mut done: Vec<JsonValue> = Vec::new();
            let mut i: usize = 0;
            assert(all.take(0) =~= Seq::empty());
            assert(json::items_model(done@) =~= Seq::empty());
            while i < items.len()
                invariant
                    i <= items.len(),
                    all == json::items_model(items@),
                    value@ == Json::List(all),
                    json::member(schema@, "items"@) == match inner {
                        Some(v) => Some(v@),
                        None => None,
                    },
                    inner matches Some(v) ==> decreases_to!(*schema => *v),
                    coerced_items(all.take(i as int), schema@, tool_name@) == Ok::<
                        Seq<Json>,
                        Seq<Seq<char>>,
                    >(json::items_model(done@)),
                decreases items.len() - i,
            {
                proof {
                    assert(all.take(i as int + 1).drop_last() == all.take(i as int));
                    assert(all.take(i as int + 1).last() == all[i as int]);
                    assert(all[i as int] == items@[i as int]@);
                }
                let ghost before = json::items_model(done@);
                let item: JsonValue = match inner {
                    Some(item_schema) => match coerce_arguments_to_schema(
                        &items[i],
                        item_schema,
                        tool_name,
                    ) {
                        Ok(coerced_value) => coerced_value,
                        Err(error) => {
                            proof {
                                lemma_items_error(all, schema@, tool_name@, i as int + 1);
                            }
                            return Err(error);
                        },
                    },
                    None => items[i].copied(),
                };
                done.push(item);
                assert(json::items_model(done@) =~= before.push(item@));
                i += 1;
            }
            assert(all.take(all.len() as int) == all);
            proof {
                json::lemma_items(done);
            }
            Ok(JsonValue::Array(done))
        },
        _ => Ok(value.copied()),
    }
}

// ---------------------------------------------------------------------------
// Validation
// ---------------------------------------------------------------------------
/// The first property that must be there and is not.
pub open spec fn missing_property(required: Seq<Json>, object: Entries) -> Option<Seq<char>>
    decreases required.len(),
{
    if required.len() == 0 {
        None
    } else {
        match required[0] {
            Json::Text(property) => if json::has_key(object, property) {
                missing_property(required.drop_first(), object)
            } else {
                Some(property)
            },
            _ => missing_property(required.drop_first(), object),
        }
    }
}

/// The first key of the object that is none of the allowed ones.
pub open spec fn unexpected_property(object: Entries, allowed: Entries) -> Option<Seq<char>>
    decreases object.len(),
{
    if object.len() == 0 {
        None
    } else if json::has_key(allowed, object[0].0) {
        unexpected_property(object.drop_first(), allowed)
    } else {
        Some(object[0].0)
    }
}

/// The entries that the schema has under the key, or none.
pub open spec fn entries_under(schema: Json, key: Seq<char>) -> Entries {
    match json::entries_of(json::member(schema, key)) {
        Some(entries) => entries,
        None => Seq::empty(),
    }
}

pub open spec fn items_under(schema: Json, key: Seq<char>) -> Seq<Json> {
    match json::items_of(json::member(schema, key)) {
        Some(items) => items,
        None => Seq::empty(),
    }
}

/// What is wrong with the keys of an object.
pub open spec fn key_violation(object: Entries, schema: Json, path: Seq<char>) -> Option<
    Seq<char>,
> {
    match missing_property(items_under(schema, "required"@), object) {
        Some(property) => Some(
            "structured arguments missing required property `"@ + path + "."@ + property + "`"@,
        ),
        None => if json::bool_of(json::member(schema, "additionalProperties"@)) == Some(false) {
            match unexpected_property(object, entries_under(schema, "properties"@)) {
                Some(key) => Some(
                    "structured arguments contained unexpected property `"@ + path + "."@ + key
                        + "`"@,
                ),
                None => None,
            }
        } else {
            None
        },
    }
}

/// What is wrong with the number of items of an array.
pub open spec fn count_violation(count: nat, schema: Json, path: Seq<char>) -> Option<Seq<char>> {
    let most = json::natural_of(json::member(schema, "maxItems"@));
    let least = json::natural_of(json::member(schema, "minItems"@));
    if most matches Some(max) && count > max {
        Some(
            "structured arguments at `"@ + path + "` exceeded the maximum item count of "@
                + compose::decimal(most->0 as nat),
        )
    } else if least matches Some(min) && count < min {
        Some(
            "structured arguments at `"@ + path
                + "` did not satisfy the minimum item count of "@ + compose::decimal(
                least->0 as nat,
            ),
        )
    } else {
        None
    }
}

pub open spec fn property_path(path: Seq<char>, property: Seq<char>) -> Seq<char> {
    path + "."@ + property
}

pub open spec fn item_path(path: Seq<char>, index: nat) -> Seq<char> {
    path + "["@ + compose::decimal(index) + "]"@
}

/// The first thing about the value that breaks the schema. The path says where the value stands.
pub open spec fn violation(value: Json, schema: Json, path: Seq<char>) -> Option<Seq<char>>
    decreases schema, 0nat,
{
    if expects_type(schema, "object"@) {
        match value {
            Json::Record(object) => match key_violation(object, schema, path) {
                Some(message) => Some(message),
                None => {
                    proof {
                        json::lemma_member_smaller(schema, "properties"@);
                    }
                    match json::entries_of(json::member(schema, "properties"@)) {
                        Some(properties) => property_violation(object, properties, path),
                        None => None,
                    }
                },
            },
            _ => Some("structured arguments at `"@ + path + "` must be a JSON object"@),
        }
    } else if expects_type(schema, "array"@) {
        match value {
            Json::List(items) => match count_violation(items.len(), schema, path) {
                Some(message) => Some(message),
                None => {
                    proof {
                        json::lemma_member_smaller(schema, "items"@);
                    }
                    match json::member(schema, "items"@) {
                        Some(item_schema) => item_violation(items, item_schema, path),
                        None => None,
                    }
                },
            },
            _ => Some("structured arguments at `"@ + path + "` must be a JSON array"@),
        }
    } else {
        None
    }
}

/// The first thing about the properties of the object that breaks their schemas.
pub open spec fn property_violation(object: Entries, properties: Entries, path: Seq<char>) -> Option<
    Seq<char>,
>
    decreases properties, 0nat,
{
    if properties.len() == 0 {
        None
    } else {
        match property_violation(object, properties.drop_last(), path) {
            Some(message) => Some(message),
            None => match json::entry(object, properties.last().0) {
                Some(value) => violation(
                    value,
                    properties.last().1,
                    property_path(path, properties.last().0),
                ),
                None => None,
            },
        }
    }
}

/// The first thing about the items that breaks their schema.
pub open spec fn item_violation(items: Seq<Json>, item_schema: Json, path: Seq<char>) -> Option<
    Seq<char>,
>
    decreases item_schema, items.len() + 1,
{
    if items.len() == 0 {
        None
    } else {
        match item_violation(items.drop_last(), item_schema, path) {
            Some(message) => Some(message),
            None => violation(
                items.last(),
                item_schema,
                item_path(path, (items.len() - 1) as nat),
            ),
        }
    }
}

proof fn lemma_property_violation(object: Entries, properties: Entries, path: Seq<char>, i: int)
    requires
        0 <= i <= properties.len(),
        property_violation(object, properties.take(i), path) is Some,
    ensures
        property_violation(object, properties, path) == property_violation(
            object,
            properties.take(i),
            path,
        ),
    decreases properties.len() - i,
{
    if i < properties.len() {
        assert(properties.take(i + 1).drop_last() == properties.take(i));
        lemma_property_violation(object, properties, path, i + 1);
    } else {
        assert(properties.take(i) == properties);
    }
}

proof fn lemma_item_violation(items: Seq<Json>, item_schema: Json, path: Seq<char>, i: int)
    requires
        0 <= i <= items.len(),
        item_violation(items.take(i), item_schema, path) is Some,
    ensures
        item_violation(items, item_schema, path) == item_violation(
            items.take(i),
            item_schema,
            path,
        ),
    decreases items.len() - i,
{
    if i < items.len() {
        assert(items.take(i + 1).drop_last() == items.take(i));
        lemma_item_violation(items, item_schema, path, i + 1);
    } else {
        assert(items.take(i) == items);
    }
}

/// An error with the message, where the condition does not hold.
pub fn ensure_schema(condition: bool, message: String) -> (res: Result<(), Failure>)
    ensures
        res is Ok <==> condition,
        res matches Err(error) ==> error@ == failure::plain(message@),
{
    if condition {
        Ok(())
    } else {
        Err(Failure::new(message))
    }
}

fn find_missing_property<'a>(
    required: &'a [JsonValue],
    object: &[(String, JsonValue)],
) -> (res: Option<&'a String>)
    ensures
        missing_property(json::items_model(required@), json::entries_model(object@)) == match res {
            Some(property) => Some(property@),
            None => None,
        },
{
    let ghost names = json::items_model(required@);
    let ghost held = json::entries_model(object@);
    let mut i: usize = 0;
    assert(names.skip(0) == names);
    while i < required.len()
        invariant
            i <= required.len(),
            names == json::items_model(required@),
            held == json::entries_model(object@),
            missing_property(names, held) == missing_property(names.skip(i as int), held),
        decreases required.len() - i,
    {
        proof {
            assert(names.skip(i as int)[0] == required@[i as int]@);
            assert(names.skip(i as int).drop_first() == names.skip(i as int + 1));
        }
        if let JsonValue::Text(property) = &required[i] {
            if find_entry(object, property.as_str()) == object.len() {
                return Some(property);
            }
        }
        i += 1;
    }
    None
}

fn find_unexpected_property<'a>(
    object: &'a [(String, JsonValue)],
    allowed: &[(String, JsonValue)],
) -> (res: Option<&'a String>)
    ensures
        unexpected_property(json::entries_model(object@), json::entries_model(allowed@))
            == match res {
            Some(key) => Some(key@),
            None => None,
        },
{
    let ghost held = json::entries_model(object@);
    let ghost known = json::entries_model(allowed@);
    let mut i: usize = 0;
    assert(held.skip(0) == held);
    while i < object.len()
        invariant
            i <= object.len(),
            held == json::entries_model(object@),
            known == json::entries_model(allowed@),
            unexpected_property(held, known) == unexpected_property(held.skip(i as int), known),
        decreases object.len() - i,
    {
        proof {
            assert(held.skip(i as int)[0] == held[i as int]);
            assert(held[i as int].0 == object@[i as int].0@);
            assert(held.skip(i as int).drop_first() == held.skip(i as int + 1));
        }
        if find_entry(allowed, object[i].0.as_str()) == allowed.len() {
            return Some(&object[i].0);
        }
        i += 1;
    }
    None
}

fn check_keys(object: &Vec<(String, JsonValue)>, schema: &JsonValue, path: &str) -> (res: Result<
    (),
    Failure,
>)
    ensures
        match res {
            Ok(_) => key_violation(json::entries_model(object@), schema@, path@) is None,
            Err(error) => key_violation(json::entries_model(object@), schema@, path@) matches Some(
                message,
            ) && error@ == failure::plain(message),
        },
{
    let empty_items: Vec<JsonValue> = Vec::new();
    let empty_entries: Vec<(String, JsonValue)> = Vec::new();
    assert(json::items_model(empty_items@) =~= Seq::empty());
    assert(json::entries_model(empty_entries@) =~= Seq::empty());
    let required: &Vec<JsonValue> = match schema.get("required") {
        Some(JsonValue::Array(items)) => {
            proof {
                json::lemma_items(*items);
            }
            items
        },
        _ => &empty_items,
    };
    assert(json::items_model(required@) == items_under(schema@, "required"@));
    if let Some(property) = find_missing_property(required.as_slice(), object.as_slice()) {
        let mut message = "structured arguments missing required property `".to_owned();
        message.append(path);
        message.append(".");
        message.append(property.as_str());
        message.append("`");
        return ensure_schema(false, message);
    }
    if let Some(JsonValue::Bool(false)) = schema.get("additionalProperties") {
        let allowed: &Vec<(String, JsonValue)> = match schema.get("properties") {
            Some(JsonValue::Object(entries)) => {
                proof {
                    json::lemma_entries(*entries);
                }
                entries
            },
            _ => &empty_entries,
        };
        assert(json::entries_model(allowed@) == entries_under(schema@, "properties"@));
        if let Some(unexpected) = find_unexpected_property(object.as_slice(), allowed.as_slice()) {
            let mut message = "structured arguments contained unexpected property `".to_owned();
            message.append(path);
            message.append(".");
            message.append(unexpected.as_str());
            message.append("`");
            return Err(Failure::new(message));
        }
    }
    Ok(())
}

fn check_count(count: usize, schema: &JsonValue, path: &str) -> (res: Result<(), Failure>)
    ensures
        match res {
            Ok(_) => count_violation(count as nat, schema@, path@) is None,
            Err(error) => count_violation(count as nat, schema@, path@) matches Some(message)
                && error@ == failure::plain(message),
        },
{
    if let Some(JsonValue::Number(json::JsonNumber::Unsigned(max_items))) = schema.get(
        "maxItems",
    ) {
        if count as u64 > *max_items {
            let mut message = "structured arguments at `".to_owned();
            message.append(path);
            message.append("` exceeded the maximum item count of ");
            message.append(decimal_text(*max_items).as_str());
            return ensure_schema(false, message);
        }
    }
    if let Some(JsonValue::Number(json::JsonNumber::Unsigned(min_items))) = schema.get(
        "minItems",
    ) {
        if (count as u64) < *min_items {
            let mut message = "structured arguments at `".to_owned();
            message.append(path);
            message.append("` did not satisfy the minimum item count of ");
            message.append(decimal_text(*min_items).as_str());
            return ensure_schema(false, message);
        }
    }
    Ok(())
}

/// Holds the value against the schema. The error names the place of the first violation.
pub fn validate_arguments_against_schema(value: &JsonValue, schema: &JsonValue, path: &str) -> (res:
    Result<(), Failure>)
    ensures
        match res {
            Ok(_) => violation(value@, schema@, path@) is None,
            Err(error) => violation(value@, schema@, path@) matches Some(message) && error@
                == failure::plain(message),
        },
    decreases schema,
{
    if schema_expects_type(schema, "object") {
        let object: &Vec<(String, JsonValue)> = match value {
            JsonValue::Object(entries) => entries,
            _ => {
                let mut message = "structured arguments at `".to_owned();
                message.append(path);
                message.append("` must be a JSON object");
                return Err(Failure::new(message));
            },
        };
        proof {
            json::lemma_entries(*object);
        }
        match check_keys(object, schema, path) {
            Ok(_) => {},
            Err(error) => {
                return Err(error);
            },
        }
        let found: Option<&JsonValue> = schema.get("properties");
        if let Some(JsonValue::Object(properties)) = found {
            proof {
                json::lemma_entries(*properties);
                let inner = *found->0;
                assert(decreases_to!(inner => inner->Object_0));
            }
            let ghost held = json::entries_model(object@);
            let ghost all = json::entries_model(properties@);
            let mut i: usize = 0;
            assert(all.take(0) =~= Seq::empty());
            while i < properties.len()
                invariant
                    i <= properties.len(),
                    held == json::entries_model(object@),
                    all == json::entries_model(properties@),
                    value@ == Json::Record(held),
                    expects_type(schema@, "object"@),
                    key_violation(held, schema@, path@) is None,
                    json::member(schema@, "properties"@) == Some(Json::Record(all)),
                    decreases_to!(*schema => *properties),
                    property_violation(held, all.take(i as int), path@) is None,
                decreases properties.len() - i,
            {
                proof {
                    assert(all.take(i as int + 1).drop_last() == all.take(i as int));
                    assert(all.take(i as int + 1).last() == all[i as int]);
                    assert(all[i as int] == (properties@[i as int].0@, properties@[i as int].1@));
                    assert(decreases_to!(*properties => properties@));
                    assert(decreases_to!(properties@ => properties@[i as int]));
                    assert(decreases_to!(properties@[i as int] => properties@[i as int].1));
                }
                let property = properties[i].0.as_str();
                if let Some(property_value) = get_entry(object.as_slice(), property) {
                    let mut inner_path = path.to_owned();
                    inner_path.append(".");
                    inner_path.append(property);
                    match validate_arguments_against_schema(
                        property_value,
                        &properties[i].1,
                        inner_path.as_str(),
                    ) {
                        Ok(_) => {},
                        Err(error) => {
                            proof {
                                lemma_property_violation(held, all, path@, i as int + 1);
                            }
                            return Err(error);
                        },
                    }
                }
                i += 1;
            }
            assert(all.take(all.len() as int) == all);
        }
        return Ok(());
    }
    if schema_expects_type(schema, "array") {
        let items: &Vec<JsonValue> = match value {
            JsonValue::Array(items) => items,
            _ => {
                let mut message = "structured arguments at `".to_owned();
                message.append(path);
                message.append("` must be a JSON array");
                return Err(Failure::new(message));
            },
        };
        proof {
            json::lemma_items(*items);
        }
        match check_count(items.len(), schema, path) {
            Ok(_) => {},
            Err(error) => {
                return Err(error);
            },
        }
        if let Some(item_schema) = schema.get("items") {
            let ghost all = json::items_model(items@);
            let mut i: usize = 0;
            assert(all.take(0) =~= Seq::empty());
            while i < items.len()
                invariant
                    i <= items.len(),
                    all == json::items_model(items@),
                    value@ == Json::List(all),
                    !expects_type(schema@, "object"@),
                    expects_type(schema@, "array"@),
                    count_violation(all.len(), schema@, path@) is None,
                    json::member(schema@, "items"@) == Some(item_schema@),
                    decreases_to!(*schema => *item_schema),
                    item_violation(all.take(i as int), item_schema@, path@) is None,
                decreases items.len() - i,
            {
                proof {
                    assert(all.take(i as int + 1).drop_last() == all.take(i as int));
                    assert(all.take(i as int + 1).last() == all[i as int]);
                    assert(all[i as int] == items@[i as int]@);
                }
                let mut inner_path = path.to_owned();
                inner_path.append("[");
                inner_path.append(decimal_text(i as u64).as_str());
                inner_path.append("]");
                match validate_arguments_against_schema(
                    &items[i],
                    item_schema,
                    inner_path.as_str(),
                ) {
                    Ok(_) => {},
                    Err(error) => {
                        proof {
                            lemma_item_violation(all, item_schema@, path@, i as int + 1);
                        }
                        return Err(error);
                    },
                }
                i += 1;
            }
            assert(all.take(all.len() as int) == all);
        }
        return Ok(());
    }
    Ok(())
}

/// The message for arguments that came out empty although the schema asks for properties.
pub const FLATTENED_ARGUMENTS: &'static str =
    "LLM provider silently flattened the arguments into an empty object due to invalid JSON generation. You must explicitly provide the required fields.";

/// The arguments in the form that the schema asks for, or why they cannot be accepted.
pub open spec fn accepted(arguments: Json, schema: Json, tool_name: Seq<char>) -> Result<
    Json,
    Seq<Seq<char>>,
> {
    match coerced(arguments, schema, tool_name) {
        Err(error) => Err(error),
        Ok(value) => match violation(value, schema, "$"@) {
            Some(message) => Err(failure::plain(message)),
            None => if value == Json::Record(Seq::empty()) && requires_properties(schema) {
                Err(failure::plain(FLATTENED_ARGUMENTS@))
            } else {
                Ok(value)
            },
        },
    }
}

pub fn validate_structured_arguments(
    arguments: &JsonValue,
    schema: &JsonValue,
    tool_name: &str,
) -> (res: Result<JsonValue, Failure>)
    ensures
        accepted(arguments@, schema@, tool_name@) == match res {
            Ok(done) => Ok::<Json, Seq<Seq<char>>>(done@),
            Err(error) => Err::<Json, Seq<Seq<char>>>(error@),
        },
{
    let coerced_arguments: JsonValue = match coerce_arguments_to_schema(
        arguments,
        schema,
        tool_name,
    ) {
        Ok(value) => value,
        Err(error) => {
            return Err(error);
        },
    };
    match validate_arguments_against_schema(&coerced_arguments, schema, "$") {
        Ok(_) => {},
        Err(error) => {
            return Err(error);
        },
    }
    let is_empty_object: bool = match &coerced_arguments {
        JsonValue::Object(entries) => {
            proof {
                json::lemma_entries(*entries);
                if entries@.len() == 0 {
                    assert(json::entries_model(entries@) =~= Seq::empty());
                }
            }
            entries.len() == 0
        },
        _ => false,
    };
    if is_empty_object && tool_requires_properties(schema) {
        return Err(Failure::new(FLATTENED_ARGUMENTS.to_owned()));
    }
    Ok(coerced_arguments)
}

// ---------------------------------------------------------------------------
// Laws
// ---------------------------------------------------------------------------
/// The value meets the schema: an object has all required properties, no others than the
/// schema allows, and values that meet their own schemas; a list has an allowed number of items,
/// and each of them meets the schema of items. Anything meets a schema that asks for neither.
pub open spec fn meets(value: Json, schema: Json) -> bool
    decreases schema,
{
    if expects_type(schema, "object"@) {
        match value {
            Json::Record(object) => {
                proof {
                    json::lemma_member_smaller(schema, "properties"@);
                }
                &&& forall|property: Seq<char>|
                    items_under(schema, "required"@).contains(Json::Text(property))
                        ==> #[trigger] json::has_key(object, property)
                &&& json::bool_of(json::member(schema, "additionalProperties"@)) == Some(false)
                    ==> forall|i: int|
                    0 <= i < object.len() ==> json::has_key(
                        entries_under(schema, "properties"@),
                        (#[trigger] object[i]).0,
                    )
                &&& match json::entries_of(json::member(schema, "properties"@)) {
                    Some(properties) => forall|i: int|
                        0 <= i < properties.len() ==> match json::entry(
                            object,
                            (#[trigger] properties[i]).0,
                        ) {
                            Some(inner) => meets(inner, properties[i].1),
                            None => true,
                        },
                    None => true,
                }
            },
            _ => false,
        }
    } else if expects_type(schema, "array"@) {
        match value {
            Json::List(items) => {
                proof {
                    json::lemma_member_smaller(schema, "items"@);
                }
                &&& json::natural_of(json::member(schema, "maxItems"@)) matches Some(most)
                    ==> items.len() <= most
                &&& json::natural_of(json::member(schema, "minItems"@)) matches Some(least)
                    ==> items.len() >= least
                &&& match json::member(schema, "items"@) {
                    Some(item_schema) => forall|i: int|
                        0 <= i < items.len() ==> meets(#[trigger] items[i], item_schema),
                    None => true,
                }
            },
            _ => false,
        }
    } else {
        true
    }
}

proof fn lemma_missing_property(required: Seq<Json>, object: Entries)
    ensures
        missing_property(required, object) is None <==> forall|property: Seq<char>|
            required.contains(Json::Text(property)) ==> #[trigger] json::has_key(object, property),
    decreases required.len(),
{
    if required.len() > 0 {
        let rest = required.drop_first();
        lemma_missing_property(rest, object);
        assert forall|property: Seq<char>| rest.contains(Json::Text(property)) implies
            required.contains(Json::Text(property)) by {
            let k = choose|k: int| 0 <= k < rest.len() && rest[k] == Json::Text(property);
            assert(required[k + 1] == Json::Text(property));
        }
        assert forall|property: Seq<char>|
            required.contains(Json::Text(property)) implies required[0] == Json::Text(property)
            || rest.contains(Json::Text(property)) by {
            let k = choose|k: int| 0 <= k < required.len() && required[k] == Json::Text(property);
            if k > 0 {
                assert(rest[k - 1] == Json::Text(property));
            }
        }
        if let Json::Text(property) = required[0] {
            assert(required.contains(Json::Text(property)));
        }
        if missing_property(required, object) is None {
            assert forall|property: Seq<char>|
                required.contains(Json::Text(property)) implies #[trigger] json::has_key(
                object,
                property,
            ) by {}
        } else if forall|property: Seq<char>|
            required.contains(Json::Text(property)) ==> #[trigger] json::has_key(
                object,
                property,
            ) {
            assert forall|property: Seq<char>|
                rest.contains(Json::Text(property)) implies #[trigger] json::has_key(
                object,
                property,
            ) by {
                assert(required.contains(Json::Text(property)));
            }
        }
    }
}

proof fn lemma_unexpected_property(object: Entries, allowed: Entries)
    ensures
        unexpected_property(object, allowed) is None <==> forall|i: int|
            0 <= i < object.len() ==> json::has_key(allowed, (#[trigger] object[i]).0),
    decreases object.len(),
{
    if object.len() > 0 {
        let rest = object.drop_first();
        lemma_unexpected_property(rest, allowed);
        if unexpected_property(object, allowed) is None {
            assert forall|i: int| 0 <= i < object.len() implies json::has_key(
                allowed,
                (#[trigger] object[i]).0,
            ) by {
                if i > 0 {
                    assert(rest[i - 1] == object[i]);
                }
            }
        } else if forall|i: int|
            0 <= i < object.len() ==> json::has_key(allowed, (#[trigger] object[i]).0) {
            assert(json::has_key(allowed, object[0].0));
            assert forall|i: int| 0 <= i < rest.len() implies json::has_key(
                allowed,
                (#[trigger] rest[i]).0,
            ) by {
                assert(rest[i] == object[i + 1]);
            }
        }
    }
}

pub open spec fn properties_meet(object: Entries, properties: Entries) -> bool {
    forall|i: int|
        0 <= i < properties.len() ==> match json::entry(object, (#[trigger] properties[i]).0) {
            Some(inner) => meets(inner, properties[i].1),
            None => true,
        }
}

proof fn lemma_properties_meet(object: Entries, properties: Entries, path: Seq<char>)
    ensures
        property_violation(object, properties, path) is None <==> properties_meet(
            object,
            properties,
        ),
    decreases properties, 0nat,
{
    if properties.len() > 0 {
        let rest = properties.drop_last();
        let last = properties.last();
        lemma_properties_meet(object, rest, path);
        if let Some(inner) = json::entry(object, last.0) {
            lemma_violation_means(inner, last.1, property_path(path, last.0));
        }
        if property_violation(object, properties, path) is None {
            assert forall|i: int| 0 <= i < properties.len() implies match json::entry(
                object,
                (#[trigger] properties[i]).0,
            ) {
                Some(inner) => meets(inner, properties[i].1),
                None => true,
            } by {
                if i < rest.len() {
                    assert(rest[i] == properties[i]);
                }
            }
        } else if properties_meet(object, properties) {
            assert(properties[properties.len() - 1] == last);
            assert forall|i: int| 0 <= i < rest.len() implies match json::entry(
                object,
                (#[trigger] rest[i]).0,
            ) {
                Some(inner) => meets(inner, rest[i].1),
                None => true,
            } by {
                assert(rest[i] == properties[i]);
            }
        }
    }
}

proof fn lemma_items_meet(items: Seq<Json>, item_schema: Json, path: Seq<char>)
    ensures
        item_violation(items, item_schema, path) is None <==> forall|i: int|
            0 <= i < items.len() ==> meets(#[trigger] items[i], item_schema),
    decreases item_schema, items.len() + 1,
{
    if items.len() > 0 {
        let rest = items.drop_last();
        lemma_items_meet(rest, item_schema, path);
        lemma_violation_means(
            items.last(),
            item_schema,
            item_path(path, (items.len() - 1) as nat),
        );
        if item_violation(items, item_schema, path) is None {
            assert forall|i: int| 0 <= i < items.len() implies meets(
                #[trigger] items[i],
                item_schema,
            ) by {
                if i < rest.len() {
                    assert(rest[i] == items[i]);
                }
            }
        } else if forall|i: int|
            0 <= i < items.len() ==> meets(#[trigger] items[i], item_schema) {
            assert(items[items.len() - 1] == items.last());
            assert forall|i: int| 0 <= i < rest.len() implies meets(
                #[trigger] rest[i],
                item_schema,
            ) by {
                assert(rest[i] == items[i]);
            }
        }
    }
}

/// Nothing is found wrong with exactly the values that meet the schema.
pub proof fn lemma_violation_means(value: Json, schema: Json, path: Seq<char>)
    ensures
        violation(value, schema, path) is None <==> meets(value, schema),
    decreases schema, 0nat,
{
    if expects_type(schema, "object"@) {
        if let Json::Record(object) = value {
            lemma_missing_property(items_under(schema, "required"@), object);
            lemma_unexpected_property(object, entries_under(schema, "properties"@));
            json::lemma_member_smaller(schema, "properties"@);
            if let Some(properties) = json::entries_of(json::member(schema, "properties"@)) {
                lemma_properties_meet(object, properties, path);
            }
        }
    } else if expects_type(schema, "array"@) {
        if let Json::List(items) = value {
            json::lemma_member_smaller(schema, "items"@);
            if let Some(item_schema) = json::member(schema, "items"@) {
                lemma_items_meet(items, item_schema, path);
            }
        }
    }
}

/// Arguments that are accepted meet the schema of the tool.
pub proof fn lemma_accepted_meets_schema(arguments: Json, schema: Json, tool_name: Seq<char>)
    ensures
        accepted(arguments, schema, tool_name) matches Ok(value) ==> meets(value, schema),
{
    if let Ok(value) = accepted(arguments, schema, tool_name) {
        lemma_violation_means(value, schema, "$"@);
    }
}

/// The schema asks for a value of the type, alone or among others.
pub open spec fn names_type(schema: Json, wanted: Seq<char>) -> bool {
    match schema {
        Json::Record(entries) => exists|i: int|
            #![trigger entries[i]]
            0 <= i < entries.len() && entries[i].0 == "type"@ && (forall|j: int|
                0 <= j < i ==> (#[trigger] entries[j]).0 != "type"@) && (entries[i].1 == Json::Text(
                wanted,
            ) || (entries[i].1 matches Json::List(kinds) && kinds.contains(Json::Text(wanted)))),
        _ => false,
    }
}

proof fn lemma_names_type(schema: Json, wanted: Seq<char>)
    ensures
        expects_type(schema, wanted) <==> names_type(schema, wanted),
{
    if let Json::Record(entries) = schema {
        json::lemma_key(entries, "type"@);
        let k = json::key_index(entries, "type"@);
        if names_type(schema, wanted) {
            let i = choose|i: int|
                #![trigger entries[i]]
                0 <= i < entries.len() && entries[i].0 == "type"@ && (forall|j: int|
                    0 <= j < i ==> (#[trigger] entries[j]).0 != "type"@) && (entries[i].1
                    == Json::Text(wanted) || (entries[i].1 matches Json::List(kinds)
                    && kinds.contains(Json::Text(wanted))));
            if k < i {
                assert(entries[k].0 != "type"@);
            } else if i < k {
                assert(entries[i].0 != "type"@);
            }
        }
        if expects_type(schema, wanted) {
            assert(entries[k].0 == "type"@);
        }
    }
}

/// No text stands in a place for which the schema wants an object or an array.
pub open spec fn is_unquoted(value: Json, schema: Json) -> bool
    decreases schema,
{
    match value {
        Json::Text(_) => !names_type(schema, "object"@) && !names_type(schema, "array"@),
        Json::Record(entries) => forall|i: int|
            0 <= i < entries.len() ==> {
                proof {
                    lemma_property_smaller(schema, entries[i].0);
                }
                match property_schema(schema, (#[trigger] entries[i]).0) {
                    Some(inner) => is_unquoted(entries[i].1, inner),
                    None => true,
                }
            },
        Json::List(items) => forall|i: int|
            0 <= i < items.len() ==> {
                proof {
                    json::lemma_member_smaller(schema, "items"@);
                }
                match json::member(schema, "items"@) {
                    Some(inner) => is_unquoted(#[trigger] items[i], inner),
                    None => true,
                }
            },
        _ => true,
    }
}

/// Arguments without such a text are not changed by coercion.
pub proof fn lemma_coerced_unchanged(value: Json, schema: Json, tool_name: Seq<char>)
    requires
        is_unquoted(value, schema),
    ensures
        coerced(value, schema, tool_name) == Ok::<Json, Seq<Seq<char>>>(value),
    decreases schema, 1nat, 0nat,
{
    lemma_names_type(schema, "object"@);
    lemma_names_type(schema, "array"@);
    match value {
        Json::Record(entries) => {
            lemma_entries_unchanged(entries, schema, tool_name);
        },
        Json::List(items) => {
            lemma_items_unchanged(items, schema, tool_name);
        },
        _ => {},
    }
}

proof fn lemma_entries_unchanged(entries: Entries, schema: Json, tool_name: Seq<char>)
    requires
        is_unquoted(Json::Record(entries), schema),
    ensures
        coerced_entries(entries, schema, tool_name) == Ok::<Entries, Seq<Seq<char>>>(entries),
    decreases schema, 0nat, entries.len(),
{
    if entries.len() > 0 {
        let rest = entries.drop_last();
        assert forall|i: int| 0 <= i < rest.len() implies match property_schema(
            schema,
            (#[trigger] rest[i]).0,
        ) {
            Some(inner) => is_unquoted(rest[i].1, inner),
            None => true,
        } by {
            assert(rest[i] == entries[i]);
        }
        lemma_entries_unchanged(rest, schema, tool_name);
        lemma_property_smaller(schema, entries.last().0);
        assert(entries.last() == entries[entries.len() - 1]);
        if let Some(inner) = property_schema(schema, entries.last().0) {
            lemma_coerced_unchanged(entries.last().1, inner, tool_name);
        }
        assert(rest.push(entries.last()) =~= entries);
    } else {
        assert(entries =~= Seq::empty());
    }
}

proof fn lemma_item_unquoted(items: Seq<Json>, schema: Json, inner: Json, i: int)
    requires
        is_unquoted(Json::List(items), schema),
        json::member(schema, "items"@) == Some(inner),
        0 <= i < items.len(),
    ensures
        is_unquoted(items[i], inner),
{
    let list = Json::List(items);
    assert(list->List_0 == items);
    assert(is_unquoted(list, schema));
}

proof fn lemma_items_unchanged(items: Seq<Json>, schema: Json, tool_name: Seq<char>)
    requires
        is_unquoted(Json::List(items), schema),
    ensures
        coerced_items(items, schema, tool_name) == Ok::<Seq<Json>, Seq<Seq<char>>>(items),
    decreases schema, 0nat, items.len(),
{
    json::lemma_member_smaller(schema, "items"@);
    if items.len() > 0 {
        let rest = items.drop_last();
        assert forall|i: int| 0 <= i < rest.len() implies match json::member(schema, "items"@) {
            Some(inner) => is_unquoted(#[trigger] rest[i], inner),
            None => true,
        } by {
            if let Some(inner) = json::member(schema, "items"@) {
                lemma_item_unquoted(items, schema, inner, i);
            }
            assert(rest[i] == items[i]);
        }
        assert(items.last() == items[items.len() - 1]);
        if let Some(inner) = json::member(schema, "items"@) {
            lemma_item_unquoted(items, schema, inner, items.len() - 1);
            lemma_coerced_unchanged(items.last(), inner, tool_name);
        }
        lemma_items_unchanged(rest, schema, tool_name);
        assert(rest.push(items.last()) =~= items);
    } else {
        assert(items =~= Seq::empty());
    }
}

/// Where no text stands in the place of an object or an array, arguments are accepted as they were
/// given or not at all: they are accepted exactly where they meet the schema and are not empty
/// where properties are required.
pub proof fn lemma_accepted_unchanged(arguments: Json, schema: Json, tool_name: Seq<char>)
    requires
        is_unquoted(arguments, schema),
    ensures
        accepted(arguments, schema, tool_name) matches Ok(value) ==> value == arguments,
        accepted(arguments, schema, tool_name) is Ok <==> meets(arguments, schema) && !(arguments
            == Json::Record(Seq::empty()) && requires_properties(schema)),
{
    lemma_coerced_unchanged(arguments, schema, tool_name);
    lemma_violation_means(arguments, schema, "$"@);
}

/// Text for which the schema asks no object and no array comes out character for character.
pub proof fn lemma_text_unchanged(text: Seq<char>, schema: Json, tool_name: Seq<char>)
    requires
        !names_type(schema, "object"@),
        !names_type(schema, "array"@),
    ensures
        coerced(Json::Text(text), schema, tool_name) == Ok::<Json, Seq<Seq<char>>>(
            Json::Text(text),
        ),
{
    lemma_coerced_unchanged(Json::Text(text), schema, tool_name);
}

/// Text in the place of an object or an array counts as the value that it is read as.
pub proof fn lemma_quoted_value_counts(
    raw: Seq<char>,
    value: Json,
    schema: Json,
    tool_name: Seq<char>,
)
    requires
        names_type(schema, "object"@) || names_type(schema, "array"@),
        parsed_arguments(raw, tool_name) == Ok::<Json, Seq<Seq<char>>>(value),
        !(value is Text),
    ensures
        coerced(Json::Text(raw), schema, tool_name) == coerced(value, schema, tool_name),
{
    lemma_names_type(schema, "object"@);
    lemma_names_type(schema, "array"@);
}

/// Each entry of an object is coerced by itself: its key stays, in its place, and its value is
/// coerced by the schema of the property, or stays where there is none.
pub proof fn lemma_entries_coerced_each(
    entries: Entries,
    schema: Json,
    tool_name: Seq<char>,
    done: Entries,
    i: int,
)
    requires
        coerced_entries(entries, schema, tool_name) == Ok::<Entries, Seq<Seq<char>>>(done),
        0 <= i < entries.len(),
    ensures
        done.len() == entries.len(),
        done[i].0 == entries[i].0,
        match property_schema(schema, entries[i].0) {
            Some(inner) => coerced(entries[i].1, inner, tool_name) == Ok::<Json, Seq<Seq<char>>>(
                done[i].1,
            ),
            None => done[i].1 == entries[i].1,
        },
    decreases entries.len(),
{
    let rest = entries.drop_last();
    let before = coerced_entries(rest, schema, tool_name)->Ok_0;
    if i < rest.len() {
        lemma_entries_coerced_each(rest, schema, tool_name, before, i);
    } else if rest.len() > 0 {
        lemma_entries_coerced_each(rest, schema, tool_name, before, 0);
    } else {
        assert(rest =~= Seq::empty());
    }
}

/// Arguments without literals that JSON does not have are read as they stand.
pub proof fn lemma_parsed_arguments(raw: Seq<char>, tool_name: Seq<char>)
    requires
        !literals::has_invalid_literal(raw),
    ensures
        json::parsed_json(raw) matches Ok(value) ==> parsed_arguments(raw, tool_name) == Ok::<
            Json,
            Seq<Seq<char>>,
        >(value),
        json::parsed_json(raw) is Err ==> parsed_arguments(raw, tool_name) is Err,
{
    literals::lemma_sanitized_unchanged(raw);
}

} // verus!
