//! JSON values.
use crate::order;
use crate::order::text_is_before;
use crate::text::same;
use serde_json::Value;
use vstd::prelude::*;

verus! {

// ---------------------------------------------------------------------------
// The model
// ---------------------------------------------------------------------------
/// A number as JSON text writes it: a natural number, a negative integer, or the shortest text
/// of a number with a fraction or an exponent.
#[verifier::ext_equal]
pub enum NumberModel {
    Unsigned(u64),
    Negative(i64),
    Decimal(Seq<char>),
}

/// What a JSON value is. The entries of an object stand in the order of their keys.
#[verifier::ext_equal]
pub enum Json {
    Null,
    Bool(bool),
    Number(NumberModel),
    Text(Seq<char>),
    List(Seq<Json>),
    Record(Seq<(Seq<char>, Json)>),
}

/// The entries of an object.
pub type Entries = Seq<(Seq<char>, Json)>;

/// The position of the first entry with the key, or the number of entries.
pub open spec fn key_index(entries: Entries, key: Seq<char>) -> int
    decreases entries.len(),
{
    if entries.len() == 0 {
        0
    } else if entries[0].0 == key {
        0
    } else {
        1 + key_index(entries.drop_first(), key)
    }
}

pub open spec fn has_key(entries: Entries, key: Seq<char>) -> bool {
    key_index(entries, key) < entries.len()
}

pub open spec fn entry(entries: Entries, key: Seq<char>) -> Option<Json> {
    let i = key_index(entries, key);
    if 0 <= i < entries.len() {
        Some(entries[i].1)
    } else {
        None
    }
}

/// The value that an object holds under the key. Other values hold none.
pub open spec fn member(value: Json, key: Seq<char>) -> Option<Json> {
    match value {
        Json::Record(entries) => entry(entries, key),
        _ => None,
    }
}

/// The entries without the one with the key.
pub open spec fn without_key(entries: Entries, key: Seq<char>) -> Entries {
    let i = key_index(entries, key);
    if 0 <= i < entries.len() {
        entries.remove(i)
    } else {
        entries
    }
}

/// The entries with the value under the key, in the order of the keys.
pub open spec fn with_entry(entries: Entries, key: Seq<char>, value: Json) -> Entries
    decreases entries.len(),
{
    if entries.len() == 0 {
        seq![(key, value)]
    } else if entries[0].0 == key {
        entries.update(0, (key, value))
    } else if order::text_before(key, entries[0].0) {
        seq![(key, value)] + entries
    } else {
        seq![entries[0]] + with_entry(entries.drop_first(), key, value)
    }
}

pub open spec fn text_of(value: Option<Json>) -> Option<Seq<char>> {
    match value {
        Some(Json::Text(text)) => Some(text),
        _ => None,
    }
}

pub open spec fn items_of(value: Option<Json>) -> Option<Seq<Json>> {
    match value {
        Some(Json::List(items)) => Some(items),
        _ => None,
    }
}

pub open spec fn entries_of(value: Option<Json>) -> Option<Entries> {
    match value {
        Some(Json::Record(entries)) => Some(entries),
        _ => None,
    }
}

pub open spec fn bool_of(value: Option<Json>) -> Option<bool> {
    match value {
        Some(Json::Bool(b)) => Some(b),
        _ => None,
    }
}

pub open spec fn natural_of(value: Option<Json>) -> Option<u64> {
    match value {
        Some(Json::Number(NumberModel::Unsigned(n))) => Some(n),
        _ => None,
    }
}

/// The texts of the two zeros that a decimal number can be.
pub open spec fn is_zero(text: Seq<char>) -> bool {
    text == "0.0"@ || text == "-0.0"@
}

pub open spec fn same_number(a: NumberModel, b: NumberModel) -> bool {
    match (a, b) {
        (NumberModel::Decimal(s), NumberModel::Decimal(t)) => s == t || (is_zero(s) && is_zero(t)),
        _ => a == b,
    }
}

/// The values are equal, where both zeros of the decimal numbers count as one.
pub open spec fn alike(a: Json, b: Json) -> bool
    decreases a,
{
    match (a, b) {
        (Json::Number(m), Json::Number(n)) => same_number(m, n),
        (Json::List(x), Json::List(y)) => x.len() == y.len() && (forall|i: int|
            0 <= i < x.len() ==> alike(#[trigger] x[i], y[i])),
        (Json::Record(x), Json::Record(y)) => x.len() == y.len() && (forall|i: int|
            0 <= i < x.len() ==> (#[trigger] x[i]).0 == y[i].0 && alike(x[i].1, y[i].1)),
        _ => a == b,
    }
}

/// Both are missing, or both are there and alike.
pub open spec fn alike_options(a: Option<Json>, b: Option<Json>) -> bool {
    match (a, b) {
        (Some(x), Some(y)) => alike(x, y),
        (None, None) => true,
        _ => false,
    }
}

// ---------------------------------------------------------------------------
// Values
// ---------------------------------------------------------------------------
#[derive(Debug)]
pub enum JsonNumber {
    Unsigned(u64),
    Negative(i64),
    Decimal(String),
}

#[derive(Debug)]
pub enum JsonValue {
    Null,
    Bool(bool),
    Number(JsonNumber),
    Text(String),
    Array(Vec<JsonValue>),
    Object(Vec<(String, JsonValue)>),
}

impl View for JsonNumber {
    type V = NumberModel;

    open spec fn view(&self) -> NumberModel {
        match *self {
            JsonNumber::Unsigned(n) => NumberModel::Unsigned(n),
            JsonNumber::Negative(n) => NumberModel::Negative(n),
            JsonNumber::Decimal(text) => NumberModel::Decimal(text@),
        }
    }
}

pub open spec fn model(value: JsonValue) -> Json
    decreases value,
{
    match value {
        JsonValue::Null => Json::Null,
        JsonValue::Bool(b) => Json::Bool(b),
        JsonValue::Number(n) => Json::Number(n@),
        JsonValue::Text(text) => Json::Text(text@),
        JsonValue::Array(items) => Json::List(
            Seq::new(
                items@.len(),
                |i: int|
                    if 0 <= i < items@.len() {
                        model(items@[i])
                    } else {
                        Json::Null
                    },
            ),
        ),
        JsonValue::Object(entries) => Json::Record(
            Seq::new(
                entries@.len(),
                |i: int|
                    if 0 <= i < entries@.len() {
                        (entries@[i].0@, model(entries@[i].1))
                    } else {
                        (Seq::empty(), Json::Null)
                    },
            ),
        ),
    }
}

impl View for JsonValue {
    type V = Json;

    open spec fn view(&self) -> Json {
        model(*self)
    }
}

/// What an object holds under a key is a smaller value.
pub proof fn lemma_member_smaller(value: Json, key: Seq<char>)
    ensures
        member(value, key) matches Some(v) ==> decreases_to!(value => v),
{
    if let Json::Record(entries) = value {
        let i = key_index(entries, key);
        if 0 <= i < entries.len() {
            assert(decreases_to!(value => entries));
            assert(decreases_to!(entries => entries[i]));
            assert(decreases_to!(entries[i] => entries[i].1));
        }
    }
}

pub open spec fn items_model(items: Seq<JsonValue>) -> Seq<Json> {
    items.map_values(|v: JsonValue| v@)
}

pub open spec fn entries_model(entries: Seq<(String, JsonValue)>) -> Entries {
    entries.map_values(|e: (String, JsonValue)| (e.0@, e.1@))
}

pub open spec fn option_model(value: Option<JsonValue>) -> Option<Json> {
    match value {
        Some(v) => Some(v@),
        None => None,
    }
}

/// The model of a list holds the models of its items.
pub proof fn lemma_items(items: Vec<JsonValue>)
    ensures
        JsonValue::Array(items)@ == Json::List(items_model(items@)),
{
    assert(JsonValue::Array(items)@->List_0 =~= items_model(items@));
}

/// The model of an object holds the models of its entries.
pub proof fn lemma_entries(entries: Vec<(String, JsonValue)>)
    ensures
        JsonValue::Object(entries)@ == Json::Record(entries_model(entries@)),
{
    assert(JsonValue::Object(entries)@->Record_0 =~= entries_model(entries@));
}

proof fn lemma_key_index(entries: Entries, key: Seq<char>, i: int)
    requires
        0 <= i <= entries.len(),
        forall|j: int| 0 <= j < i ==> (#[trigger] entries[j]).0 != key,
        i < entries.len() ==> entries[i].0 == key,
    ensures
        key_index(entries, key) == i,
    decreases entries.len(),
{
    if i > 0 {
        let rest = entries.drop_first();
        assert forall|j: int| 0 <= j < i - 1 implies (#[trigger] rest[j]).0 != key by {
            assert(rest[j] == entries[j + 1]);
        }
        assert(i < entries.len() ==> rest[i - 1] == entries[i]);
        assert(entries[0].0 != key);
        lemma_key_index(rest, key, i - 1);
    }
}

/// A key that is found stands at its position.
pub proof fn lemma_key(entries: Entries, key: Seq<char>)
    ensures
        0 <= key_index(entries, key) <= entries.len(),
        key_index(entries, key) < entries.len() ==> entries[key_index(entries, key)].0 == key,
        forall|j: int| 0 <= j < key_index(entries, key) ==> (#[trigger] entries[j]).0 != key,
    decreases entries.len(),
{
    if entries.len() > 0 && entries[0].0 != key {
        let rest = entries.drop_first();
        lemma_key(rest, key);
        assert forall|j: int| 0 <= j < key_index(entries, key) implies (#[trigger] entries[j]).0
            != key by {
            if j > 0 {
                assert(rest[j - 1] == entries[j]);
            }
        }
    }
}

pub fn find_entry(entries: &[(String, JsonValue)], key: &str) -> (res: usize)
    ensures
        res == key_index(entries_model(entries@), key@),
        res <= entries@.len(),
{
    let ghost all = entries_model(entries@);
    let mut i: usize = 0;
    while i < entries.len()
        invariant
            i <= entries.len(),
            all == entries_model(entries@),
            forall|j: int| 0 <= j < i ==> (#[trigger] all[j]).0 != key@,
        decreases entries.len() - i,
    {
        assert(all[i as int].0 == entries@[i as int].0@);
        if same(entries[i].0.as_str(), key) {
            proof {
                lemma_key_index(all, key@, i as int);
            }
            return i;
        }
        i += 1;
    }
    proof {
        lemma_key_index(all, key@, i as int);
    }
    i
}

pub fn get_entry<'a>(entries: &'a [(String, JsonValue)], key: &str) -> (res: Option<&'a JsonValue>)
    ensures
        res matches Some(v) ==> decreases_to!(entries@ => *v),
        entry(entries_model(entries@), key@) == match res {
            Some(v) => Some(v@),
            None => None,
        },
{
    let i: usize = find_entry(entries, key);
    if i < entries.len() {
        assert(decreases_to!(entries@ => entries@[i as int]));
        assert(decreases_to!(entries@[i as int] => entries@[i as int].1));
        Some(&entries[i].1)
    } else {
        None
    }
}

/// Takes the value under the key out of the entries.
pub fn take_entry(entries: &mut Vec<(String, JsonValue)>, key: &str) -> (res: Option<JsonValue>)
    ensures
        option_model(res) == entry(entries_model(old(entries)@), key@),
        entries_model(final(entries)@) == without_key(entries_model(old(entries)@), key@),
{
    let i: usize = find_entry(entries.as_slice(), key);
    let ghost before = entries_model(entries@);
    if i < entries.len() {
        let removed: (String, JsonValue) = entries.remove(i);
        assert(entries_model(entries@) =~= before.remove(i as int));
        Some(removed.1)
    } else {
        None
    }
}

/// Puts the value under the key, in the order of the keys.
pub fn put_entry(entries: &mut Vec<(String, JsonValue)>, key: String, value: JsonValue)
    ensures
        entries_model(final(entries)@) == with_entry(
            entries_model(old(entries)@),
            key@,
            value@,
        ),
{
    let ghost all = entries_model(entries@);
    let ghost first = entries@;
    let mut i: usize = 0;
    assert(all.skip(0) == all);
    assert(all.take(0) + with_entry(all, key@, value@) =~= with_entry(all, key@, value@));
    while i < entries.len()
        invariant
            i <= entries.len(),
            entries@ == first,
            all == entries_model(first),
            all == entries_model(old(entries)@),
            with_entry(all, key@, value@) == all.take(i as int) + with_entry(
                all.skip(i as int),
                key@,
                value@,
            ),
        decreases entries.len() - i,
    {
        let ghost rest = all.skip(i as int);
        assert(rest[0] == all[i as int]);
        assert(all[i as int] == (first[i as int].0@, first[i as int].1@));
        if same(entries[i].0.as_str(), key.as_str()) {
            entries.remove(i);
            entries.insert(i, (key, value));
            assert(entries@ =~= first.update(i as int, (key, value)));
            assert(entries_model(entries@) =~= all.take(i as int) + rest.update(0, (key@, value@)));
            return ;
        }
        if text_is_before(key.as_str(), entries[i].0.as_str()) {
            entries.insert(i, (key, value));
            assert(entries_model(entries@) =~= all.take(i as int) + (seq![(key@, value@)] + rest));
            return ;
        }
        proof {
            assert(rest.drop_first() == all.skip(i as int + 1));
            assert(all.take(i as int) + (seq![rest[0]] + with_entry(
                rest.drop_first(),
                key@,
                value@,
            )) =~= all.take(i as int + 1) + with_entry(rest.drop_first(), key@, value@));
        }
        i += 1;
    }
    entries.push((key, value));
    assert(entries_model(entries@) =~= all.take(i as int) + seq![(key@, value@)]);
}

impl JsonValue {
    /// The value under the key, where this is an object that has the key.
    pub fn get(&self, key: &str) -> (res: Option<&JsonValue>)
        ensures
            res matches Some(v) ==> decreases_to!(*self => *v),
            member(self@, key@) == match res {
                Some(v) => Some(v@),
                None => None,
            },
    {
        match self {
            JsonValue::Object(entries) => {
                proof {
                    lemma_entries(*entries);
                }
                get_entry(entries.as_slice(), key)
            },
            _ => None,
        }
    }

    pub fn copied(&self) -> (res: JsonValue)
        ensures
            res@ == self@,
        decreases self,
    {
        match self {
            JsonValue::Null => JsonValue::Null,
            JsonValue::Bool(b) => JsonValue::Bool(*b),
            JsonValue::Number(number) => JsonValue::Number(
                match number {
                    JsonNumber::Unsigned(n) => JsonNumber::Unsigned(*n),
                    JsonNumber::Negative(n) => JsonNumber::Negative(*n),
                    JsonNumber::Decimal(text) => JsonNumber::Decimal(text.clone()),
                },
            ),
            JsonValue::Text(text) => JsonValue::Text(text.clone()),
            JsonValue::Array(items) => {
                let mut out: Vec<JsonValue> = Vec::new();
                let mut i: usize = 0;
                while i < items.len()
                    invariant
                        i <= items.len(),
                        out@.len() == i,
                        decreases_to!(self => items),
                        forall|j: int| 0 <= j < i ==> (#[trigger] out@[j])@ == items@[j]@,
                    decreases items.len() - i,
                {
                    let item = items[i].copied();
                    out.push(item);
                    i += 1;
                }
                proof {
                    lemma_items(*items);
                    lemma_items(out);
                    assert(items_model(out@) =~= items_model(items@));
                }
                JsonValue::Array(out)
            },
            JsonValue::Object(entries) => {
                let mut out: Vec<(String, JsonValue)> = Vec::new();
                let mut i: usize = 0;
                while i < entries.len()
                    invariant
                        i <= entries.len(),
                        out@.len() == i,
                        decreases_to!(self => entries),
                        forall|j: int|
                            0 <= j < i ==> (#[trigger] out@[j]).0@ == entries@[j].0@ && out@[j].1@
                                == entries@[j].1@,
                    decreases entries.len() - i,
                {
                    let key = entries[i].0.clone();
                    let value = entries[i].1.copied();
                    out.push((key, value));
                    i += 1;
                }
                proof {
                    lemma_entries(*entries);
                    lemma_entries(out);
                    assert(entries_model(out@) =~= entries_model(entries@));
                }
                JsonValue::Object(out)
            },
        }
    }
}

fn same_numbers(a: &JsonNumber, b: &JsonNumber) -> (res: bool)
    ensures
        res == same_number(a@, b@),
{
    match (a, b) {
        (JsonNumber::Unsigned(m), JsonNumber::Unsigned(n)) => *m == *n,
        (JsonNumber::Negative(m), JsonNumber::Negative(n)) => *m == *n,
        (JsonNumber::Decimal(s), JsonNumber::Decimal(t)) => {
            same(s.as_str(), t.as_str()) || ((same(s.as_str(), "0.0") || same(s.as_str(), "-0.0"))
                && (same(t.as_str(), "0.0") || same(t.as_str(), "-0.0")))
        },
        _ => false,
    }
}

pub fn values_alike(a: &JsonValue, b: &JsonValue) -> (res: bool)
    ensures
        res == alike(a@, b@),
    decreases a,
{
    match (a, b) {
        (JsonValue::Null, JsonValue::Null) => true,
        (JsonValue::Bool(x), JsonValue::Bool(y)) => *x == *y,
        (JsonValue::Number(x), JsonValue::Number(y)) => same_numbers(x, y),
        (JsonValue::Text(x), JsonValue::Text(y)) => same(x.as_str(), y.as_str()),
        (JsonValue::Array(x), JsonValue::Array(y)) => {
            if x.len() != y.len() {
                return false;
            }
            let mut i: usize = 0;
            while i < x.len()
                invariant
                    i <= x.len(),
                    x@.len() == y@.len(),
                    decreases_to!(a => x),
                    a@ == JsonValue::Array(*x)@,
                    b@ == JsonValue::Array(*y)@,
                    forall|j: int| 0 <= j < i ==> alike(#[trigger] x@[j]@, y@[j]@),
                decreases x.len() - i,
            {
                if !values_alike(&x[i], &y[i]) {
                    proof {
                        assert(a@->List_0[i as int] == x@[i as int]@);
                        assert(b@->List_0[i as int] == y@[i as int]@);
                    }
                    return false;
                }
                i += 1;
            }
            proof {
                assert forall|j: int| 0 <= j < a@->List_0.len() implies alike(
                    #[trigger] a@->List_0[j],
                    b@->List_0[j],
                ) by {
                    assert(a@->List_0[j] == x@[j]@);
                    assert(b@->List_0[j] == y@[j]@);
                }
            }
            true
        },
        (JsonValue::Object(x), JsonValue::Object(y)) => {
            if x.len() != y.len() {
                return false;
            }
            let mut i: usize = 0;
            while i < x.len()
                invariant
                    i <= x.len(),
                    x@.len() == y@.len(),
                    decreases_to!(a => x),
                    a@ == JsonValue::Object(*x)@,
                    b@ == JsonValue::Object(*y)@,
                    forall|j: int|
                        0 <= j < i ==> (#[trigger] x@[j]).0@ == y@[j].0@ && alike(
                            x@[j].1@,
                            y@[j].1@,
                        ),
                decreases x.len() - i,
            {
                proof {
                    assert(a@->Record_0[i as int] == (x@[i as int].0@, x@[i as int].1@));
                    assert(b@->Record_0[i as int] == (y@[i as int].0@, y@[i as int].1@));
                }
                if !same(x[i].0.as_str(), y[i].0.as_str()) {
                    return false;
                }
                if !values_alike(&x[i].1, &y[i].1) {
                    return false;
                }
                i += 1;
            }
            proof {
                assert forall|j: int| 0 <= j < a@->Record_0.len() implies (
                #[trigger] a@->Record_0[j]).0 == b@->Record_0[j].0 && alike(
                    a@->Record_0[j].1,
                    b@->Record_0[j].1,
                ) by {
                    assert(a@->Record_0[j] == (x@[j].0@, x@[j].1@));
                    assert(b@->Record_0[j] == (y@[j].0@, y@[j].1@));
                }
            }
            true
        },
        _ => false,
    }
}

/// Text as a value.
pub fn text_value(text: &str) -> (res: JsonValue)
    ensures
        res@ == Json::Text(text@),
{
    JsonValue::Text(text.to_owned())
}

/// A list of values.
pub fn list_value(items: Vec<JsonValue>) -> (res: JsonValue)
    ensures
        res@ == Json::List(items_model(items@)),
{
    proof {
        lemma_items(items);
    }
    JsonValue::Array(items)
}

/// An object with the entries.
pub fn object_value(entries: Vec<(String, JsonValue)>) -> (res: JsonValue)
    ensures
        res@ == Json::Record(entries_model(entries@)),
{
    proof {
        lemma_entries(entries);
    }
    JsonValue::Object(entries)
}

/// Adds an entry at the end.
pub fn push_entry(entries: &mut Vec<(String, JsonValue)>, key: &str, value: JsonValue)
    ensures
        entries_model(final(entries)@) == entries_model(old(entries)@).push((key@, value@)),
{
    let ghost before = entries_model(entries@);
    entries.push((key.to_owned(), value));
    assert(entries_model(entries@) =~= before.push((key@, value@)));
}

/// Whether two values that may be missing are alike.
pub fn options_alike(a: &Option<JsonValue>, b: &Option<JsonValue>) -> (res: bool)
    ensures
        res == alike_options(option_model(*a), option_model(*b)),
{
    match (a, b) {
        (Some(x), Some(y)) => values_alike(x, y),
        (None, None) => true,
        _ => false,
    }
}

// ---------------------------------------------------------------------------
// Text
// ---------------------------------------------------------------------------
/// A parsed value as `serde_json` holds it.
#[verifier::external_type_specification]
#[verifier::external_body]
pub struct ExSerdeValue(serde_json::Value);

/// Takes a `serde_json::Value` apart: the same value, variant by variant, with each number as
/// its integer or, where it is no integer, as the text that `serde_json` writes for it.
#[verifier::external_body]
fn from_serde(value: Value) -> JsonValue {
    match value {
        Value::Null => JsonValue::Null,
        Value::Bool(b) => JsonValue::Bool(b),
        Value::Number(n) => match (n.as_u64(), n.as_i64()) {
            (Some(u), _) => JsonValue::Number(JsonNumber::Unsigned(u)),
            (None, Some(i)) => JsonValue::Number(JsonNumber::Negative(i)),
            (None, None) => JsonValue::Number(JsonNumber::Decimal(n.to_string())),
        },
        Value::String(s) => JsonValue::Text(s),
        Value::Array(items) => JsonValue::Array(items.into_iter().map(from_serde).collect()),
        Value::Object(map) => JsonValue::Object(
            map.into_iter().map(|e| (e.0, from_serde(e.1))).collect()),
    }
}

/// Builds the `Value` that `from_serde` takes apart into the same value.
#[verifier::external_body]
fn to_serde(value: &JsonValue) -> Value {
    match value {
        JsonValue::Null => Value::Null,
        JsonValue::Bool(b) => Value::Bool(*b),
        JsonValue::Number(JsonNumber::Unsigned(n)) => Value::from(*n),
        JsonValue::Number(JsonNumber::Negative(n)) => Value::from(*n),
        JsonValue::Number(JsonNumber::Decimal(s)) => s.parse().ok()
            .and_then(serde_json::Number::from_f64).map_or(Value::Null, Value::Number),
        JsonValue::Text(s) => Value::String(s.clone()),
        JsonValue::Array(items) => Value::Array(items.iter().map(to_serde).collect()),
        JsonValue::Object(entries) => Value::Object(
            entries.iter().map(|e| (e.0.clone(), to_serde(&e.1))).collect()),
    }
}

/// What `serde_json::from_str` makes of the text: a value, or the text of its error.
pub uninterp spec fn parsed_json(text: Seq<char>) -> Result<Json, Seq<char>>;

/// `serde_json::from_str`, which reads a value from JSON text. What it gives depends on the
/// text alone and has a name; nothing more is claimed of it.
#[verifier::external_body]
pub(crate) fn parse_json(text: &str) -> (res: Result<JsonValue, String>)
    ensures
        parsed_json(text@) == match res {
            Ok(value) => Ok::<Json, Seq<char>>(value@),
            Err(error) => Err::<Json, Seq<char>>(error@),
        },
{
    serde_json::from_str::<serde_json::Value>(text).map(from_serde).map_err(|e| e.to_string())
}

/// The JSON text that `serde_json` writes for the value.
pub uninterp spec fn rendered_json(value: Json) -> Seq<char>;

/// The `Display` text of a `serde_json::Value`: its JSON text on one line. It depends on the
/// value alone and has a name; nothing more is claimed of it.
#[verifier::external_body]
pub(crate) fn json_text(value: &JsonValue) -> (res: String)
    ensures
        res@ == rendered_json(value@),
{
    to_serde(value).to_string()
}

/// The `Debug` text that `serde_json` gives for the value, or for none.
pub uninterp spec fn debug_json(value: Option<Json>) -> Seq<char>;

/// The `Debug` text of an optional `serde_json::Value`. It depends on the value alone and has
/// a name; nothing more is claimed of it.
#[verifier::external_body]
pub(crate) fn json_debug_text(value: &Option<JsonValue>) -> (res: String)
    ensures
        res@ == debug_json(option_model(*value)),
{
    format!("{:?}", value.as_ref().map(to_serde))
}

// ---------------------------------------------------------------------------
// Laws
// ---------------------------------------------------------------------------
/// What is put under a key is found there, and what stands under other keys stays.
pub proof fn lemma_with_entry(entries: Entries, key: Seq<char>, value: Json, other: Seq<char>)
    ensures
        entry(with_entry(entries, key, value), key) == Some(value),
        other != key ==> entry(with_entry(entries, key, value), other) == entry(entries, other),
    decreases entries.len(),
{
    let all = with_entry(entries, key, value);
    if entries.len() == 0 {
        lemma_entry_first(all, key);
        lemma_entry_first(all, other);
        assert(all.drop_first() =~= entries);
    } else {
        let rest = entries.drop_first();
        lemma_entry_first(all, key);
        lemma_entry_first(all, other);
        lemma_entry_first(entries, other);
        if entries[0].0 == key {
            assert(all.drop_first() =~= rest);
        } else if order::text_before(key, entries[0].0) {
            assert(all.drop_first() =~= entries);
        } else {
            lemma_with_entry(rest, key, value, other);
            assert(all.drop_first() =~= with_entry(rest, key, value));
        }
    }
}

/// The value under a key is that of the first entry, or else that of the others.
proof fn lemma_entry_first(entries: Entries, key: Seq<char>)
    requires
        entries.len() > 0,
    ensures
        entry(entries, key) == if entries[0].0 == key {
            Some(entries[0].1)
        } else {
            entry(entries.drop_first(), key)
        },
{
    lemma_key(entries.drop_first(), key);
    let k = key_index(entries.drop_first(), key);
    if k < entries.len() - 1 {
        assert(entries.drop_first()[k] == entries[k + 1]);
    }
}

/// What stands under other keys stays where a key is taken out.
pub proof fn lemma_without_key(entries: Entries, key: Seq<char>, other: Seq<char>)
    requires
        other != key,
    ensures
        entry(without_key(entries, key), other) == entry(entries, other),
        has_key(entries, key) ==> without_key(entries, key).len() == entries.len() - 1,
        !has_key(entries, key) ==> without_key(entries, key) == entries,
    decreases entries.len(),
{
    lemma_key(entries, key);
    if entries.len() > 0 {
        let rest = entries.drop_first();
        lemma_key(rest, key);
        lemma_entry_first(entries, other);
        if entries[0].0 == key {
            assert(entries.remove(0) =~= rest);
        } else {
            lemma_without_key(rest, key, other);
            if has_key(entries, key) {
                let all = without_key(entries, key);
                let k = key_index(rest, key);
                assert(entries.remove(k + 1).drop_first() =~= rest.remove(k));
                assert(entries.remove(k + 1)[0] == entries[0]);
                lemma_entry_first(all, other);
            }
        }
    }
}

/// There is no decimal number in the value.
pub open spec fn is_exact(value: Json) -> bool
    decreases value,
{
    match value {
        Json::Number(n) => !(n is Decimal),
        Json::List(items) => forall|i: int| 0 <= i < items.len() ==> is_exact(#[trigger] items[i]),
        Json::Record(entries) => forall|i: int|
            0 <= i < entries.len() ==> is_exact((#[trigger] entries[i]).1),
        _ => true,
    }
}

/// Every value is like itself.
pub proof fn lemma_alike_itself(a: Json)
    ensures
        alike(a, a),
    decreases a,
{
    match a {
        Json::List(x) => {
            assert forall|i: int| 0 <= i < x.len() implies alike(#[trigger] x[i], x[i]) by {
                lemma_alike_itself(x[i]);
            }
        },
        Json::Record(x) => {
            assert forall|i: int| 0 <= i < x.len() implies (#[trigger] x[i]).0 == x[i].0 && alike(
                x[i].1,
                x[i].1,
            ) by {
                assert(decreases_to!(x => x[i]));
                lemma_alike_itself(x[i].1);
            }
        },
        _ => {},
    }
}

/// Values without decimal numbers are alike exactly where they are equal.
pub proof fn lemma_alike_exactly(a: Json, b: Json)
    requires
        is_exact(a),
    ensures
        alike(a, b) <==> a == b,
    decreases a,
{
    lemma_alike_itself(a);
    if alike(a, b) {
        match (a, b) {
            (Json::List(x), Json::List(y)) => {
                assert forall|i: int| 0 <= i < x.len() implies x[i] == y[i] by {
                    assert(is_exact(x[i]));
                    assert(alike(x[i], y[i]));
                    lemma_alike_exactly(x[i], y[i]);
                }
                assert(x =~= y);
            },
            (Json::Record(x), Json::Record(y)) => {
                assert forall|i: int| 0 <= i < x.len() implies x[i] == y[i] by {
                    assert(decreases_to!(x => x[i]));
                    assert(is_exact(x[i].1));
                    assert(x[i].0 == y[i].0 && alike(x[i].1, y[i].1));
                    lemma_alike_exactly(x[i].1, y[i].1);
                }
                assert(x =~= y);
            },
            _ => {},
        }
    }
}

/// Options are alike exactly where both are missing or both are there and alike.
pub proof fn lemma_alike_options(a: Option<Json>, b: Option<Json>)
    ensures
        alike_options(a, a),
        alike_options(a, b) ==> (a is Some <==> b is Some),
        a is Some && is_exact(a->0) ==> (alike_options(a, b) <==> a == b),
{
    if let Some(x) = a {
        lemma_alike_itself(x);
        if let Some(y) = b {
            if is_exact(x) {
                lemma_alike_exactly(x, y);
            }
        }
    }
}

} // verus!
