//! The tool call in the answer of a model, however the model wrote it.
use crate::compose;
use crate::compose::decimal_text;
use crate::config::literals;
use crate::config::literals::{extract_balanced_json_snippet, truncate_for_error};
use crate::config::markup;
use crate::config::markup::{
    extract_delimited_call, extract_markdown_json_blocks, extract_tag_attribute, extract_tag_block,
    extract_tool_call_tag_bodies, parse_kimi_tool_name,
};
use crate::config::schema;
use crate::config::schema::{parse_json_arguments, validate_structured_arguments};
use crate::failure;
use crate::failure::Failure;
use crate::json;
use crate::json::{json_text, put_entry, take_entry, Entries, Json, JsonValue};
use crate::search;
use crate::text;
use crate::text::{same, trim};
use vstd::prelude::*;

verus! {

// ---------------------------------------------------------------------------
// Requests and responses
// ---------------------------------------------------------------------------
/// A tool that a model may call: its name, what it is for, and the schema of its arguments.
#[derive(Debug)]
pub struct ToolSpec {
    pub name: String,
    pub description: String,
    pub parameters: JsonValue,
}

/// A tool call as the provider reports it, with its arguments as JSON text.
#[derive(Debug)]
pub struct ToolCall {
    pub id: String,
    pub name: String,
    pub arguments: String,
}

/// The token counts that a provider reports.
#[derive(Debug, Clone, Copy)]
pub struct TokenUsage {
    pub input_tokens: Option<u64>,
    pub output_tokens: Option<u64>,
}

#[derive(Debug)]
pub struct ChatResponse {
    pub text: Option<String>,
    pub tool_calls: Vec<ToolCall>,
    pub usage: Option<TokenUsage>,
    pub reasoning_content: Option<String>,
}

/// A call that was read: the tool that is called, and its arguments.
pub type CallModel = (Seq<char>, Json);

pub open spec fn call_model(call: Option<(String, JsonValue)>) -> Option<CallModel> {
    match call {
        Some(c) => Some((c.0@, c.1@)),
        None => None,
    }
}

// ---------------------------------------------------------------------------
// Envelopes
// ---------------------------------------------------------------------------
/// The value under the first of the keys that is there, and the entries without it.
pub open spec fn taken(entries: Entries, keys: Seq<Seq<char>>) -> (Option<Json>, Entries)
    decreases keys.len(),
{
    if keys.len() == 0 {
        (None, entries)
    } else if json::has_key(entries, keys[0]) {
        (json::entry(entries, keys[0]), json::without_key(entries, keys[0]))
    } else {
        taken(entries, keys.drop_first())
    }
}

/// The keys under which an envelope holds the arguments.
pub open spec fn argument_keys() -> Seq<Seq<char>> {
    seq!["arguments"@, "parameters"@, "params"@]
}

/// The keys under which an envelope holds the name of the tool.
pub open spec fn name_keys() -> Seq<Seq<char>> {
    seq!["name"@, "tool_name"@, "tool"@]
}

/// The arguments that the value stands for: text is read as JSON.
pub open spec fn opened(value: Option<Json>, tool: Seq<char>) -> Option<Json> {
    match value {
        None => None,
        Some(Json::Text(raw)) => match schema::parsed_arguments(raw, tool) {
            Ok(arguments) => Some(arguments),
            Err(_) => None,
        },
        Some(other) => Some(other),
    }
}

/// The name that the value gives, or that of the tool itself.
pub open spec fn name_or(value: Option<Json>, tool: Seq<char>) -> Seq<char> {
    match json::text_of(value) {
        Some(name) => name,
        None => tool,
    }
}

/// The call that stands under `function`: without arguments of its own, the entries that are
/// left are the arguments.
pub open spec fn function_call(function: Entries, tool: Seq<char>) -> Option<CallModel> {
    let (name_value, nameless) = taken(function, seq!["name"@]);
    let name = name_or(name_value, tool);
    let (arguments, rest) = taken(nameless, seq!["arguments"@, "parameters"@]);
    if name != tool {
        None
    } else {
        match opened(arguments, tool) {
            Some(value) => Some((name, value)),
            None => if rest.len() == 0 {
                None
            } else {
                Some((name, Json::Record(rest)))
            },
        }
    }
}

/// The call that stands under `tool_call` or `call`.
pub open spec fn nested_call(call: Entries, tool: Seq<char>) -> Option<CallModel> {
    let (name_value, nameless) = taken(call, name_keys());
    let name = name_or(name_value, tool);
    if name != tool {
        None
    } else {
        match opened(taken(nameless, argument_keys()).0, tool) {
            Some(value) => Some((name, value)),
            None => None,
        }
    }
}

/// The call inside the envelope, if the entries are one, and what is left of the entries.
pub open spec fn unwrapped(map: Entries, tool: Seq<char>) -> (Option<CallModel>, Entries) {
    let (function, without_function) = taken(map, seq!["function"@]);
    let (call, without_call) = taken(map, seq!["tool_call"@, "call"@]);
    if function is Some {
        match json::entries_of(function) {
            Some(inner) => (function_call(inner, tool), without_function),
            None => (None, without_function),
        }
    } else if call is Some {
        match json::entries_of(call) {
            Some(inner) => (nested_call(inner, tool), without_call),
            None => (None, without_call),
        }
    } else if name_or(taken(map, name_keys()).0, tool) != tool {
        (None, map)
    } else {
        let (arguments, rest) = taken(map, argument_keys());
        match opened(arguments, tool) {
            Some(value) => (Some((tool, value)), rest),
            None => (None, rest),
        }
    }
}

/// The call that arguments written as text stand for.
pub open spec fn normalized(arguments: Json, tool: Seq<char>) -> CallModel {
    match arguments {
        Json::Record(map) => match unwrapped(map, tool).0 {
            Some(call) => call,
            None => (tool, Json::Record(unwrapped(map, tool).1)),
        },
        _ => (tool, arguments),
    }
}

fn take_one(entries: &mut Vec<(String, JsonValue)>, key: &str) -> (res: Option<JsonValue>)
    ensures
        json::option_model(res) == taken(json::entries_model(old(entries)@), seq![key@]).0,
        json::entries_model(final(entries)@) == taken(
            json::entries_model(old(entries)@),
            seq![key@],
        ).1,
{
    proof {
        reveal_with_fuel(taken, 2);
        json::lemma_key(json::entries_model(entries@), key@);
        assert(seq![key@].drop_first() =~= Seq::empty());
    }
    take_entry(entries, key)
}

fn take_either(entries: &mut Vec<(String, JsonValue)>, first: &str, second: &str) -> (res: Option<
    JsonValue,
>)
    ensures
        json::option_model(res) == taken(
            json::entries_model(old(entries)@),
            seq![first@, second@],
        ).0,
        json::entries_model(final(entries)@) == taken(
            json::entries_model(old(entries)@),
            seq![first@, second@],
        ).1,
{
    proof {
        json::lemma_key(json::entries_model(entries@), first@);
        assert(seq![first@, second@].drop_first() =~= seq![second@]);
    }
    match take_entry(entries, first) {
        Some(value) => Some(value),
        None => take_one(entries, second),
    }
}

fn take_any(
    entries: &mut Vec<(String, JsonValue)>,
    first: &str,
    second: &str,
    third: &str,
) -> (res: Option<JsonValue>)
    ensures
        json::option_model(res) == taken(
            json::entries_model(old(entries)@),
            seq![first@, second@, third@],
        ).0,
        json::entries_model(final(entries)@) == taken(
            json::entries_model(old(entries)@),
            seq![first@, second@, third@],
        ).1,
{
    proof {
        json::lemma_key(json::entries_model(entries@), first@);
        assert(seq![first@, second@, third@].drop_first() =~= seq![second@, third@]);
    }
    match take_entry(entries, first) {
        Some(value) => Some(value),
        None => take_either(entries, second, third),
    }
}

fn copy_entries(entries: &Vec<(String, JsonValue)>) -> (res: Vec<(String, JsonValue)>)
    ensures
        json::entries_model(res@) == json::entries_model(entries@),
{
    let mut out: Vec<(String, JsonValue)> = Vec::new();
    let mut i: usize = 0;
    while i < entries.len()
        invariant
            i <= entries.len(),
            json::entries_model(out@) == json::entries_model(entries@).take(i as int),
        decreases entries.len() - i,
    {
        let ghost before = json::entries_model(out@);
        let key = entries[i].0.clone();
        let value = entries[i].1.copied();
        out.push((key, value));
        assert(json::entries_model(out@) =~= before.push((key@, value@)));
        assert(json::entries_model(entries@)[i as int] == (key@, value@));
        i += 1;
    }
    assert(json::entries_model(entries@).take(entries@.len() as int) =~= json::entries_model(
        entries@,
    ));
    out
}

/// Reads the value as the arguments of the tool; text is read as JSON.
pub fn coerce_textual_argument_value(value: Option<JsonValue>, tool_name: &str) -> (res: Option<
    JsonValue,
>)
    ensures
        json::option_model(res) == opened(json::option_model(value), tool_name@),
{
    match value {
        None => None,
        Some(JsonValue::Text(raw_json)) => match parse_json_arguments(
            raw_json.as_str(),
            tool_name,
        ) {
            Ok(arguments) => Some(arguments),
            Err(_) => None,
        },
        Some(other) => Some(other),
    }
}

fn name_in(value: Option<JsonValue>, tool_name: &str) -> (res: String)
    ensures
        res@ == name_or(json::option_model(value), tool_name@),
{
    match value {
        Some(JsonValue::Text(name)) => name,
        _ => tool_name.to_owned(),
    }
}

fn unwrap_function(function: &mut Vec<(String, JsonValue)>, tool_name: &str) -> (res: Option<
    (String, JsonValue),
>)
    ensures
        call_model(res) == function_call(json::entries_model(old(function)@), tool_name@),
{
    let name_value: Option<JsonValue> = take_one(function, "name");
    let name: String = name_in(name_value, tool_name);
    if !same(name.as_str(), tool_name) {
        return None;
    }
    let arguments: Option<JsonValue> = take_either(function, "arguments", "parameters");
    match coerce_textual_argument_value(arguments, tool_name) {
        Some(value) => Some((name, value)),
        None => if function.len() == 0 {
            None
        } else {
            let rest: Vec<(String, JsonValue)> = copy_entries(function);
            proof {
                json::lemma_entries(rest);
            }
            Some((name, JsonValue::Object(rest)))
        },
    }
}

fn unwrap_nested(call: &mut Vec<(String, JsonValue)>, tool_name: &str) -> (res: Option<
    (String, JsonValue),
>)
    ensures
        call_model(res) == nested_call(json::entries_model(old(call)@), tool_name@),
{
    let name_value: Option<JsonValue> = take_any(call, "name", "tool_name", "tool");
    let name: String = name_in(name_value, tool_name);
    if !same(name.as_str(), tool_name) {
        return None;
    }
    let arguments: Option<JsonValue> = take_any(call, "arguments", "parameters", "params");
    match coerce_textual_argument_value(arguments, tool_name) {
        Some(value) => Some((name, value)),
        None => None,
    }
}

fn first_of<'a>(
    entries: &'a Vec<(String, JsonValue)>,
    first: &str,
    second: &str,
    third: &str,
) -> (res: Option<&'a JsonValue>)
    ensures
        taken(json::entries_model(entries@), seq![first@, second@, third@]).0 == match res {
            Some(value) => Some(value@),
            None => None,
        },
{
    proof {
        reveal_with_fuel(taken, 4);
        let all = json::entries_model(entries@);
        json::lemma_key(all, first@);
        json::lemma_key(all, second@);
        json::lemma_key(all, third@);
        assert(seq![first@, second@, third@].drop_first() =~= seq![second@, third@]);
        assert(seq![second@, third@].drop_first() =~= seq![third@]);
        assert(seq![third@].drop_first() =~= Seq::empty());
    }
    match json::get_entry(entries.as_slice(), first) {
        Some(value) => Some(value),
        None => match json::get_entry(entries.as_slice(), second) {
            Some(value) => Some(value),
            None => json::get_entry(entries.as_slice(), third),
        },
    }
}

/// Looks for the call inside an envelope. What the envelope held of it is taken out.
pub fn unwrap_textual_tool_envelope(map: &mut Vec<(String, JsonValue)>, tool_name: &str) -> (res:
    Option<(String, JsonValue)>)
    ensures
        call_model(res) == unwrapped(json::entries_model(old(map)@), tool_name@).0,
        json::entries_model(final(map)@) == unwrapped(
            json::entries_model(old(map)@),
            tool_name@,
        ).1,
{
    if let Some(function) = take_one(map, "function") {
        return match function {
            JsonValue::Object(inner) => {
                proof {
                    json::lemma_entries(inner);
                }
                let mut entries: Vec<(String, JsonValue)> = inner;
                unwrap_function(&mut entries, tool_name)
            },
            _ => None,
        };
    }
    proof {
        lemma_untouched(json::entries_model(old(map)@), seq!["function"@]);
    }
    if let Some(tool_call) = take_either(map, "tool_call", "call") {
        return match tool_call {
            JsonValue::Object(inner) => {
                proof {
                    json::lemma_entries(inner);
                }
                let mut entries: Vec<(String, JsonValue)> = inner;
                unwrap_nested(&mut entries, tool_name)
            },
            _ => None,
        };
    }
    proof {
        lemma_untouched(json::entries_model(old(map)@), seq!["tool_call"@, "call"@]);
    }
    let is_other_tool: bool = match first_of(map, "name", "tool_name", "tool") {
        Some(JsonValue::Text(name)) => !same(name.as_str(), tool_name),
        _ => false,
    };
    if is_other_tool {
        return None;
    }
    let arguments: Option<JsonValue> = take_any(map, "arguments", "parameters", "params");
    match coerce_textual_argument_value(arguments, tool_name) {
        Some(value) => Some((tool_name.to_owned(), value)),
        None => None,
    }
}

/// Where none of the keys is there, nothing is taken.
proof fn lemma_untouched(entries: Entries, keys: Seq<Seq<char>>)
    ensures
        taken(entries, keys).0 is None ==> taken(entries, keys).1 == entries,
    decreases keys.len(),
{
    if keys.len() > 0 {
        json::lemma_key(entries, keys[0]);
        lemma_untouched(entries, keys.drop_first());
    }
}

pub fn normalize_textual_structured_arguments(arguments: JsonValue, tool_name: &str) -> (res: (
    String,
    JsonValue,
))
    ensures
        (res.0@, res.1@) == normalized(arguments@, tool_name@),
{
    match arguments {
        JsonValue::Object(map) => {
            proof {
                json::lemma_entries(map);
            }
            let mut entries: Vec<(String, JsonValue)> = map;
            match unwrap_textual_tool_envelope(&mut entries, tool_name) {
                Some(call) => call,
                None => {
                    proof {
                        json::lemma_entries(entries);
                    }
                    (tool_name.to_owned(), JsonValue::Object(entries))
                },
            }
        },
        other => (tool_name.to_owned(), other),
    }
}

// ---------------------------------------------------------------------------
// Calls written as text
// ---------------------------------------------------------------------------
/// The call that the text stands for if it is JSON.
pub open spec fn json_call(candidate: Seq<char>, tool: Seq<char>) -> Option<CallModel> {
    match schema::parsed_arguments(candidate, tool) {
        Ok(arguments) => Some(normalized(arguments, tool)),
        Err(_) => None,
    }
}

/// The arguments that the parameter blocks of the text add to the entries, or none where one of
/// them has no name or no JSON value.
pub open spec fn invoke_arguments(body: Seq<char>, tool: Seq<char>, found: Entries) -> Option<
    Entries,
>
    decreases body.len(),
{
    match markup::tag_block(body, "parameter"@) {
        None => Some(found),
        Some(block) => match (
            markup::tag_attribute(block.tag, "name"@),
            schema::parsed_arguments(block.body, tool),
        ) {
            (Some(name), Ok(value)) => {
                proof {
                    markup::lemma_block_rest(body, "parameter"@);
                }
                invoke_arguments(block.rest, tool, json::with_entry(found, name, value))
            },
            _ => None,
        },
    }
}

/// The call in an invoke block of the text.
pub open spec fn invoke_call(s: Seq<char>, tool: Seq<char>) -> Option<CallModel> {
    match markup::tag_block(s, "invoke"@) {
        None => None,
        Some(block) => if markup::tag_attribute(block.tag, "name"@) == Some(tool) {
            match invoke_arguments(block.body, tool, Seq::empty()) {
                Some(arguments) => if arguments.len() == 0 {
                    None
                } else {
                    Some((tool, Json::Record(arguments)))
                },
                None => None,
            }
        } else {
            None
        },
    }
}

/// The call in the JSON text that the text holds somewhere.
pub open spec fn snippet_call(candidate: Seq<char>, tool: Seq<char>) -> Option<CallModel> {
    match literals::balanced_snippet(candidate) {
        Some(snippet) => json_call(snippet, tool),
        None => None,
    }
}

/// The call in a part of an answer: JSON, an invoke block, or JSON somewhere inside.
pub open spec fn candidate_call(candidate: Seq<char>, tool: Seq<char>) -> Option<CallModel> {
    if json_call(candidate, tool) is Some {
        json_call(candidate, tool)
    } else if invoke_call(candidate, tool) is Some {
        invoke_call(candidate, tool)
    } else {
        snippet_call(candidate, tool)
    }
}

/// The call in the first of the parts that holds one.
pub open spec fn first_call(candidates: Seq<Seq<char>>, tool: Seq<char>) -> Option<CallModel>
    decreases candidates.len(),
{
    if candidates.len() == 0 {
        None
    } else if candidate_call(candidates[0], tool) is Some {
        candidate_call(candidates[0], tool)
    } else {
        first_call(candidates.drop_first(), tool)
    }
}

/// The call between delimiters.
pub open spec fn delimited_call(s: Seq<char>, tool: Seq<char>) -> Option<CallModel> {
    match markup::delimited_call(s) {
        None => None,
        Some(parts) => if markup::called_tool(parts.header) == Some(tool) {
            if json_call(parts.arguments, tool) is Some {
                json_call(parts.arguments, tool)
            } else {
                snippet_call(parts.arguments, tool)
            }
        } else {
            None
        },
    }
}

/// The call that an answer without a native tool call holds in its text.
pub open spec fn textual_call(s: Seq<char>, tool: Seq<char>) -> Option<CallModel> {
    let parts = markup::tool_call_bodies(s) + markup::json_blocks(s);
    if delimited_call(s, tool) is Some {
        delimited_call(s, tool)
    } else if first_call(parts, tool) is Some {
        first_call(parts, tool)
    } else {
        json_call(text::trimmed(s), tool)
    }
}

/// Reads a call from text that is JSON.
pub fn parse_raw_json_text_candidate(candidate: &str, tool_name: &str) -> (res: Option<
    (String, JsonValue),
>)
    ensures
        call_model(res) == json_call(candidate@, tool_name@),
{
    match parse_json_arguments(candidate, tool_name) {
        Ok(arguments) => Some(normalize_textual_structured_arguments(arguments, tool_name)),
        Err(_) => None,
    }
}

pub fn parse_minimax_invoke_payload(source: &str, tool_name: &str) -> (res: Option<
    (String, JsonValue),
>)
    ensures
        call_model(res) == invoke_call(source@, tool_name@),
{
    let block = match extract_tag_block(source, "invoke") {
        Some(block) => block,
        None => {
            return None;
        },
    };
    match extract_tag_attribute(block.tag.as_str(), "name") {
        Some(name) => {
            if !same(name.as_str(), tool_name) {
                return None;
            }
        },
        None => {
            return None;
        },
    }
    let mut arguments: Vec<(String, JsonValue)> = Vec::new();
    let mut remaining: String = block.body;
    let ghost outcome = invoke_arguments(block.body@, tool_name@, Seq::empty());
    assert(json::entries_model(arguments@) =~= Seq::empty());
    loop
        invariant
            outcome == invoke_arguments(
                remaining@,
                tool_name@,
                json::entries_model(arguments@),
            ),
            invoke_call(source@, tool_name@) == match outcome {
                Some(found) => if found.len() == 0 {
                    None
                } else {
                    Some((tool_name@, Json::Record(found)))
                },
                None => None,
            },
        decreases remaining@.len(),
    {
        match extract_tag_block(remaining.as_str(), "parameter") {
            None => {
                return if arguments.len() == 0 {
                    None
                } else {
                    proof {
                        json::lemma_entries(arguments);
                    }
                    Some((tool_name.to_owned(), JsonValue::Object(arguments)))
                };
            },
            Some(parameter) => {
                proof {
                    markup::lemma_block_rest(remaining@, "parameter"@);
                }
                let name = match extract_tag_attribute(parameter.tag.as_str(), "name") {
                    Some(name) => name,
                    None => {
                        return None;
                    },
                };
                match parse_json_arguments(parameter.body.as_str(), tool_name) {
                    Ok(value) => {
                        put_entry(&mut arguments, name, value);
                    },
                    Err(_) => {
                        return None;
                    },
                }
                remaining = parameter.rest;
            },
        }
    }
}

fn parse_snippet(candidate: &str, tool_name: &str) -> (res: Option<(String, JsonValue)>)
    ensures
        call_model(res) == snippet_call(candidate@, tool_name@),
{
    match extract_balanced_json_snippet(candidate) {
        Some(snippet) => parse_raw_json_text_candidate(snippet.as_str(), tool_name),
        None => None,
    }
}

pub fn parse_textual_structured_call_candidate(candidate: &str, tool_name: &str) -> (res: Option<
    (String, JsonValue),
>)
    ensures
        call_model(res) == candidate_call(candidate@, tool_name@),
{
    if let Some(call) = parse_raw_json_text_candidate(candidate, tool_name) {
        return Some(call);
    }
    if let Some(call) = parse_minimax_invoke_payload(candidate, tool_name) {
        return Some(call);
    }
    parse_snippet(candidate, tool_name)
}

pub fn parse_kimi_tool_call_payload(source: &str, tool_name: &str) -> (res: Option<
    (String, JsonValue),
>)
    requires
        markup::markers_in_order(source@),
    ensures
        call_model(res) == delimited_call(source@, tool_name@),
{
    let parts = match extract_delimited_call(source) {
        Some(parts) => parts,
        None => {
            return None;
        },
    };
    match parse_kimi_tool_name(parts.header.as_str()) {
        Some(name) => {
            if !same(name.as_str(), tool_name) {
                return None;
            }
        },
        None => {
            return None;
        },
    }
    if let Some(call) = parse_raw_json_text_candidate(parts.arguments.as_str(), tool_name) {
        return Some(call);
    }
    parse_snippet(parts.arguments.as_str(), tool_name)
}

fn parse_first_candidate(candidates: &Vec<String>, tool_name: &str) -> (res: Option<
    (String, JsonValue),
>)
    ensures
        call_model(res) == first_call(candidates.deep_view(), tool_name@),
{
    let ghost all = candidates.deep_view();
    let mut i: usize = 0;
    assert(all.skip(0) == all);
    while i < candidates.len()
        invariant
            i <= candidates.len(),
            all == candidates.deep_view(),
            first_call(all, tool_name@) == first_call(all.skip(i as int), tool_name@),
        decreases candidates.len() - i,
    {
        proof {
            assert(all.skip(i as int)[0] == candidates@[i as int]@);
            assert(all.skip(i as int).drop_first() == all.skip(i as int + 1));
        }
        if let Some(call) = parse_textual_structured_call_candidate(
            candidates[i].as_str(),
            tool_name,
        ) {
            return Some(call);
        }
        i += 1;
    }
    None
}

/// Looks for the call of the tool in the text of an answer.
pub fn parse_textual_structured_call(source: &str, tool_name: &str) -> (res: Option<
    (String, JsonValue),
>)
    requires
        markup::markers_in_order(source@),
    ensures
        call_model(res) == textual_call(source@, tool_name@),
{
    if let Some(call) = parse_kimi_tool_call_payload(source, tool_name) {
        return Some(call);
    }
    let mut candidates: Vec<String> = extract_tool_call_tag_bodies(source);
    let mut blocks: Vec<String> = extract_markdown_json_blocks(source);
    let ghost bodies = candidates.deep_view();
    let ghost fenced = blocks.deep_view();
    candidates.append(&mut blocks);
    assert(candidates.deep_view() =~= bodies + fenced);
    if let Some(call) = parse_first_candidate(&candidates, tool_name) {
        return Some(call);
    }
    parse_raw_json_text_candidate(trim(source).as_str(), tool_name)
}

// ---------------------------------------------------------------------------
// Responses
// ---------------------------------------------------------------------------
/// The text of the response can be searched for a call. Responses with native calls are not
/// searched.
pub open spec fn is_readable(response: ChatResponse) -> bool {
    response.tool_calls@.len() == 0 ==> match response.text {
        Some(text) => markup::markers_in_order(text@),
        None => true,
    }
}

/// The call that the response holds in its text, where it has no native call.
pub open spec fn response_text_call(response: ChatResponse, tool: Seq<char>) -> Option<CallModel> {
    match response.text {
        Some(text) => if response.tool_calls@.len() == 0 {
            textual_call(text@, tool)
        } else {
            None
        },
        None => None,
    }
}

pub open spec fn text_or_empty(response: ChatResponse) -> Seq<char> {
    match response.text {
        Some(text) => text@,
        None => ""@,
    }
}

/// A call whose arguments meet the schema of the tool, or why they do not.
pub open spec fn accepted_call(call: CallModel, tool: ToolSpec) -> Result<
    CallModel,
    Seq<Seq<char>>,
> {
    match schema::accepted(call.1, tool.parameters@, tool.name@) {
        Ok(arguments) => Ok((call.0, arguments)),
        Err(error) => Err(error),
    }
}

/// The call of the tool that the response makes, or why it makes none.
pub open spec fn structured_call(response: ChatResponse, tool: ToolSpec) -> Result<
    CallModel,
    Seq<Seq<char>>,
> {
    match response_text_call(response, tool.name@) {
        Some(call) => accepted_call(call, tool),
        None => if response.tool_calls@.len() != 1 {
            Err(
                failure::plain(
                    "expected exactly one tool call named `"@ + tool.name@ + "`, received "@
                        + compose::decimal(response.tool_calls@.len())
                        + " tool calls and text payload `"@ + literals::excerpt(
                        text_or_empty(response),
                    ) + "`"@,
                ),
            )
        } else {
            let call = response.tool_calls@[0];
            if call.name@ != tool.name@ {
                Err(
                    failure::plain(
                        "expected tool call `"@ + tool.name@ + "`, received `"@ + call.name@
                            + "`"@,
                    ),
                )
            } else {
                match schema::parsed_arguments(call.arguments@, tool.name@) {
                    Ok(arguments) => accepted_call((call.name@, arguments), tool),
                    Err(error) => Err(error),
                }
            }
        },
    }
}

/// Tells whether `parse_structured_call` can read the response.
pub fn response_is_readable(response: &ChatResponse) -> (res: bool)
    ensures
        res == is_readable(*response),
{
    if response.tool_calls.len() > 0 {
        return true;
    }
    match &response.text {
        Some(text) => markup::tool_call_markers_in_order(text.as_str()),
        None => true,
    }
}

/// Reads the call of the tool from the response. Its arguments meet the schema of the tool.
pub fn parse_structured_call(response: &ChatResponse, tool: &ToolSpec) -> (res: Result<
    (String, JsonValue),
    Failure,
>)
    requires
        is_readable(*response),
    ensures
        structured_call(*response, *tool) == match res {
            Ok(call) => Ok::<CallModel, Seq<Seq<char>>>((call.0@, call.1@)),
            Err(error) => Err::<CallModel, Seq<Seq<char>>>(error@),
        },
{
    if response.tool_calls.len() == 0 {
        if let Some(text) = &response.text {
            if let Some((tool_name, arguments)) = parse_textual_structured_call(
                text.as_str(),
                tool.name.as_str(),
            ) {
                return match validate_structured_arguments(
                    &arguments,
                    &tool.parameters,
                    tool.name.as_str(),
                ) {
                    Ok(value) => Ok((tool_name, value)),
                    Err(error) => Err(error),
                };
            }
        }
    }
    if response.tool_calls.len() != 1 {
        let mut message = "expected exactly one tool call named `".to_owned();
        message.append(tool.name.as_str());
        message.append("`, received ");
        message.append(decimal_text(response.tool_calls.len() as u64).as_str());
        message.append(" tool calls and text payload `");
        match &response.text {
            Some(text) => {
                message.append(truncate_for_error(text.as_str()).as_str());
            },
            None => {
                message.append(truncate_for_error("").as_str());
            },
        }
        message.append("`");
        return Err(Failure::new(message));
    }
    let tool_call = &response.tool_calls[0];
    if !same(tool_call.name.as_str(), tool.name.as_str()) {
        let mut message = "expected tool call `".to_owned();
        message.append(tool.name.as_str());
        message.append("`, received `");
        message.append(tool_call.name.as_str());
        message.append("`");
        return Err(Failure::new(message));
    }
    match parse_json_arguments(tool_call.arguments.as_str(), tool.name.as_str()) {
        Ok(arguments) => match validate_structured_arguments(
            &arguments,
            &tool.parameters,
            tool.name.as_str(),
        ) {
            Ok(value) => Ok((tool_call.name.clone(), value)),
            Err(error) => Err(error),
        },
        Err(error) => Err(error),
    }
}

// ---------------------------------------------------------------------------
// Retries
// ---------------------------------------------------------------------------
/// The system prompt of an attempt: after the first one it says what was wrong.
pub open spec fn retry_prompt(base: Seq<char>, tool: ToolSpec, attempt: nat) -> Seq<char> {
    if attempt == 0 {
        base
    } else {
        base + "\n\nFORMAT CORRECTION REQUIRED #"@ + compose::decimal(attempt)
            + ":\nYour previous response did not use the required structured output.\nYou must respond by calling exactly one native tool named `"@
            + tool.name@
            + "`.\nDo not return plain text, markdown fences, or explanations.\nTool arguments must match this JSON schema exactly: "@
            + json::rendered_json(tool.parameters@) + "\n"@
    }
}

pub fn build_format_retry_prompt(base_prompt: &str, tool: &ToolSpec, format_attempt: u64) -> (res:
    String)
    ensures
        res@ == retry_prompt(base_prompt@, *tool, format_attempt as nat),
{
    let mut prompt = base_prompt.to_owned();
    if format_attempt == 0 {
        return prompt;
    }
    prompt.append("\n\nFORMAT CORRECTION REQUIRED #");
    prompt.append(decimal_text(format_attempt).as_str());
    prompt.append(
        ":\nYour previous response did not use the required structured output.\nYou must respond by calling exactly one native tool named `",
    );
    prompt.append(tool.name.as_str());
    prompt.append(
        "`.\nDo not return plain text, markdown fences, or explanations.\nTool arguments must match this JSON schema exactly: ",
    );
    prompt.append(json_text(&tool.parameters).as_str());
    prompt.append("\n");
    prompt
}

// ---------------------------------------------------------------------------
// Laws
// ---------------------------------------------------------------------------
/// A response with exactly one native call of the tool makes the call with its own arguments, if
/// they are accepted; the text beside it does not count.
pub proof fn lemma_native_call(response: ChatResponse, tool: ToolSpec)
    requires
        response.tool_calls@.len() > 0,
    ensures
        ({
            let made = structured_call(response, tool);
            let given = schema::parsed_arguments(
                response.tool_calls@[0].arguments@,
                tool.name@,
            );
            let is_wanted = response.tool_calls@.len() == 1 && response.tool_calls@[0].name@
                == tool.name@;
            &&& made is Ok <==> is_wanted && given is Ok && schema::accepted(
                given->Ok_0,
                tool.parameters@,
                tool.name@,
            ) is Ok
            &&& made matches Ok(call) ==> call.0 == tool.name@ && schema::accepted(
                given->Ok_0,
                tool.parameters@,
                tool.name@,
            ) == Ok::<Json, Seq<Seq<char>>>(call.1)
        }),
{
}

/// Without any call, native or in its text, a response is refused.
pub proof fn lemma_no_call(response: ChatResponse, tool: ToolSpec)
    requires
        response.tool_calls@.len() == 0,
        response.text matches Some(text) ==> textual_call(text@, tool.name@) is None,
    ensures
        structured_call(response, tool) is Err,
{
}

/// The call is that of the first part that holds one.
pub proof fn lemma_first_call(candidates: Seq<Seq<char>>, tool: Seq<char>, i: int)
    requires
        0 <= i <= candidates.len(),
        forall|j: int| 0 <= j < i ==> candidate_call(#[trigger] candidates[j], tool) is None,
        i < candidates.len() ==> candidate_call(candidates[i], tool) is Some,
    ensures
        first_call(candidates, tool) == if i < candidates.len() {
            candidate_call(candidates[i], tool)
        } else {
            None
        },
    decreases candidates.len(),
{
    if i > 0 {
        let rest = candidates.drop_first();
        assert(candidate_call(candidates[0], tool) is None);
        assert forall|j: int| 0 <= j < i - 1 implies candidate_call(
            #[trigger] rest[j],
            tool,
        ) is None by {
            assert(rest[j] == candidates[j + 1]);
        }
        assert(i < candidates.len() ==> rest[i - 1] == candidates[i]);
        lemma_first_call(rest, tool, i - 1);
    }
}

/// None of the keys is there.
pub open spec fn lacks(entries: Entries, keys: Seq<Seq<char>>) -> bool {
    forall|i: int| 0 <= i < keys.len() ==> !json::has_key(entries, #[trigger] keys[i])
}

proof fn lemma_taken(entries: Entries, keys: Seq<Seq<char>>)
    requires
        lacks(entries, keys),
    ensures
        taken(entries, keys) == (None::<Json>, entries),
    decreases keys.len(),
{
    if keys.len() > 0 {
        let rest = keys.drop_first();
        assert(!json::has_key(entries, keys[0]));
        assert forall|i: int| 0 <= i < rest.len() implies !json::has_key(
            entries,
            #[trigger] rest[i],
        ) by {
            assert(rest[i] == keys[i + 1]);
        }
        lemma_taken(entries, rest);
    }
}

/// Arguments without the marks of an envelope are taken as they stand.
pub proof fn lemma_bare_arguments(map: Entries, tool: Seq<char>)
    requires
        lacks(map, seq!["function"@]),
        lacks(map, seq!["tool_call"@, "call"@]),
        lacks(map, seq!["name"@, "tool_name"@, "tool"@]),
        lacks(map, seq!["arguments"@, "parameters"@, "params"@]),
    ensures
        normalized(Json::Record(map), tool) == (tool, Json::Record(map)),
{
    lemma_taken(map, seq!["function"@]);
    lemma_taken(map, seq!["tool_call"@, "call"@]);
    lemma_taken(map, name_keys());
    lemma_taken(map, argument_keys());
}

/// Arguments that are no object are taken as they stand.
pub proof fn lemma_other_arguments(arguments: Json, tool: Seq<char>)
    requires
        !(arguments is Record),
    ensures
        normalized(arguments, tool) == (tool, arguments),
{
}

/// An envelope with the name of the tool, or with none, stands for the arguments that it holds; one
/// with another name is not opened.
pub proof fn lemma_envelope(map: Entries, tool: Seq<char>)
    requires
        lacks(map, seq!["function"@]),
        lacks(map, seq!["tool_call"@, "call"@]),
        json::has_key(map, "arguments"@),
        !(json::entry(map, "arguments"@)->0 is Text),
    ensures
        lacks(map, name_keys()) || json::entry(map, "name"@) == Some(Json::Text(tool))
            ==> normalized(Json::Record(map), tool) == (
            tool,
            json::entry(map, "arguments"@)->0,
        ),
        json::entry(map, "name"@) is Some && json::entry(map, "name"@)->0 is Text && json::entry(
            map,
            "name"@,
        ) != Some(Json::Text(tool)) ==> normalized(Json::Record(map), tool) == (
            tool,
            Json::Record(map),
        ),
{
    lemma_taken(map, seq!["function"@]);
    lemma_taken(map, seq!["tool_call"@, "call"@]);
    json::lemma_key(map, "arguments"@);
    json::lemma_key(map, "name"@);
    assert(argument_keys()[0] == "arguments"@);
    assert(name_keys()[0] == "name"@);
    if lacks(map, name_keys()) {
        lemma_taken(map, name_keys());
    }
}

/// A function envelope that names the tool stands for the arguments of the function.
pub proof fn lemma_function_envelope(map: Entries, function: Entries, tool: Seq<char>)
    requires
        json::entry(map, "function"@) == Some(Json::Record(function)),
        json::entry(function, "name"@) == Some(Json::Text(tool)),
        json::has_key(function, "arguments"@),
        !(json::entry(function, "arguments"@)->0 is Text),
    ensures
        normalized(Json::Record(map), tool) == (tool, json::entry(function, "arguments"@)->0),
{
    reveal_strlit("name");
    reveal_strlit("arguments");
    json::lemma_key(map, "function"@);
    json::lemma_key(function, "name"@);
    json::lemma_key(function, "arguments"@);
    assert("name"@.len() != "arguments"@.len());
    json::lemma_without_key(function, "name"@, "arguments"@);
    let nameless = json::without_key(function, "name"@);
    json::lemma_key(nameless, "arguments"@);
    assert(seq!["function"@][0] == "function"@);
    assert(seq!["name"@][0] == "name"@);
    assert(seq!["arguments"@, "parameters"@][0] == "arguments"@);
    assert(taken(function, seq!["name"@]).1 == nameless);
    assert(taken(nameless, seq!["arguments"@, "parameters"@]).0 == json::entry(
        function,
        "arguments"@,
    ));
}

/// The first attempt is made with the prompt as it is; each later one repeats it, counts the
/// attempts and names the tool and its schema.
pub proof fn lemma_retry_prompt(base: Seq<char>, tool: ToolSpec, attempt: nat)
    ensures
        retry_prompt(base, tool, 0) == base,
        search::starts_with(retry_prompt(base, tool, attempt), base),
        attempt > 0 ==> {
            let prompt = retry_prompt(base, tool, attempt);
            &&& search::contains(
                prompt,
                "\n\nFORMAT CORRECTION REQUIRED #"@ + compose::decimal(attempt),
            )
            &&& search::contains(prompt, tool.name@)
            &&& search::contains(prompt, json::rendered_json(tool.parameters@))
        },
{
    search::lemma_parts_found();
    let prompt = retry_prompt(base, tool, attempt);
    assert(prompt.take(base.len() as int) =~= base);
}

/// Text without any markup is read as JSON as a whole.
pub proof fn lemma_plain_text_call(s: Seq<char>, tool: Seq<char>)
    requires
        !s.contains('<'),
        !search::contains(s, "```"@),
        !search::contains(s, markup::TOOL_CALL_BEGIN@),
    ensures
        textual_call(s, tool) == json_call(text::trimmed(s), tool),
{
    markup::lemma_no_markup(s);
    let parts = markup::tool_call_bodies(s) + markup::json_blocks(s);
    assert(parts =~= Seq::empty());
    assert(first_call(parts, tool) is None);
}

/// A call in a fenced block is found, whatever stands before the block.
pub proof fn lemma_fenced_call(
    before: Seq<char>,
    body: Seq<char>,
    behind: Seq<char>,
    tool: Seq<char>,
)
    requires
        ({
            let s = before + "```"@ + ("json"@ + seq!['\n'] + (body + "```"@ + behind));
            &&& !s.contains('<')
            &&& !search::contains(s, markup::TOOL_CALL_BEGIN@)
            &&& search::first_occurrence(s, "```"@, before.len() as int)
        }),
        search::first_occurrence(body + "```"@ + behind, "```"@, body.len() as int),
        candidate_call(text::trimmed(body), tool) is Some,
    ensures
        textual_call(
            before + "```"@ + ("json"@ + seq!['\n'] + (body + "```"@ + behind)),
            tool,
        ) == candidate_call(text::trimmed(body), tool),
{
    let s = before + "```"@ + ("json"@ + seq!['\n'] + (body + "```"@ + behind));
    lemma_json_info();
    markup::lemma_no_markup(s);
    markup::lemma_json_block(before, "json"@, body, behind);
    let parts = markup::tool_call_bodies(s) + markup::json_blocks(s);
    assert(parts =~= markup::json_blocks(s));
    assert(parts[0] == text::trimmed(body));
    lemma_first_call(parts, tool, 0);
}

proof fn lemma_json_info()
    ensures
        !"json"@.contains('\n'),
        compose::lowered(text::trimmed("json"@)) == "json"@,
{
    reveal_strlit("json");
    assert("json"@ =~= seq!['j', 's', 'o', 'n']);
    text::lemma_trimmed_already("json"@);
    assert(compose::lowered("json"@) =~= "json"@);
    if "json"@.contains('\n') {
        let i = choose|i: int| 0 <= i < "json"@.len() && "json"@[i] == '\n';
        assert(i == 0 || i == 1 || i == 2 || i == 3);
    }
}

} // verus!
