//! The markup in which models wrap a tool call that they write as text.
use crate::compose;
use crate::compose::to_lower;
use crate::search;
use crate::search::{find_chars, has_text, position_chars, without_prefix};
use crate::text;
use crate::text::{chars_of, same, string_of, trim, trim_chars, CharClass};
use vstd::prelude::*;
use vstd::slice::slice_subrange;

verus! {

// ---------------------------------------------------------------------------
// Tags
// ---------------------------------------------------------------------------
pub open spec fn open_prefix(name: Seq<char>) -> Seq<char> {
    "<"@ + name
}

pub open spec fn close_tag(name: Seq<char>) -> Seq<char> {
    "</"@ + name + ">"@
}

/// A tag, what stands between it and its closing tag, and what follows that one.
#[verifier::ext_equal]
pub struct BlockModel {
    pub tag: Seq<char>,
    pub body: Seq<char>,
    pub rest: Seq<char>,
}

/// The first block of the text whose tag has the name.
pub open spec fn tag_block(s: Seq<char>, name: Seq<char>) -> Option<BlockModel> {
    match search::find(s, open_prefix(name)) {
        None => None,
        Some(open) => match search::position(s.skip(open), text::among(">"@)) {
            None => None,
            Some(width) => {
                let body_start = open + width + 1;
                match search::find(s.skip(body_start), close_tag(name)) {
                    None => None,
                    Some(body_len) => Some(
                        BlockModel {
                            tag: s.subrange(open, body_start),
                            body: text::trimmed(s.subrange(body_start, body_start + body_len)),
                            rest: s.skip(body_start + body_len + close_tag(name).len()),
                        },
                    ),
                }
            },
        },
    }
}

/// The value that the tag gives to the attribute, between double quotes.
pub open spec fn tag_attribute(tag: Seq<char>, name: Seq<char>) -> Option<Seq<char>> {
    match search::find(tag, name + "=\""@) {
        None => None,
        Some(at) => {
            let start = at + (name + "=\""@).len();
            match search::position(tag.skip(start), text::among("\""@)) {
                None => None,
                Some(width) => Some(tag.subrange(start, start + width)),
            }
        },
    }
}

pub struct TagBlock {
    pub tag: String,
    pub body: String,
    pub rest: String,
}

impl View for TagBlock {
    type V = BlockModel;

    open spec fn view(&self) -> BlockModel {
        BlockModel { tag: self.tag@, body: self.body@, rest: self.rest@ }
    }
}

/// What follows a block is shorter than the text that holds it.
pub proof fn lemma_block_rest(s: Seq<char>, name: Seq<char>)
    ensures
        tag_block(s, name) matches Some(block) ==> block.rest.len() < s.len(),
{
    search::lemma_find(s, open_prefix(name));
    if let Some(open) = search::find(s, open_prefix(name)) {
        search::lemma_position(s.skip(open), text::among(">"@));
        if let Some(width) = search::position(s.skip(open), text::among(">"@)) {
            search::lemma_find(s.skip(open + width + 1), close_tag(name));
        }
    }
}

pub fn extract_tag_block(source: &str, tag_name: &str) -> (res: Option<TagBlock>)
    ensures
        tag_block(source@, tag_name@) == match res {
            Some(block) => Some(block@),
            None => None,
        },
{
    let chars: Vec<char> = chars_of(source);
    let n: usize = chars.len();
    let mut prefix = "<".to_owned();
    prefix.append(tag_name);
    let mut closing = "</".to_owned();
    closing.append(tag_name);
    closing.append(">");
    let prefix_chars: Vec<char> = chars_of(prefix.as_str());
    let closing_chars: Vec<char> = chars_of(closing.as_str());
    let open: usize = match find_chars(chars.as_slice(), prefix_chars.as_slice()) {
        Some(i) => i,
        None => {
            return None;
        },
    };
    let tail = slice_subrange(chars.as_slice(), open, n);
    assert(tail@ == source@.skip(open as int));
    let width: usize = match position_chars(tail, CharClass::Among(">")) {
        Some(i) => i,
        None => {
            return None;
        },
    };
    let body_start: usize = open + width + 1;
    let after = slice_subrange(chars.as_slice(), body_start, n);
    assert(after@ == source@.skip(body_start as int));
    let body_len: usize = match find_chars(after, closing_chars.as_slice()) {
        Some(i) => i,
        None => {
            return None;
        },
    };
    assert(body_start + body_len + closing_chars@.len() <= n);
    let tag = slice_subrange(chars.as_slice(), open, body_start);
    let body = slice_subrange(chars.as_slice(), body_start, body_start + body_len);
    let rest = slice_subrange(chars.as_slice(), body_start + body_len + closing_chars.len(), n);
    assert(rest@ == source@.skip(body_start + body_len + closing_chars@.len()));
    Some(
        TagBlock {
            tag: string_of(tag),
            body: string_of(trim_chars(body, CharClass::White)),
            rest: string_of(rest),
        },
    )
}

pub fn extract_tag_attribute(tag: &str, attribute_name: &str) -> (res: Option<String>)
    ensures
        res.deep_view() == tag_attribute(tag@, attribute_name@),
{
    let chars: Vec<char> = chars_of(tag);
    let n: usize = chars.len();
    let mut prefix = attribute_name.to_owned();
    prefix.append("=\"");
    let prefix_chars: Vec<char> = chars_of(prefix.as_str());
    let at: usize = match find_chars(chars.as_slice(), prefix_chars.as_slice()) {
        Some(i) => i,
        None => {
            return None;
        },
    };
    assert(at + prefix_chars@.len() <= n);
    let start: usize = at + prefix_chars.len();
    let tail = slice_subrange(chars.as_slice(), start, n);
    assert(tail@ == tag@.skip(start as int));
    match position_chars(tail, CharClass::Among("\"")) {
        Some(width) => Some(string_of(slice_subrange(chars.as_slice(), start, start + width))),
        None => None,
    }
}

// ---------------------------------------------------------------------------
// Blocks one after the other
// ---------------------------------------------------------------------------
/// What a search from some position comes to: there is no further block, or the search goes on
/// at a later position, with a block that was found or without.
#[verifier::ext_equal]
pub enum StepModel {
    Done,
    Skip(int),
    Found(Seq<char>, int),
}

pub enum Step {
    Done,
    Skip(usize),
    Found(String, usize),
}

impl View for Step {
    type V = StepModel;

    open spec fn view(&self) -> StepModel {
        match *self {
            Step::Done => StepModel::Done,
            Step::Skip(next) => StepModel::Skip(next as int),
            Step::Found(body, next) => StepModel::Found(body@, next as int),
        }
    }
}

// ---------------------------------------------------------------------------
// Tool call tags
// ---------------------------------------------------------------------------
/// Looks for the first tag from the position on, and for its body where it names a tool call.
pub open spec fn tool_call_step(s: Seq<char>, start: int) -> StepModel {
    match search::position(s.skip(start), text::among("<"@)) {
        None => StepModel::Done,
        Some(skipped) => {
            let open = start + skipped;
            if open + 1 >= s.len() {
                StepModel::Done
            } else if s[open + 1] == '/' {
                StepModel::Skip(open + 1)
            } else {
                tool_call_tag(s, open)
            }
        },
    }
}

/// Reads the tag that opens at the position.
pub open spec fn tool_call_tag(s: Seq<char>, open: int) -> StepModel {
    match search::position(s.skip(open + 1), text::among("> \t\r\n"@)) {
        None => StepModel::Done,
        Some(name_len) => {
            let name = s.subrange(open + 1, open + 1 + name_len);
            if !search::contains(compose::lowered(name), "tool_call"@) {
                StepModel::Skip(open + 1 + name_len)
            } else {
                match search::position(s.skip(open), text::among(">"@)) {
                    None => StepModel::Done,
                    Some(width) => {
                        let body_start = open + width + 1;
                        match search::find(s.skip(body_start), close_tag(name)) {
                            None => StepModel::Skip(body_start),
                            Some(body_len) => StepModel::Found(
                                text::trimmed(s.subrange(body_start, body_start + body_len)),
                                body_start + body_len + close_tag(name).len(),
                            ),
                        }
                    },
                }
            }
        },
    }
}

/// The bodies of the blocks from the position on whose tag names a tool call.
pub open spec fn tool_call_bodies_from(s: Seq<char>, start: int) -> Seq<Seq<char>>
    decreases s.len() - start,
{
    match tool_call_step(s, start) {
        StepModel::Done => Seq::empty(),
        StepModel::Skip(next) => if start < next <= s.len() {
            tool_call_bodies_from(s, next)
        } else {
            Seq::empty()
        },
        StepModel::Found(body, next) => if start < next <= s.len() {
            seq![body] + tool_call_bodies_from(s, next)
        } else {
            seq![body]
        },
    }
}

pub open spec fn tool_call_bodies(s: Seq<char>) -> Seq<Seq<char>> {
    tool_call_bodies_from(s, 0)
}

fn next_tool_call(chars: &[char], start: usize) -> (res: Step)
    requires
        start <= chars@.len(),
    ensures
        res@ == tool_call_step(chars@, start as int),
        res@ matches StepModel::Skip(next) ==> start < next <= chars@.len(),
        res@ matches StepModel::Found(_, next) ==> start < next <= chars@.len(),
{
    let n: usize = chars.len();
    let tail = slice_subrange(chars, start, n);
    assert(tail@ == chars@.skip(start as int));
    let open: usize = match position_chars(tail, CharClass::Among("<")) {
        Some(i) => start + i,
        None => {
            return Step::Done;
        },
    };
    if open + 1 >= n {
        return Step::Done;
    }
    if chars[open + 1] == '/' {
        return Step::Skip(open + 1);
    }
    let name_tail = slice_subrange(chars, open + 1, n);
    assert(name_tail@ == chars@.skip(open as int + 1));
    let name_len: usize = match position_chars(name_tail, CharClass::Among("> \t\r\n")) {
        Some(i) => i,
        None => {
            return Step::Done;
        },
    };
    let name = string_of(slice_subrange(chars, open + 1, open + 1 + name_len));
    if !has_text(to_lower(name.as_str()).as_str(), "tool_call") {
        return Step::Skip(open + 1 + name_len);
    }
    let tag_tail = slice_subrange(chars, open, n);
    assert(tag_tail@ == chars@.skip(open as int));
    let width: usize = match position_chars(tag_tail, CharClass::Among(">")) {
        Some(i) => i,
        None => {
            return Step::Done;
        },
    };
    let body_start: usize = open + width + 1;
    let mut closing = "</".to_owned();
    closing.append(name.as_str());
    closing.append(">");
    let closing_chars: Vec<char> = chars_of(closing.as_str());
    let body_tail = slice_subrange(chars, body_start, n);
    assert(body_tail@ == chars@.skip(body_start as int));
    match find_chars(body_tail, closing_chars.as_slice()) {
        Some(body_len) => {
            assert(body_start + body_len + closing_chars@.len() <= n);
            let body = slice_subrange(chars, body_start, body_start + body_len);
            Step::Found(
                string_of(trim_chars(body, CharClass::White)),
                body_start + body_len + closing_chars.len(),
            )
        },
        None => Step::Skip(body_start),
    }
}

pub fn extract_tool_call_tag_bodies(source: &str) -> (res: Vec<String>)
    ensures
        res.deep_view() == tool_call_bodies(source@),
{
    let chars: Vec<char> = chars_of(source);
    let ghost s = source@;
    let mut bodies: Vec<String> = Vec::new();
    let mut start: usize = 0;
    assert(bodies.deep_view() + tool_call_bodies(s) =~= tool_call_bodies(s));
    loop
        invariant
            start <= chars.len(),
            chars@ == s,
            s == source@,
            tool_call_bodies(s) == bodies.deep_view() + tool_call_bodies_from(s, start as int),
        decreases chars.len() - start,
    {
        match next_tool_call(chars.as_slice(), start) {
            Step::Done => {
                assert(bodies.deep_view() + Seq::<Seq<char>>::empty() =~= bodies.deep_view());
                return bodies;
            },
            Step::Skip(next) => {
                start = next;
            },
            Step::Found(body, next) => {
                let ghost before = bodies.deep_view();
                bodies.push(body);
                proof {
                    assert(bodies.deep_view() =~= before.push(body@));
                    assert(before + (seq![body@] + tool_call_bodies_from(s, next as int))
                        =~= bodies.deep_view() + tool_call_bodies_from(s, next as int));
                }
                start = next;
            },
        }
    }
}

// ---------------------------------------------------------------------------
// Fenced blocks
// ---------------------------------------------------------------------------
/// Looks for the first fenced block from the position on, and for its body where it holds JSON
/// or does not say what it holds.
pub open spec fn json_block_step(s: Seq<char>, start: int) -> StepModel {
    match search::find(s.skip(start), "```"@) {
        None => StepModel::Done,
        Some(skipped) => {
            let info_start = start + skipped + 3;
            match search::position(s.skip(info_start), text::among("\n"@)) {
                None => StepModel::Done,
                Some(info_len) => {
                    let info = text::trimmed(s.subrange(info_start, info_start + info_len));
                    let body_start = info_start + info_len + 1;
                    match search::find(s.skip(body_start), "```"@) {
                        None => StepModel::Done,
                        Some(body_len) => {
                            let next = body_start + body_len + 3;
                            if info.len() == 0 || compose::lowered(info) == "json"@ {
                                StepModel::Found(
                                    text::trimmed(s.subrange(body_start, body_start + body_len)),
                                    next,
                                )
                            } else {
                                StepModel::Skip(next)
                            }
                        },
                    }
                },
            }
        },
    }
}

/// The bodies of the fenced blocks from the position on that hold JSON or do not say what they
/// hold.
pub open spec fn json_blocks_from(s: Seq<char>, start: int) -> Seq<Seq<char>>
    decreases s.len() - start,
{
    match json_block_step(s, start) {
        StepModel::Done => Seq::empty(),
        StepModel::Skip(next) => if start < next <= s.len() {
            json_blocks_from(s, next)
        } else {
            Seq::empty()
        },
        StepModel::Found(body, next) => if start < next <= s.len() {
            seq![body] + json_blocks_from(s, next)
        } else {
            seq![body]
        },
    }
}

pub open spec fn json_blocks(s: Seq<char>) -> Seq<Seq<char>> {
    json_blocks_from(s, 0)
}

fn next_json_block(chars: &[char], start: usize) -> (res: Step)
    requires
        start <= chars@.len(),
    ensures
        res@ == json_block_step(chars@, start as int),
        res@ matches StepModel::Skip(next) ==> start < next <= chars@.len(),
        res@ matches StepModel::Found(_, next) ==> start < next <= chars@.len(),
{
    proof {
        reveal_strlit("```");
    }
    let fence: Vec<char> = chars_of("```");
    let n: usize = chars.len();
    let tail = slice_subrange(chars, start, n);
    assert(tail@ == chars@.skip(start as int));
    let info_start: usize = match find_chars(tail, fence.as_slice()) {
        Some(i) => start + i + 3,
        None => {
            return Step::Done;
        },
    };
    let info_tail = slice_subrange(chars, info_start, n);
    assert(info_tail@ == chars@.skip(info_start as int));
    let info_len: usize = match position_chars(info_tail, CharClass::Among("\n")) {
        Some(i) => i,
        None => {
            return Step::Done;
        },
    };
    let info_chars = slice_subrange(chars, info_start, info_start + info_len);
    let info = string_of(trim_chars(info_chars, CharClass::White));
    let body_start: usize = info_start + info_len + 1;
    let body_tail = slice_subrange(chars, body_start, n);
    assert(body_tail@ == chars@.skip(body_start as int));
    let body_len: usize = match find_chars(body_tail, fence.as_slice()) {
        Some(i) => i,
        None => {
            return Step::Done;
        },
    };
    let next: usize = body_start + body_len + 3;
    if info.as_str().is_empty() || same(to_lower(info.as_str()).as_str(), "json") {
        let body = slice_subrange(chars, body_start, body_start + body_len);
        Step::Found(string_of(trim_chars(body, CharClass::White)), next)
    } else {
        Step::Skip(next)
    }
}

pub fn extract_markdown_json_blocks(source: &str) -> (res: Vec<String>)
    ensures
        res.deep_view() == json_blocks(source@),
{
    let chars: Vec<char> = chars_of(source);
    let ghost s = source@;
    let mut blocks: Vec<String> = Vec::new();
    let mut start: usize = 0;
    assert(blocks.deep_view() + json_blocks(s) =~= json_blocks(s));
    loop
        invariant
            start <= chars.len(),
            chars@ == s,
            s == source@,
            json_blocks(s) == blocks.deep_view() + json_blocks_from(s, start as int),
        decreases chars.len() - start,
    {
        match next_json_block(chars.as_slice(), start) {
            Step::Done => {
                assert(blocks.deep_view() + Seq::<Seq<char>>::empty() =~= blocks.deep_view());
                return blocks;
            },
            Step::Skip(next) => {
                start = next;
            },
            Step::Found(body, next) => {
                let ghost before = blocks.deep_view();
                blocks.push(body);
                proof {
                    assert(blocks.deep_view() =~= before.push(body@));
                    assert(before + (seq![body@] + json_blocks_from(s, next as int))
                        =~= blocks.deep_view() + json_blocks_from(s, next as int));
                }
                start = next;
            },
        }
    }
}

// ---------------------------------------------------------------------------
// Delimited calls
// ---------------------------------------------------------------------------
pub const TOOL_CALL_BEGIN: &'static str = "<|tool_call_begin|>";

pub const TOOL_CALL_ARGUMENT_BEGIN: &'static str = "<|tool_call_argument_begin|>";

pub const TOOL_CALL_ARGUMENT_END: &'static str = "<|tool_call_argument_end|>";

pub const TOOL_CALL_END: &'static str = "<|tool_call_end|>";

pub const TOOL_CALLS_SECTION_END: &'static str = "<|tool_calls_section_end|>";

/// A call whose parts stand between delimiters: its header and its arguments.
#[verifier::ext_equal]
pub struct DelimitedModel {
    pub header: Seq<char>,
    pub arguments: Seq<char>,
}

/// The markers of a delimited call, where both are there, stand in their order.
pub open spec fn markers_in_order(s: Seq<char>) -> bool {
    match (search::find(s, TOOL_CALL_BEGIN@), search::find(s, TOOL_CALL_ARGUMENT_BEGIN@)) {
        (Some(call), Some(argument)) => call + TOOL_CALL_BEGIN@.len() <= argument,
        _ => true,
    }
}

/// `end`, or the place of the marker behind `start` where that comes first.
pub open spec fn end_at_marker(s: Seq<char>, start: int, end: int, marker: Seq<char>) -> int {
    match search::find(s.skip(start), marker) {
        Some(i) => if start + i < end {
            start + i
        } else {
            end
        },
        None => end,
    }
}

/// The end of the arguments that begin at `start`.
pub open spec fn arguments_end(s: Seq<char>, start: int) -> int {
    let first = end_at_marker(s, start, s.len() as int, TOOL_CALL_ARGUMENT_END@);
    let second = end_at_marker(s, start, first, TOOL_CALL_END@);
    end_at_marker(s, start, second, TOOL_CALLS_SECTION_END@)
}

/// The delimited call in the text.
pub open spec fn delimited_call(s: Seq<char>) -> Option<DelimitedModel> {
    match (search::find(s, TOOL_CALL_BEGIN@), search::find(s, TOOL_CALL_ARGUMENT_BEGIN@)) {
        (Some(call), Some(argument)) => {
            let start = argument + TOOL_CALL_ARGUMENT_BEGIN@.len();
            Some(
                DelimitedModel {
                    header: text::trimmed(s.subrange(call + TOOL_CALL_BEGIN@.len(), argument)),
                    arguments: text::trimmed(s.subrange(start, arguments_end(s, start))),
                },
            )
        },
        _ => None,
    }
}

/// The tool that the header of a delimited call names.
pub open spec fn called_tool(header: Seq<char>) -> Option<Seq<char>> {
    let body = text::trimmed(header);
    let name = match search::strip_prefix(body, "functions."@) {
        Some(rest) => rest,
        None => match search::strip_prefix(body, "function."@) {
            Some(rest) => rest,
            None => body,
        },
    };
    let tool = match search::position(name, text::among(": \t\r\n"@)) {
        Some(end) => text::trimmed(name.take(end)),
        None => text::trimmed(name),
    };
    if tool.len() > 0 {
        Some(tool)
    } else {
        None
    }
}

pub struct DelimitedCall {
    pub header: String,
    pub arguments: String,
}

impl View for DelimitedCall {
    type V = DelimitedModel;

    open spec fn view(&self) -> DelimitedModel {
        DelimitedModel { header: self.header@, arguments: self.arguments@ }
    }
}

/// Tells whether a delimited call can be read from the text, which needs its markers in order.
pub fn tool_call_markers_in_order(source: &str) -> (res: bool)
    ensures
        res == markers_in_order(source@),
{
    let chars: Vec<char> = chars_of(source);
    let begin: Vec<char> = chars_of(TOOL_CALL_BEGIN);
    let argument_begin: Vec<char> = chars_of(TOOL_CALL_ARGUMENT_BEGIN);
    match (
        find_chars(chars.as_slice(), begin.as_slice()),
        find_chars(chars.as_slice(), argument_begin.as_slice()),
    ) {
        (Some(call), Some(argument)) => {
            let n: usize = chars.len();
            assert(call + begin@.len() <= n);
            call + begin.len() <= argument
        },
        _ => true,
    }
}

fn cut_at_marker(chars: &[char], start: usize, end: usize, marker: &str) -> (res: usize)
    requires
        start <= end <= chars@.len(),
    ensures
        res == end_at_marker(chars@, start as int, end as int, marker@),
        start <= res <= end,
{
    let n: usize = chars.len();
    let wanted: Vec<char> = chars_of(marker);
    let tail = slice_subrange(chars, start, n);
    assert(tail@ == chars@.skip(start as int));
    match find_chars(tail, wanted.as_slice()) {
        Some(i) => if start + i < end {
            start + i
        } else {
            end
        },
        None => end,
    }
}

pub fn extract_delimited_call(source: &str) -> (res: Option<DelimitedCall>)
    requires
        markers_in_order(source@),
    ensures
        delimited_call(source@) == match res {
            Some(call) => Some(call@),
            None => None,
        },
{
    let chars: Vec<char> = chars_of(source);
    let n: usize = chars.len();
    let begin: Vec<char> = chars_of(TOOL_CALL_BEGIN);
    let argument_begin: Vec<char> = chars_of(TOOL_CALL_ARGUMENT_BEGIN);
    let call: usize = match find_chars(chars.as_slice(), begin.as_slice()) {
        Some(i) => i,
        None => {
            return None;
        },
    };
    let argument: usize = match find_chars(chars.as_slice(), argument_begin.as_slice()) {
        Some(i) => i,
        None => {
            return None;
        },
    };
    assert(call + begin@.len() <= n);
    assert(argument + argument_begin@.len() <= n);
    let header = slice_subrange(chars.as_slice(), call + begin.len(), argument);
    let start: usize = argument + argument_begin.len();
    let first: usize = cut_at_marker(chars.as_slice(), start, n, TOOL_CALL_ARGUMENT_END);
    let second: usize = cut_at_marker(chars.as_slice(), start, first, TOOL_CALL_END);
    let end: usize = cut_at_marker(chars.as_slice(), start, second, TOOL_CALLS_SECTION_END);
    let arguments = slice_subrange(chars.as_slice(), start, end);
    Some(
        DelimitedCall {
            header: string_of(trim_chars(header, CharClass::White)),
            arguments: string_of(trim_chars(arguments, CharClass::White)),
        },
    )
}

pub fn parse_kimi_tool_name(header: &str) -> (res: Option<String>)
    ensures
        res.deep_view() == called_tool(header@),
{
    let body = trim(header);
    let name = match without_prefix(body.as_str(), "functions.") {
        Some(rest) => rest,
        None => match without_prefix(body.as_str(), "function.") {
            Some(rest) => rest,
            None => body,
        },
    };
    let chars: Vec<char> = chars_of(name.as_str());
    let tool = match position_chars(chars.as_slice(), CharClass::Among(": \t\r\n")) {
        Some(end) => {
            let head = slice_subrange(chars.as_slice(), 0, end);
            assert(head@ == name@.take(end as int));
            string_of(trim_chars(head, CharClass::White))
        },
        None => trim(name.as_str()),
    };
    if tool.as_str().is_empty() {
        None
    } else {
        Some(tool)
    }
}

// ---------------------------------------------------------------------------
// Laws
// ---------------------------------------------------------------------------
proof fn lemma_among_one(set: Seq<char>, only: char)
    requires
        set.len() == 1,
        set[0] == only,
    ensures
        forall|c: char| #[trigger] text::among(set)(c) <==> c == only,
{
    assert forall|c: char| #[trigger] text::among(set)(c) <==> c == only by {
        if set.contains(c) {
            let i = choose|i: int| 0 <= i < set.len() && set[i] == c;
            assert(i == 0);
        }
        if c == only {
            assert(set[0] == c);
        }
    }
}

proof fn lemma_position_of(head: Seq<char>, c: char, tail: Seq<char>, set: Seq<char>)
    requires
        set.len() == 1,
        set[0] == c,
        !head.contains(c),
    ensures
        search::position(head + seq![c] + tail, text::among(set)) == Some(head.len() as int),
{
    lemma_among_one(set, c);
    let s = head + seq![c] + tail;
    let f = text::among(set);
    assert(f(s[head.len() as int]));
    assert forall|j: int| 0 <= j < head.len() implies !f(s[j]) by {
        assert(s[j] == head[j]);
        assert(head.contains(head[j]));
    }
    assert(search::first_hit(s, f, head.len() as int));
    search::lemma_position_is(s, f, head.len() as int);
}

/// The block of a tag is what stands between it and its closing tag; what follows is the rest.
pub proof fn lemma_tag_block(
    before: Seq<char>,
    name: Seq<char>,
    attributes: Seq<char>,
    body: Seq<char>,
    behind: Seq<char>,
)
    requires
        search::first_occurrence(
            before + (open_prefix(name) + attributes + seq!['>'] + (body + close_tag(name)
                + behind)),
            open_prefix(name),
            before.len() as int,
        ),
        !(open_prefix(name) + attributes).contains('>'),
        search::first_occurrence(
            body + close_tag(name) + behind,
            close_tag(name),
            body.len() as int,
        ),
    ensures
        tag_block(
            before + (open_prefix(name) + attributes + seq!['>'] + (body + close_tag(name)
                + behind)),
            name,
        ) == Some(
            BlockModel {
                tag: open_prefix(name) + attributes + seq!['>'],
                body: text::trimmed(body),
                rest: behind,
            },
        ),
{
    reveal_strlit(">");
    let inner = body + close_tag(name) + behind;
    let head = open_prefix(name) + attributes;
    let tail = head + seq!['>'] + inner;
    let s = before + tail;
    let n = before.len() as int;
    let w = head.len() as int;
    search::lemma_find_is(s, open_prefix(name), n);
    assert(s.skip(n) =~= tail);
    lemma_position_of(head, '>', inner, ">"@);
    assert(s.skip(n + w + 1) =~= inner);
    search::lemma_find_is(inner, close_tag(name), body.len() as int);
    assert(s.subrange(n, n + w + 1) =~= head + seq!['>']);
    assert(s.subrange(n + w + 1, n + w + 1 + body.len()) =~= body);
    assert(s.skip(n + w + 1 + body.len() + close_tag(name).len()) =~= behind);
}

/// The value of an attribute is what stands between its quotes.
pub proof fn lemma_tag_attribute(
    before: Seq<char>,
    name: Seq<char>,
    value: Seq<char>,
    behind: Seq<char>,
)
    requires
        search::first_occurrence(
            before + (name + "=\""@) + (value + seq!['"'] + behind),
            name + "=\""@,
            before.len() as int,
        ),
        !value.contains('"'),
    ensures
        tag_attribute(before + (name + "=\""@) + (value + seq!['"'] + behind), name) == Some(
            value,
        ),
{
    reveal_strlit("\"");
    let mark = name + "=\""@;
    let tail = value + seq!['"'] + behind;
    let tag = before + mark + tail;
    let start = before.len() + mark.len();
    search::lemma_find_is(tag, mark, before.len() as int);
    assert(tag.skip(start as int) =~= tail);
    lemma_position_of(value, '"', behind, "\""@);
    assert(tag.subrange(start as int, start + value.len() as int) =~= value);
}

/// The step, seen from a text that starts earlier.
pub open spec fn shifted(step: StepModel, k: int) -> StepModel {
    match step {
        StepModel::Done => StepModel::Done,
        StepModel::Skip(next) => StepModel::Skip(next + k),
        StepModel::Found(body, next) => StepModel::Found(body, next + k),
    }
}

proof fn lemma_json_step_shifted(s: Seq<char>, k: int, t: int)
    requires
        0 <= k,
        0 <= t,
        k + t <= s.len(),
    ensures
        json_block_step(s, k + t) == shifted(json_block_step(s.skip(k), t), k),
        json_block_step(s.skip(k), t) matches StepModel::Skip(next) ==> t < next <= s.len() - k,
        json_block_step(s.skip(k), t) matches StepModel::Found(_, next) ==> t < next <= s.len()
            - k,
{
    reveal_strlit("```");
    let r = s.skip(k);
    assert("```"@.len() == 3);
    assert(s.skip(k + t) =~= r.skip(t));
    search::lemma_find(r.skip(t), "```"@);
    if let Some(skipped) = search::find(r.skip(t), "```"@) {
        let info = t + skipped + 3;
        assert(s.skip(info + k) =~= r.skip(info));
        search::lemma_position(r.skip(info), text::among("\n"@));
        if let Some(info_len) = search::position(r.skip(info), text::among("\n"@)) {
            let body = info + info_len + 1;
            assert(s.subrange(info + k, info + k + info_len) =~= r.subrange(info, info + info_len));
            assert(s.skip(body + k) =~= r.skip(body));
            search::lemma_find(r.skip(body), "```"@);
            if let Some(body_len) = search::find(r.skip(body), "```"@) {
                assert(s.subrange(body + k, body + k + body_len) =~= r.subrange(
                    body,
                    body + body_len,
                ));
            }
        }
    }
}

proof fn lemma_json_blocks_shifted(s: Seq<char>, k: int, t: int)
    requires
        0 <= k,
        0 <= t,
        k + t <= s.len(),
    ensures
        json_blocks_from(s, k + t) == json_blocks_from(s.skip(k), t),
    decreases s.len() - k - t,
{
    lemma_json_step_shifted(s, k, t);
    match json_block_step(s.skip(k), t) {
        StepModel::Done => {},
        StepModel::Skip(next) => {
            lemma_json_blocks_shifted(s, k, next);
        },
        StepModel::Found(body, next) => {
            lemma_json_blocks_shifted(s, k, next);
        },
    }
}

/// A fenced block that holds JSON, or does not say what it holds, is found with its whole body; one
/// of another kind is passed over. What follows it is read in the same way.
pub proof fn lemma_json_block(
    before: Seq<char>,
    info: Seq<char>,
    body: Seq<char>,
    behind: Seq<char>,
)
    requires
        search::first_occurrence(
            before + "```"@ + (info + seq!['\n'] + (body + "```"@ + behind)),
            "```"@,
            before.len() as int,
        ),
        !info.contains('\n'),
        search::first_occurrence(body + "```"@ + behind, "```"@, body.len() as int),
    ensures
        text::trimmed(info).len() == 0 || compose::lowered(text::trimmed(info)) == "json"@
            ==> json_blocks(before + "```"@ + (info + seq!['\n'] + (body + "```"@ + behind)))
            == seq![text::trimmed(body)] + json_blocks(behind),
        text::trimmed(info).len() > 0 && compose::lowered(text::trimmed(info)) != "json"@
            ==> json_blocks(before + "```"@ + (info + seq!['\n'] + (body + "```"@ + behind)))
            == json_blocks(behind),
{
    let s = before + "```"@ + (info + seq!['\n'] + (body + "```"@ + behind));
    let next = before.len() + info.len() + body.len() + 7;
    lemma_json_step(before, info, body, behind);
    lemma_json_blocks_shifted(s, next as int, 0);
    assert(json_blocks_from(s, next as int) == json_blocks(behind));
}

proof fn lemma_json_step(
    before: Seq<char>,
    info: Seq<char>,
    body: Seq<char>,
    behind: Seq<char>,
)
    requires
        search::first_occurrence(
            before + "```"@ + (info + seq!['\n'] + (body + "```"@ + behind)),
            "```"@,
            before.len() as int,
        ),
        !info.contains('\n'),
        search::first_occurrence(body + "```"@ + behind, "```"@, body.len() as int),
    ensures
        ({
            let s = before + "```"@ + (info + seq!['\n'] + (body + "```"@ + behind));
            let next = before.len() as int + info.len() + body.len() + 7;
            let is_json = text::trimmed(info).len() == 0 || compose::lowered(text::trimmed(info))
                == "json"@;
            &&& json_block_step(s, 0) == if is_json {
                StepModel::Found(text::trimmed(body), next)
            } else {
                StepModel::Skip(next)
            }
            &&& 0 < next <= s.len()
            &&& s.skip(next) == behind
        }),
{
    let inner = body + "```"@ + behind;
    let tail = info + seq!['\n'] + inner;
    let s = before + "```"@ + tail;
    let n = before.len() as int;
    let info_start = n + 3;
    let body_start = info_start + info.len() + 1;
    let next = body_start + body.len() + 3;
    assert("```"@.len() == 3) by {
        reveal_strlit("```");
    }
    assert("\n"@.len() == 1 && "\n"@[0] == '\n') by {
        reveal_strlit("\n");
    }
    assert(search::find(s.skip(0), "```"@) == Some(n)) by {
        assert(s.skip(0) =~= s);
        search::lemma_find_is(s, "```"@, n);
    }
    assert(search::position(s.skip(info_start), text::among("\n"@)) == Some(info.len() as int)) by {
        assert(s.skip(info_start) =~= tail);
        lemma_position_of(info, '\n', inner, "\n"@);
    }
    assert(s.subrange(info_start, info_start + info.len()) =~= info);
    assert(search::find(s.skip(body_start), "```"@) == Some(body.len() as int)) by {
        assert(s.skip(body_start) =~= inner);
        search::lemma_find_is(inner, "```"@, body.len() as int);
    }
    assert(s.subrange(body_start, body_start + body.len()) =~= body);
    assert(s.skip(next) =~= behind);
}

/// A delimited call has the header between its first two marks, and the arguments behind them up to
/// the mark that ends them.
pub proof fn lemma_delimited_call(
    before: Seq<char>,
    header: Seq<char>,
    arguments: Seq<char>,
    behind: Seq<char>,
)
    requires
        ({
            let tail = arguments + TOOL_CALL_ARGUMENT_END@ + behind;
            let s = before + TOOL_CALL_BEGIN@ + (header + TOOL_CALL_ARGUMENT_BEGIN@ + tail);
            &&& search::first_occurrence(s, TOOL_CALL_BEGIN@, before.len() as int)
            &&& search::first_occurrence(
                s,
                TOOL_CALL_ARGUMENT_BEGIN@,
                before.len() as int + TOOL_CALL_BEGIN@.len() + header.len(),
            )
            &&& search::first_occurrence(tail, TOOL_CALL_ARGUMENT_END@, arguments.len() as int)
            &&& forall|i: int|
                0 <= i < arguments.len() ==> !search::occurs_at(tail, TOOL_CALL_END@, i)
                    && !search::occurs_at(tail, TOOL_CALLS_SECTION_END@, i)
        }),
    ensures
        delimited_call(
            before + TOOL_CALL_BEGIN@ + (header + TOOL_CALL_ARGUMENT_BEGIN@ + (arguments
                + TOOL_CALL_ARGUMENT_END@ + behind)),
        ) == Some(
            DelimitedModel {
                header: text::trimmed(header),
                arguments: text::trimmed(arguments),
            },
        ),
{
    let tail = arguments + TOOL_CALL_ARGUMENT_END@ + behind;
    let s = before + TOOL_CALL_BEGIN@ + (header + TOOL_CALL_ARGUMENT_BEGIN@ + tail);
    let call = before.len() as int;
    let argument = call + TOOL_CALL_BEGIN@.len() + header.len();
    let start = argument + TOOL_CALL_ARGUMENT_BEGIN@.len();
    search::lemma_find_is(s, TOOL_CALL_BEGIN@, call);
    search::lemma_find_is(s, TOOL_CALL_ARGUMENT_BEGIN@, argument);
    assert(s.subrange(call + TOOL_CALL_BEGIN@.len(), argument) =~= header);
    assert(s.skip(start) =~= tail);
    search::lemma_find_is(tail, TOOL_CALL_ARGUMENT_END@, arguments.len() as int);
    search::lemma_find(tail, TOOL_CALL_END@);
    search::lemma_find(tail, TOOL_CALLS_SECTION_END@);
    let end = start + arguments.len();
    assert(end_at_marker(s, start, s.len() as int, TOOL_CALL_ARGUMENT_END@) == end) by {
        reveal_strlit("<|tool_call_argument_end|>");
        assert(TOOL_CALL_ARGUMENT_END@.len() > 0);
    }
    assert(end_at_marker(s, start, end, TOOL_CALL_END@) == end);
    assert(end_at_marker(s, start, end, TOOL_CALLS_SECTION_END@) == end);
    assert(s.subrange(start, end) =~= arguments);
}

/// Text without tags holds no tool call in a tag, and text without fences holds no fenced block.
pub proof fn lemma_no_markup(s: Seq<char>)
    ensures
        !s.contains('<') ==> tool_call_bodies(s).len() == 0,
        !search::contains(s, "```"@) ==> json_blocks(s).len() == 0,
        !search::contains(s, TOOL_CALL_BEGIN@) ==> delimited_call(s) is None,
{
    reveal_strlit("<");
    lemma_among_one("<"@, '<');
    assert(s.skip(0) =~= s);
    search::lemma_position(s, text::among("<"@));
    search::lemma_find(s, "```"@);
    search::lemma_find(s, TOOL_CALL_BEGIN@);
    if !s.contains('<') {
        if let Some(i) = search::position(s, text::among("<"@)) {
            assert(text::among("<"@)(s[i]));
            assert(s.contains(s[i]));
        }
    }
}

proof fn lemma_tool_step_shifted(s: Seq<char>, k: int, t: int)
    requires
        0 <= k,
        0 <= t,
        k + t <= s.len(),
    ensures
        tool_call_step(s, k + t) == shifted(tool_call_step(s.skip(k), t), k),
        tool_call_step(s.skip(k), t) matches StepModel::Skip(next) ==> t < next <= s.len() - k,
        tool_call_step(s.skip(k), t) matches StepModel::Found(_, next) ==> t < next <= s.len() - k,
{
    let r = s.skip(k);
    assert(s.skip(k + t) =~= r.skip(t));
    search::lemma_position(r.skip(t), text::among("<"@));
    if let Some(skipped) = search::position(r.skip(t), text::among("<"@)) {
        let open = t + skipped;
        if open + 1 < r.len() {
            assert(s[k + open + 1] == r[open + 1]);
            if r[open + 1] != '/' {
                lemma_tool_tag_shifted(s, k, open);
            }
        }
    }
}

proof fn lemma_tool_tag_shifted(s: Seq<char>, k: int, open: int)
    requires
        0 <= k,
        0 <= open,
        k + open + 1 < s.len(),
    ensures
        tool_call_tag(s, k + open) == shifted(tool_call_tag(s.skip(k), open), k),
        tool_call_tag(s.skip(k), open) matches StepModel::Skip(next) ==> open < next <= s.len()
            - k,
        tool_call_tag(s.skip(k), open) matches StepModel::Found(_, next) ==> open < next
            <= s.len() - k,
{
    let r = s.skip(k);
    assert(s.skip(k + open + 1) =~= r.skip(open + 1));
    search::lemma_position(r.skip(open + 1), text::among("> \t\r\n"@));
    if let Some(name_len) = search::position(r.skip(open + 1), text::among("> \t\r\n"@)) {
        assert(s.subrange(k + open + 1, k + open + 1 + name_len) =~= r.subrange(
            open + 1,
            open + 1 + name_len,
        ));
        assert(s.skip(k + open) =~= r.skip(open));
        search::lemma_position(r.skip(open), text::among(">"@));
        if let Some(width) = search::position(r.skip(open), text::among(">"@)) {
            let body = open + width + 1;
            let name = r.subrange(open + 1, open + 1 + name_len);
            assert(s.skip(k + body) =~= r.skip(body));
            search::lemma_find(r.skip(body), close_tag(name));
            if let Some(body_len) = search::find(r.skip(body), close_tag(name)) {
                assert(s.subrange(k + body, k + body + body_len) =~= r.subrange(
                    body,
                    body + body_len,
                ));
            }
        }
    }
}

proof fn lemma_tool_bodies_shifted(s: Seq<char>, k: int, t: int)
    requires
        0 <= k,
        0 <= t,
        k + t <= s.len(),
    ensures
        tool_call_bodies_from(s, k + t) == tool_call_bodies_from(s.skip(k), t),
    decreases s.len() - k - t,
{
    lemma_tool_step_shifted(s, k, t);
    match tool_call_step(s.skip(k), t) {
        StepModel::Done => {},
        StepModel::Skip(next) => {
            lemma_tool_bodies_shifted(s, k, next);
        },
        StepModel::Found(body, next) => {
            lemma_tool_bodies_shifted(s, k, next);
        },
    }
}

/// A tag that names a tool call is found with its whole body. What follows it is read in the same
/// way.
pub proof fn lemma_tool_call_body(
    before: Seq<char>,
    name: Seq<char>,
    body: Seq<char>,
    behind: Seq<char>,
)
    requires
        !before.contains('<'),
        name.len() > 0,
        name[0] != '/',
        forall|i: int| 0 <= i < name.len() ==> !"> \t\r\n"@.contains(#[trigger] name[i]),
        search::contains(compose::lowered(name), "tool_call"@),
        search::first_occurrence(
            body + close_tag(name) + behind,
            close_tag(name),
            body.len() as int,
        ),
    ensures
        tool_call_bodies(
            before + seq!['<'] + (name + seq!['>'] + (body + close_tag(name) + behind)),
        ) == seq![text::trimmed(body)] + tool_call_bodies(behind),
{
    let inner = body + close_tag(name) + behind;
    let tail = name + seq!['>'] + inner;
    let s = before + seq!['<'] + tail;
    let open = before.len() as int;
    let body_start = open + name.len() + 2;
    let next = body_start + body.len() + close_tag(name).len();
    let ends = text::among("> \t\r\n"@);
    assert("<"@.len() == 1 && "<"@[0] == '<') by {
        reveal_strlit("<");
    }
    assert(">"@.len() == 1 && ">"@[0] == '>') by {
        reveal_strlit(">");
    }
    assert("> \t\r\n"@.contains('>')) by {
        reveal_strlit("> \t\r\n");
        assert("> \t\r\n"@[0] == '>');
    }
    assert(search::position(s.skip(0), text::among("<"@)) == Some(open)) by {
        assert(s.skip(0) =~= s);
        lemma_position_of(before, '<', tail, "<"@);
    }
    assert(s[open + 1] == name[0]);
    assert(search::position(s.skip(open + 1), ends) == Some(name.len() as int)) by {
        assert(s.skip(open + 1) =~= tail);
        assert(ends(tail[name.len() as int]));
        assert forall|j: int| 0 <= j < name.len() implies !ends(tail[j]) by {
            assert(tail[j] == name[j]);
        }
        assert(search::first_hit(tail, ends, name.len() as int));
        search::lemma_position_is(tail, ends, name.len() as int);
    }
    assert(s.subrange(open + 1, open + 1 + name.len()) =~= name);
    assert(search::position(s.skip(open), text::among(">"@)) == Some(name.len() as int + 1)) by {
        let head = seq!['<'] + name;
        assert(s.skip(open) =~= head + seq!['>'] + inner);
        assert(!head.contains('>')) by {
            if head.contains('>') {
                let j = choose|j: int| 0 <= j < head.len() && head[j] == '>';
                assert(head[j] == name[j - 1]);
                assert(!"> \t\r\n"@.contains(name[j - 1]));
            }
        }
        lemma_position_of(head, '>', inner, ">"@);
    }
    assert(search::find(s.skip(body_start), close_tag(name)) == Some(body.len() as int)) by {
        assert(s.skip(body_start) =~= inner);
        search::lemma_find_is(inner, close_tag(name), body.len() as int);
    }
    assert(s.subrange(body_start, body_start + body.len()) =~= body);
    assert(s.skip(next) =~= behind);
    assert(tool_call_step(s, 0) == StepModel::Found(text::trimmed(body), next));
    lemma_tool_bodies_shifted(s, next, 0);
}

} // verus!
