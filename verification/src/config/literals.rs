//! JSON text as models write it: literals that JSON does not have, and brackets that match.
use crate::search;
use crate::search::occurs;
use crate::text;
use crate::text::{chars_of, is_white_char, string_of, trim_chars, CharClass};
use vstd::prelude::*;
use vstd::slice::slice_subrange;

verus! {

// ---------------------------------------------------------------------------
// Strings inside JSON text
// ---------------------------------------------------------------------------
/// Where a position of JSON text stands: outside of any string, inside one, or behind a
/// backslash inside one.
#[derive(Clone, Copy, PartialEq, Eq, Structural)]
pub enum Quoting {
    Outside,
    Inside,
    Escaped,
}

impl Quoting {
    pub open spec fn step(self, c: char) -> Quoting {
        match self {
            Quoting::Outside => if c == '"' {
                Quoting::Inside
            } else {
                Quoting::Outside
            },
            Quoting::Inside => if c == '\\' {
                Quoting::Escaped
            } else if c == '"' {
                Quoting::Outside
            } else {
                Quoting::Inside
            },
            Quoting::Escaped => Quoting::Inside,
        }
    }

    pub fn after(self, c: char) -> (res: Quoting)
        ensures
            res == self.step(c),
    {
        match self {
            Quoting::Outside => if c == '"' {
                Quoting::Inside
            } else {
                Quoting::Outside
            },
            Quoting::Inside => if c == '\\' {
                Quoting::Escaped
            } else if c == '"' {
                Quoting::Outside
            } else {
                Quoting::Inside
            },
            Quoting::Escaped => Quoting::Inside,
        }
    }
}

/// The quoting behind the first `i` characters of the text.
pub open spec fn quoting(s: Seq<char>, i: int) -> Quoting
    decreases i,
{
    if i <= 0 || i > s.len() {
        Quoting::Outside
    } else {
        quoting(s, i - 1).step(s[i - 1])
    }
}

// ---------------------------------------------------------------------------
// Literals
// ---------------------------------------------------------------------------
/// The length of the invalid literal that starts at the position, or 0.
pub open spec fn literal_len(s: Seq<char>, i: int) -> int {
    if search::occurs_at(s, "-Infinity"@, i) {
        9
    } else if search::occurs_at(s, "Infinity"@, i) {
        8
    } else if search::occurs_at(s, "NaN"@, i) {
        3
    } else if search::occurs_at(s, "undefined"@, i) {
        9
    } else {
        0
    }
}

/// The character can stand before a value.
pub open spec fn opens_value(c: char) -> bool {
    text::is_white(c) || c == '[' || c == '{' || c == ':' || c == ','
}

/// The character can stand behind a value.
pub open spec fn closes_value(c: char) -> bool {
    text::is_white(c) || c == ']' || c == '}' || c == ',' || c == ':'
}

/// An invalid literal stands in the place of a value at the position: outside of strings, and
/// with nothing beside it that belongs to another value.
pub open spec fn stands_alone(s: Seq<char>, i: int) -> bool {
    let n = literal_len(s, i);
    &&& 0 < n <= s.len() - i
    &&& quoting(s, i) == Quoting::Outside
    &&& (i > 0 ==> opens_value(s[i - 1]))
    &&& (i + n < s.len() ==> closes_value(s[i + n]))
}

pub open spec fn has_invalid_literal(s: Seq<char>) -> bool {
    exists|i: int| 0 <= i < s.len() && stands_alone(s, i)
}

/// The text from the position on, with `null` in the place of each invalid literal.
pub open spec fn sanitized_from(s: Seq<char>, i: int) -> Seq<char>
    decreases s.len() - i,
{
    if i < 0 || i >= s.len() {
        Seq::empty()
    } else if stands_alone(s, i) {
        "null"@ + sanitized_from(s, i + literal_len(s, i))
    } else {
        seq![s[i]] + sanitized_from(s, i + 1)
    }
}

pub open spec fn sanitized(s: Seq<char>) -> Seq<char> {
    sanitized_from(s, 0)
}

proof fn lemma_literals()
    ensures
        "-Infinity"@ =~= seq!['-', 'I', 'n', 'f', 'i', 'n', 'i', 't', 'y'],
        "Infinity"@ =~= seq!['I', 'n', 'f', 'i', 'n', 'i', 't', 'y'],
        "NaN"@ =~= seq!['N', 'a', 'N'],
        "undefined"@ =~= seq!['u', 'n', 'd', 'e', 'f', 'i', 'n', 'e', 'd'],
{
    reveal_strlit("-Infinity");
    reveal_strlit("Infinity");
    reveal_strlit("NaN");
    reveal_strlit("undefined");
}

proof fn lemma_literal_chars(s: Seq<char>, i: int)
    requires
        0 <= i,
    ensures
        0 <= literal_len(s, i),
        i + literal_len(s, i) <= s.len() || literal_len(s, i) == 0,
        forall|k: int|
            i <= k < i + literal_len(s, i) ==> !opens_value(#[trigger] s[k]) && s[k] != '"',
{
    lemma_literals();
    let n = literal_len(s, i);
    if n > 0 {
        let word = s.subrange(i, i + n);
        assert(word == "-Infinity"@ || word == "Infinity"@ || word == "NaN"@ || word
            == "undefined"@);
        assert forall|k: int| i <= k < i + n implies !opens_value(#[trigger] s[k]) && s[k]
            != '"' by {
            assert(s[k] == word[k - i]);
        }
    }
}

proof fn lemma_quoting_over(s: Seq<char>, i: int, j: int)
    requires
        0 <= i <= j <= i + literal_len(s, i),
        quoting(s, i) == Quoting::Outside,
        j <= s.len(),
    ensures
        quoting(s, j) == Quoting::Outside,
    decreases j - i,
{
    if j > i {
        lemma_quoting_over(s, i, j - 1);
        lemma_literal_chars(s, i);
        assert(s[j - 1] != '"');
    }
}

pub fn detect_invalid_json_literal(chars: &[char], i: usize) -> (res: Option<(usize, &'static str)>)
    requires
        i <= chars.len(),
    ensures
        res matches Some(hit) ==> hit.0 == literal_len(chars@, i as int) && hit.0 > 0 && hit.1@
            == "null"@ && i + hit.0 <= chars@.len(),
        res is None <==> literal_len(chars@, i as int) == 0,
{
    proof {
        lemma_literal_chars(chars@, i as int);
    }
    let minus_infinity: Vec<char> = chars_of("-Infinity");
    let infinity: Vec<char> = chars_of("Infinity");
    let nan: Vec<char> = chars_of("NaN");
    let undefined: Vec<char> = chars_of("undefined");
    if occurs(chars, minus_infinity.as_slice(), i) {
        Some((9, "null"))
    } else if occurs(chars, infinity.as_slice(), i) {
        Some((8, "null"))
    } else if occurs(chars, nan.as_slice(), i) {
        Some((3, "null"))
    } else if occurs(chars, undefined.as_slice(), i) {
        Some((9, "null"))
    } else {
        None
    }
}

pub fn is_invalid_literal_token_boundary(ch: Option<char>, is_previous: bool) -> (res: bool)
    ensures
        res == match ch {
            None => true,
            Some(c) => if is_previous {
                opens_value(c)
            } else {
                closes_value(c)
            },
        },
{
    match ch {
        None => true,
        Some(value) => if is_white_char(value) {
            true
        } else if is_previous {
            value == '[' || value == '{' || value == ':' || value == ','
        } else {
            value == ']' || value == '}' || value == ',' || value == ':'
        },
    }
}

/// Writes `null` for each literal that JSON does not have, and says whether there was one.
/// What stands inside strings stays as it is.
pub fn sanitize_invalid_json_literals(raw_json: &str) -> (res: (String, bool))
    ensures
        res.0@ == sanitized(raw_json@),
        res.1 == has_invalid_literal(raw_json@),
{
    let chars: Vec<char> = chars_of(raw_json);
    let ghost s = raw_json@;
    let mut out = String::new();
    let mut replaced: bool = false;
    let mut index: usize = 0;
    let mut state: Quoting = Quoting::Outside;
    assert(out@ + sanitized_from(s, 0) =~= sanitized(s));
    while index < chars.len()
        invariant
            index <= chars.len(),
            chars@ == s,
            s == raw_json@,
            sanitized(s) == out@ + sanitized_from(s, index as int),
            state == quoting(s, index as int),
            replaced == exists|i: int| 0 <= i < index && stands_alone(s, i),
        decreases chars.len() - index,
    {
        let ghost before = out@;
        let ch: char = chars[index];
        if state == Quoting::Outside && ch != '"' {
            if let Some((token_len, replacement)) = detect_invalid_json_literal(
                chars.as_slice(),
                index,
            ) {
                let previous: Option<char> = if index > 0 {
                    Some(chars[index - 1])
                } else {
                    None
                };
                let after: usize = index + token_len;
                let next: Option<char> = if after < chars.len() {
                    Some(chars[after])
                } else {
                    None
                };
                if is_invalid_literal_token_boundary(previous, true)
                    && is_invalid_literal_token_boundary(next, false) {
                    assert(stands_alone(s, index as int));
                    out.append(replacement);
                    proof {
                        assert(before + ("null"@ + sanitized_from(s, after as int)) =~= out@
                            + sanitized_from(s, after as int));
                        lemma_quoting_over(s, index as int, after as int);
                    }
                    replaced = true;
                    index = after;
                    continue ;
                }
            }
        }
        proof {
            if ch == '"' {
                lemma_literal_chars(s, index as int);
            }
            assert(!stands_alone(s, index as int));
            assert(before + (seq![s[index as int]] + sanitized_from(s, index as int + 1))
                =~= before.push(ch) + sanitized_from(s, index as int + 1));
        }
        out.push(ch);
        state = state.after(ch);
        index += 1;
    }
    proof {
        assert(out@ + sanitized_from(s, index as int) =~= out@);
    }
    (out, replaced)
}

/// Text without an invalid literal stays as it is.
pub proof fn lemma_sanitized_unchanged(s: Seq<char>)
    requires
        !has_invalid_literal(s),
    ensures
        sanitized(s) == s,
{
    lemma_unchanged_from(s, 0);
    assert(s.skip(0) == s);
}

proof fn lemma_unchanged_from(s: Seq<char>, i: int)
    requires
        !has_invalid_literal(s),
        0 <= i <= s.len(),
    ensures
        sanitized_from(s, i) == s.skip(i),
    decreases s.len() - i,
{
    if i < s.len() {
        lemma_unchanged_from(s, i + 1);
        assert(!stands_alone(s, i));
        assert(s.skip(i) =~= seq![s[i]] + s.skip(i + 1));
    } else {
        assert(s.skip(i) =~= Seq::empty());
    }
}

/// Where nothing can stand before a value, the text is taken over as it is.
proof fn lemma_plain_run(s: Seq<char>, i: int, n: nat)
    requires
        0 <= i,
        !stands_alone(s, i),
        n <= sanitized_from(s, i).len(),
        forall|k: int| 0 <= k < n ==> !opens_value(#[trigger] sanitized_from(s, i)[k]),
    ensures
        i + n <= s.len() || n == 0,
        n > 0 ==> sanitized_from(s, i) == s.subrange(i, i + n) + sanitized_from(s, i + n),
        !stands_alone(s, i + n),
    decreases n,
{
    if n > 0 {
        let whole = sanitized_from(s, i);
        let rest = sanitized_from(s, i + 1);
        assert(whole == seq![s[i]] + rest);
        assert(whole[0] == s[i]);
        assert(!stands_alone(s, i + 1));
        assert forall|k: int| 0 <= k < n - 1 implies !opens_value(#[trigger] rest[k]) by {
            assert(whole[k + 1] == rest[k]);
        }
        lemma_plain_run(s, i + 1, (n - 1) as nat);
        if n == 1 {
            assert(s.subrange(i, i + 1) =~= seq![s[i]]);
        } else {
            assert(s.subrange(i, i + n) =~= seq![s[i]] + s.subrange(i + 1, i + n));
            assert(whole =~= s.subrange(i, i + n) + sanitized_from(s, i + n));
        }
    }
}

/// An invalid literal at the start of what is sanitized would stand in the text itself.
proof fn lemma_none_starts(s: Seq<char>, i: int, out: Seq<char>)
    requires
        0 <= i < s.len(),
        !stands_alone(s, i),
        quoting(out + sanitized_from(s, i), out.len() as int) == quoting(s, i),
        i > 0 ==> out.len() > 0 && opens_value(out.last()) == opens_value(s[i - 1]),
    ensures
        !stands_alone(out + sanitized_from(s, i), out.len() as int),
{
    let at = out.len() as int;
    let rest = sanitized_from(s, i);
    let all = out + rest;
    if stands_alone(all, at) {
        let n = literal_len(all, at);
        lemma_literal_chars(all, at);
        assert forall|k: int| 0 <= k < n implies !opens_value(#[trigger] rest[k]) by {
            assert(all[at + k] == rest[k]);
        }
        lemma_plain_run(s, i, n as nat);
        assert(all.subrange(at, at + n) =~= s.subrange(i, i + n)) by {
            let left = all.subrange(at, at + n);
            assert forall|k: int| 0 <= k < n implies #[trigger] left[k] == s.subrange(i, i + n)[k] by {
                assert(left[k] == rest[k]);
            }
        }
        lemma_literals();
        assert(literal_len(s, i) == n);
        if i + n < s.len() {
            let tail = sanitized_from(s, i + n);
            assert(tail == seq![s[i + n]] + sanitized_from(s, i + n + 1));
            assert(rest[n] == tail[0]);
            assert(all[at + n] == s[i + n]);
        }
        if i > 0 {
            assert(all[at - 1] == out.last());
        }
        assert(stands_alone(s, i));
    }
}

proof fn lemma_quoting_prefix(a: Seq<char>, b: Seq<char>, i: int)
    requires
        0 <= i <= a.len(),
    ensures
        quoting(a + b, i) == quoting(a, i),
    decreases i,
{
    if i > 0 {
        lemma_quoting_prefix(a, b, i - 1);
        assert((a + b)[i - 1] == a[i - 1]);
    }
}

proof fn lemma_clean_from(s: Seq<char>, i: int, out: Seq<char>)
    requires
        0 <= i <= s.len(),
        quoting(out, out.len() as int) == quoting(s, i),
        i > 0 ==> out.len() > 0 && opens_value(out.last()) == opens_value(s[i - 1]),
        forall|k: int|
            0 <= k < out.len() ==> !#[trigger] stands_alone(out + sanitized_from(s, i), k),
    ensures
        !has_invalid_literal(out + sanitized_from(s, i)),
    decreases s.len() - i,
{
    let at = out.len() as int;
    let all = out + sanitized_from(s, i);
    lemma_quoting_prefix(out, sanitized_from(s, i), at);
    if i == s.len() {
        assert(all =~= out);
    } else if stands_alone(s, i) {
        let n = literal_len(s, i);
        let next = out + "null"@;
        reveal_strlit("null");
        lemma_literals();
        lemma_literal_chars(s, i);
        lemma_quoting_over(s, i, i + n);
        let rest = sanitized_from(s, i + n);
        assert(all =~= next + rest);
        assert(next.take(at) =~= out);
        assert(all[at] == 'n' && all[at + 1] == 'u' && all[at + 2] == 'l' && all[at + 3] == 'l');
        lemma_quoting_prefix(out, "null"@, at);
        reveal_with_fuel(quoting, 5);
        assert(quoting(next, at + 4) == Quoting::Outside) by {
            assert(next[at] == 'n' && next[at + 1] == 'u' && next[at + 2] == 'l' && next[at + 3]
                == 'l');
            assert(quoting(next, at) == Quoting::Outside);
            assert(quoting(next, at + 1) == Quoting::Outside);
            assert(quoting(next, at + 2) == Quoting::Outside);
            assert(quoting(next, at + 3) == Quoting::Outside);
        }
        assert(next.last() == 'l');
        assert(!opens_value(s[i + n - 1]));
        assert forall|k: int| 0 <= k < next.len() implies !#[trigger] stands_alone(
            next + rest,
            k,
        ) by {
            if k >= at && literal_len(all, k) > 0 {
                let word = all.subrange(k, k + literal_len(all, k));
                assert(word == "-Infinity"@ || word == "Infinity"@ || word == "NaN"@ || word
                    == "undefined"@);
                assert(word[0] == all[k]);
                assert(word[1] == all[k + 1]);
            }
        }
        lemma_clean_from(s, i + n, next);
    } else {
        let next = out.push(s[i]);
        let rest = sanitized_from(s, i + 1);
        assert(all =~= next + rest);
        lemma_none_starts(s, i, out);
        assert(next.take(at) =~= out);
        assert(next =~= out + seq![s[i]]);
        lemma_quoting_prefix(out, seq![s[i]], at);
        assert forall|k: int| 0 <= k < next.len() implies !#[trigger] stands_alone(
            next + rest,
            k,
        ) by {
            if k == at {
                assert(!stands_alone(all, at));
            }
        }
        lemma_clean_from(s, i + 1, next);
    }
}

/// No invalid literal is left.
pub proof fn lemma_sanitized_is_clean(s: Seq<char>)
    ensures
        !has_invalid_literal(sanitized(s)),
{
    let none = Seq::<char>::empty();
    lemma_clean_from(s, 0, none);
    assert(none + sanitized(s) =~= sanitized(s));
}

/// To sanitize text once more changes nothing.
pub proof fn lemma_sanitized_twice(s: Seq<char>)
    ensures
        sanitized(sanitized(s)) == sanitized(s),
{
    lemma_sanitized_is_clean(s);
    lemma_sanitized_unchanged(sanitized(s));
}

/// Text is changed exactly where it holds an invalid literal.
pub proof fn lemma_sanitized_changes(s: Seq<char>)
    ensures
        sanitized(s) != s <==> has_invalid_literal(s),
{
    lemma_sanitized_is_clean(s);
    if !has_invalid_literal(s) {
        lemma_sanitized_unchanged(s);
    }
}

/// The string literals among the first `i` characters, with their quotes, one behind the other.
pub open spec fn strings_before(s: Seq<char>, i: int) -> Seq<char>
    decreases i,
{
    if i <= 0 || i > s.len() {
        Seq::empty()
    } else if quoting(s, i - 1) != Quoting::Outside || s[i - 1] == '"' {
        strings_before(s, i - 1).push(s[i - 1])
    } else {
        strings_before(s, i - 1)
    }
}

proof fn lemma_strings_prefix(a: Seq<char>, b: Seq<char>, i: int)
    requires
        0 <= i <= a.len(),
    ensures
        strings_before(a + b, i) == strings_before(a, i),
    decreases i,
{
    if i > 0 {
        lemma_strings_prefix(a, b, i - 1);
        lemma_quoting_prefix(a, b, i - 1);
        assert((a + b)[i - 1] == a[i - 1]);
    }
}

/// A part without quotes that begins outside of strings holds nothing of them.
proof fn lemma_plain_part(s: Seq<char>, i: int, j: int)
    requires
        0 <= i <= j <= s.len(),
        quoting(s, i) == Quoting::Outside,
        forall|k: int| i <= k < j ==> #[trigger] s[k] != '"',
    ensures
        quoting(s, j) == Quoting::Outside,
        strings_before(s, j) == strings_before(s, i),
    decreases j - i,
{
    if i < j {
        lemma_plain_part(s, i, j - 1);
        assert(s[j - 1] != '"');
    }
}

proof fn lemma_strings_from(s: Seq<char>, i: int, out: Seq<char>)
    requires
        0 <= i <= s.len(),
        quoting(out, out.len() as int) == quoting(s, i),
        strings_before(out, out.len() as int) == strings_before(s, i),
    ensures
        ({
            let all = out + sanitized_from(s, i);
            strings_before(all, all.len() as int) == strings_before(s, s.len() as int)
        }),
    decreases s.len() - i,
{
    let at = out.len() as int;
    let all = out + sanitized_from(s, i);
    if i == s.len() {
        assert(all =~= out);
    } else if stands_alone(s, i) {
        let n = literal_len(s, i);
        let next = out + "null"@;
        reveal_strlit("null");
        lemma_literal_chars(s, i);
        lemma_plain_part(s, i, i + n);
        lemma_quoting_prefix(out, "null"@, at);
        lemma_strings_prefix(out, "null"@, at);
        assert forall|k: int| at <= k < at + 4 implies #[trigger] next[k] != '"' by {
            assert(next[k] == "null"@[k - at]);
        }
        lemma_plain_part(next, at, at + 4);
        assert(all =~= next + sanitized_from(s, i + n));
        lemma_strings_from(s, i + n, next);
    } else {
        let one = seq![s[i]];
        let next = out + one;
        lemma_quoting_prefix(out, one, at);
        lemma_strings_prefix(out, one, at);
        assert(next[at] == s[i]);
        assert(all =~= next + sanitized_from(s, i + 1));
        lemma_strings_from(s, i + 1, next);
    }
}

/// What stands inside strings stays as it is: the string literals are the same before and after.
pub proof fn lemma_sanitized_keeps_strings(s: Seq<char>)
    ensures
        strings_before(sanitized(s), sanitized(s).len() as int) == strings_before(
            s,
            s.len() as int,
        ),
{
    let none = Seq::<char>::empty();
    lemma_strings_from(s, 0, none);
    assert(none + sanitized(s) =~= sanitized(s));
}

// ---------------------------------------------------------------------------
// Matching brackets
// ---------------------------------------------------------------------------
/// The closing brackets that are still to come once `c` is read outside of strings, or none
/// where `c` closes what was not opened.
pub open spec fn nest(stack: Seq<char>, c: char) -> Option<Seq<char>> {
    if c == '{' {
        Some(stack.push('}'))
    } else if c == '[' {
        Some(stack.push(']'))
    } else if c == '}' || c == ']' {
        if stack.len() > 0 && stack.last() == c {
            Some(stack.drop_last())
        } else {
            None
        }
    } else {
        Some(stack)
    }
}

/// The closing brackets that are still to come behind the first `i` characters.
pub open spec fn nesting(s: Seq<char>, i: int) -> Option<Seq<char>>
    decreases i,
{
    if i <= 0 || i > s.len() {
        Some(Seq::empty())
    } else {
        match nesting(s, i - 1) {
            None => None,
            Some(stack) => if quoting(s, i - 1) == Quoting::Outside {
                nest(stack, s[i - 1])
            } else {
                Some(stack)
            },
        }
    }
}

/// The character before position `e` closes the outermost bracket of the text.
pub open spec fn closes_at(s: Seq<char>, e: int) -> bool {
    &&& 0 < e <= s.len()
    &&& (s[e - 1] == '}' || s[e - 1] == ']')
    &&& quoting(s, e - 1) == Quoting::Outside
    &&& nesting(s, e) == Some(Seq::<char>::empty())
}

pub open spec fn balanced_end_from(s: Seq<char>, e: int) -> Option<int>
    decreases s.len() + 1 - e,
{
    if e > s.len() {
        None
    } else if closes_at(s, e) {
        Some(e)
    } else {
        balanced_end_from(s, e + 1)
    }
}

/// The end of the first bracketed part of the text.
pub open spec fn balanced_end(s: Seq<char>) -> Option<int> {
    balanced_end_from(s, 1)
}

proof fn lemma_broken(s: Seq<char>, e: int)
    requires
        0 < e <= s.len(),
        nesting(s, e) is None,
    ensures
        balanced_end_from(s, e) is None,
    decreases s.len() - e,
{
    if e < s.len() {
        lemma_broken(s, e + 1);
    } else {
        assert(balanced_end_from(s, e + 1) is None);
    }
}

/// What is found as the end of a bracketed part closes everything that was opened.
pub proof fn lemma_balanced_end(s: Seq<char>, e: int)
    requires
        0 < e,
    ensures
        balanced_end_from(s, e) matches Some(end) ==> closes_at(s, end) && e <= end && forall|d: int|
            e <= d < end ==> !closes_at(s, d),
    decreases s.len() + 1 - e,
{
    if e <= s.len() && !closes_at(s, e) {
        lemma_balanced_end(s, e + 1);
    }
}

pub fn find_balanced_json_end(chars: &[char]) -> (res: Option<usize>)
    ensures
        res is Some <==> balanced_end(chars@) is Some,
        res matches Some(end) ==> balanced_end(chars@) == Some(end as int) && end <= chars@.len(),
{
    let ghost s = chars@;
    let mut stack: Vec<char> = Vec::new();
    let mut state: Quoting = Quoting::Outside;
    let mut i: usize = 0;
    assert(stack@ =~= Seq::<char>::empty());
    while i < chars.len()
        invariant
            i <= chars.len(),
            s == chars@,
            state == quoting(s, i as int),
            nesting(s, i as int) == Some(stack@),
            balanced_end(s) == balanced_end_from(s, i as int + 1),
        decreases chars.len() - i,
    {
        let ch: char = chars[i];
        let ghost before = stack@;
        if state == Quoting::Outside {
            if ch == '{' {
                stack.push('}');
            } else if ch == '[' {
                stack.push(']');
            } else if ch == '}' || ch == ']' {
                match stack.pop() {
                    Some(expected) => {
                        if expected != ch {
                            proof {
                                lemma_broken(s, i as int + 1);
                            }
                            return None;
                        }
                        if stack.len() == 0 {
                            assert(stack@ =~= Seq::<char>::empty());
                            assert(closes_at(s, i as int + 1));
                            return Some(i + 1);
                        }
                    },
                    None => {
                        proof {
                            lemma_broken(s, i as int + 1);
                        }
                        return None;
                    },
                }
            }
        }
        assert(nesting(s, i as int + 1) == Some(stack@));
        assert(!closes_at(s, i as int + 1));
        state = state.after(ch);
        i += 1;
    }
    None
}

/// The first bracketed part of the text from the position on, without white space around it.
pub open spec fn snippet_from(s: Seq<char>, i: int) -> Option<Seq<char>>
    decreases s.len() - i,
{
    if i < 0 || i >= s.len() {
        None
    } else if s[i] == '{' || s[i] == '[' {
        match balanced_end(s.skip(i)) {
            Some(end) => Some(text::trimmed(s.skip(i).take(end))),
            None => snippet_from(s, i + 1),
        }
    } else {
        snippet_from(s, i + 1)
    }
}

pub open spec fn balanced_snippet(s: Seq<char>) -> Option<Seq<char>> {
    snippet_from(s, 0)
}

pub fn extract_balanced_json_snippet(source: &str) -> (res: Option<String>)
    ensures
        res.deep_view() == balanced_snippet(source@),
{
    let chars: Vec<char> = chars_of(source);
    let n: usize = chars.len();
    let mut i: usize = 0;
    while i < n
        invariant
            i <= n,
            n == chars.len(),
            chars@ == source@,
            balanced_snippet(source@) == snippet_from(source@, i as int),
        decreases n - i,
    {
        if chars[i] == '{' || chars[i] == '[' {
            let rest = slice_subrange(chars.as_slice(), i, n);
            assert(rest@ == source@.skip(i as int));
            if let Some(end) = find_balanced_json_end(rest) {
                let body = slice_subrange(rest, 0, end);
                assert(body@ == rest@.take(end as int));
                return Some(string_of(trim_chars(body, CharClass::White)));
            }
        }
        i += 1;
    }
    None
}

// ---------------------------------------------------------------------------
// Excerpts
// ---------------------------------------------------------------------------
/// The text, cut off behind 200 characters where it is longer.
pub open spec fn excerpt(s: Seq<char>) -> Seq<char> {
    if s.len() <= 200 {
        s
    } else {
        s.take(200) + "..."@
    }
}

pub fn truncate_for_error(value: &str) -> (res: String)
    ensures
        res@ == excerpt(value@),
{
    let chars: Vec<char> = chars_of(value);
    if chars.len() <= 200 {
        value.to_owned()
    } else {
        let head = slice_subrange(chars.as_slice(), 0, 200);
        assert(head@ == value@.take(200));
        let mut out = string_of(head);
        out.append("...");
        out
    }
}

/// An excerpt is never longer than 203 characters.
pub proof fn lemma_excerpt_len(s: Seq<char>)
    ensures
        excerpt(s).len() <= 203,
        s.len() <= 200 ==> excerpt(s) == s,
{
    reveal_strlit("...");
}

/// An excerpt of a long text is its beginning, with a mark that something is left out.
pub proof fn lemma_excerpt_begins(s: Seq<char>)
    ensures
        s.len() > 200 ==> excerpt(s).take(200) == s.take(200) && excerpt(s).skip(200) == "..."@,
{
    if s.len() > 200 {
        assert(excerpt(s).take(200) =~= s.take(200));
        assert(excerpt(s).skip(200) =~= "..."@);
    }
}

// ---------------------------------------------------------------------------
// Laws of bracketed parts
// ---------------------------------------------------------------------------
/// What stands before the first bracket does not count: the bracketed part is the one that starts
/// there, if it ends anywhere.
pub proof fn lemma_snippet(before: Seq<char>, part: Seq<char>, behind: Seq<char>)
    requires
        !before.contains('{') && !before.contains('['),
        part.len() > 0,
        part[0] == '{' || part[0] == '[',
        balanced_end(part + behind) == Some(part.len() as int),
    ensures
        balanced_snippet(before + part + behind) == Some(text::trimmed(part)),
{
    lemma_snippet_from(before + part + behind, before, part, behind, 0);
}

proof fn lemma_snippet_from(
    s: Seq<char>,
    before: Seq<char>,
    part: Seq<char>,
    behind: Seq<char>,
    i: int,
)
    requires
        s == before + part + behind,
        !before.contains('{') && !before.contains('['),
        part.len() > 0,
        part[0] == '{' || part[0] == '[',
        balanced_end(part + behind) == Some(part.len() as int),
        0 <= i <= before.len(),
    ensures
        snippet_from(s, i) == Some(text::trimmed(part)),
    decreases before.len() - i,
{
    if i < before.len() {
        assert(s[i] == before[i]);
        assert(before.contains(before[i]));
        lemma_snippet_from(s, before, part, behind, i + 1);
    } else {
        assert(s[i] == part[0]);
        assert(s.skip(i) =~= part + behind);
        assert((part + behind).take(part.len() as int) =~= part);
    }
}

/// A character that neither quotes nor nests.
pub open spec fn is_flat(c: char) -> bool {
    c != '"' && c != '{' && c != '}' && c != '[' && c != ']'
}

/// An object without strings and without anything nested ends at its closing bracket.
pub proof fn lemma_flat_end(inner: Seq<char>, behind: Seq<char>)
    requires
        forall|i: int| 0 <= i < inner.len() ==> is_flat(#[trigger] inner[i]),
    ensures
        balanced_end(seq!['{'] + inner + seq!['}'] + behind) == Some(inner.len() as int + 2),
        balanced_end(seq!['['] + inner + seq![']'] + behind) == Some(inner.len() as int + 2),
{
    lemma_flat_end_of('{', inner, '}', behind);
    lemma_flat_end_of('[', inner, ']', behind);
}

proof fn lemma_flat_end_of(open: char, inner: Seq<char>, close: char, behind: Seq<char>)
    requires
        open == '{' && close == '}' || open == '[' && close == ']',
        forall|i: int| 0 <= i < inner.len() ==> is_flat(#[trigger] inner[i]),
    ensures
        balanced_end(seq![open] + inner + seq![close] + behind) == Some(inner.len() as int + 2),
{
    let s = seq![open] + inner + seq![close] + behind;
    let n = inner.len() as int;
    lemma_flat_state(s, open, inner, close, n + 1);
    assert(s[n + 1] == close);
    assert(nesting(s, n + 2) == nest(seq![close], close));
    assert(seq![close].drop_last() =~= Seq::<char>::empty());
    assert(closes_at(s, n + 2));
    lemma_flat_search(s, open, inner, close, 1);
}

proof fn lemma_flat_state(s: Seq<char>, open: char, inner: Seq<char>, close: char, i: int)
    requires
        open == '{' && close == '}' || open == '[' && close == ']',
        forall|j: int| 0 <= j < inner.len() ==> is_flat(#[trigger] inner[j]),
        s.len() >= inner.len() + 2,
        s[0] == open,
        forall|j: int| 0 <= j < inner.len() ==> s[j + 1] == #[trigger] inner[j],
        1 <= i <= inner.len() + 1,
    ensures
        quoting(s, i) == Quoting::Outside,
        nesting(s, i) == Some(seq![close]),
    decreases i,
{
    if i == 1 {
        assert(quoting(s, 0) == Quoting::Outside);
        assert(nesting(s, 0) == Some(Seq::<char>::empty()));
        assert(Seq::<char>::empty().push(close) =~= seq![close]);
    } else {
        lemma_flat_state(s, open, inner, close, i - 1);
        assert(s[i - 1] == inner[i - 2]);
        assert(is_flat(inner[i - 2]));
    }
}

proof fn lemma_flat_search(s: Seq<char>, open: char, inner: Seq<char>, close: char, e: int)
    requires
        open == '{' && close == '}' || open == '[' && close == ']',
        forall|j: int| 0 <= j < inner.len() ==> is_flat(#[trigger] inner[j]),
        s.len() >= inner.len() + 2,
        s[0] == open,
        forall|j: int| 0 <= j < inner.len() ==> s[j + 1] == #[trigger] inner[j],
        closes_at(s, inner.len() as int + 2),
        1 <= e <= inner.len() + 2,
    ensures
        balanced_end_from(s, e) == Some(inner.len() as int + 2),
    decreases inner.len() + 2 - e,
{
    if e < inner.len() + 2 {
        if e > 1 {
            assert(s[e - 1] == inner[e - 2]);
            assert(is_flat(inner[e - 2]));
        }
        assert(!closes_at(s, e));
        lemma_flat_search(s, open, inner, close, e + 1);
    }
}

} // verus!
