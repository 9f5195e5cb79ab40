//! Names and other pieces of source text.
use crate::search;
use crate::search::{
    chars_start_with, find_chars, has_prefix, occurs, position_chars, split_words, without_prefix,
};
use crate::text;
use crate::text::{chars_of, string_of, trim, trim_matches, trim_start, CharClass};
use crate::utils::posix;
use vstd::prelude::*;
use vstd::slice::slice_subrange;

verus! {

// ---------------------------------------------------------------------------
// Pieces of text
// ---------------------------------------------------------------------------
/// The text without the prefix, however often it starts with it.
pub open spec fn without_leading(s: Seq<char>, pat: Seq<char>) -> Seq<char>
    decreases s.len(),
{
    if pat.len() > 0 && search::starts_with(s, pat) {
        without_leading(s.skip(pat.len() as int), pat)
    } else {
        s
    }
}

/// What follows the last separator, counting separators from the left.
pub open spec fn last_piece(s: Seq<char>, sep: Seq<char>) -> Seq<char>
    decreases s.len(),
{
    match search::find(s, sep) {
        Some(i) => if sep.len() > 0 && 0 <= i && i + sep.len() <= s.len() {
            last_piece(s.skip(i + sep.len()), sep)
        } else {
            s
        },
        None => s,
    }
}

/// What follows the rightmost occurrence of the separator at or before the position.
pub open spec fn after_rightmost_from(s: Seq<char>, sep: Seq<char>, i: int) -> Seq<char>
    decreases i + 1,
{
    if i < 0 {
        s
    } else if search::occurs_at(s, sep, i) {
        s.skip(i + sep.len())
    } else {
        after_rightmost_from(s, sep, i - 1)
    }
}

/// What follows the rightmost occurrence of the separator, or everything.
pub open spec fn after_rightmost(s: Seq<char>, sep: Seq<char>) -> Seq<char> {
    after_rightmost_from(s, sep, s.len() - sep.len())
}

/// What precedes the first character of the set, or everything.
pub open spec fn before_first(s: Seq<char>, set: Seq<char>) -> Seq<char> {
    match search::position(s, text::among(set)) {
        Some(i) => s.take(i),
        None => s,
    }
}

/// The last word of the text, or the text itself where it has none.
pub open spec fn last_word(s: Seq<char>) -> Seq<char> {
    if search::words(s).len() > 0 {
        search::words(s).last()
    } else {
        s
    }
}

pub fn strip_leading(s: &str, pat: &str) -> (res: String)
    ensures
        res@ == without_leading(s@, pat@),
{
    let chars: Vec<char> = chars_of(s);
    let wanted: Vec<char> = chars_of(pat);
    let n: usize = chars.len();
    let mut start: usize = 0;
    if wanted.len() == 0 {
        return s.to_owned();
    }
    assert(s@.skip(0) == s@);
    loop
        invariant
            start <= n,
            n == chars.len(),
            chars@ == s@,
            wanted@ == pat@,
            pat@.len() > 0,
            without_leading(s@, pat@) == without_leading(s@.skip(start as int), pat@),
        decreases n - start,
    {
        let rest = slice_subrange(chars.as_slice(), start, n);
        assert(rest@ == s@.skip(start as int));
        if !chars_start_with(rest, wanted.as_slice()) {
            return string_of(rest);
        }
        assert(rest@.skip(pat@.len() as int) == s@.skip(start + pat@.len()));
        assert(start + wanted@.len() <= n);
        start = start + wanted.len();
    }
}

pub fn final_piece(s: &str, sep: &str) -> (res: String)
    requires
        sep@.len() > 0,
    ensures
        res@ == last_piece(s@, sep@),
{
    let chars: Vec<char> = chars_of(s);
    let wanted: Vec<char> = chars_of(sep);
    let n: usize = chars.len();
    let mut start: usize = 0;
    assert(s@.skip(0) == s@);
    loop
        invariant
            start <= n,
            n == chars.len(),
            chars@ == s@,
            wanted@ == sep@,
            sep@.len() > 0,
            last_piece(s@, sep@) == last_piece(s@.skip(start as int), sep@),
        decreases n - start,
    {
        let rest = slice_subrange(chars.as_slice(), start, n);
        assert(rest@ == s@.skip(start as int));
        match find_chars(rest, wanted.as_slice()) {
            Some(i) => {
                assert(rest@.skip(i + sep@.len()) == s@.skip(start + i + sep@.len()));
                start = start + i + wanted.len();
            },
            None => {
                return string_of(rest);
            },
        }
    }
}

pub fn rightmost_piece(s: &str, sep: &str) -> (res: String)
    ensures
        res@ == after_rightmost(s@, sep@),
{
    let chars: Vec<char> = chars_of(s);
    let wanted: Vec<char> = chars_of(sep);
    let n: usize = chars.len();
    if n < wanted.len() {
        return s.to_owned();
    }
    let mut i: usize = n - wanted.len();
    loop
        invariant
            n == chars.len(),
            chars@ == s@,
            wanted@ == sep@,
            i + wanted@.len() <= n,
            after_rightmost(s@, sep@) == after_rightmost_from(s@, sep@, i as int),
        decreases i,
    {
        if occurs(chars.as_slice(), wanted.as_slice(), i) {
            let rest = slice_subrange(chars.as_slice(), i + wanted.len(), n);
            assert(rest@ == s@.skip(i + sep@.len()));
            return string_of(rest);
        }
        if i == 0 {
            assert(after_rightmost_from(s@, sep@, -1) == s@);
            return s.to_owned();
        }
        i -= 1;
    }
}

pub fn leading_piece(s: &str, set: &str) -> (res: String)
    ensures
        res@ == before_first(s@, set@),
{
    let chars: Vec<char> = chars_of(s);
    match position_chars(chars.as_slice(), CharClass::Among(set)) {
        Some(i) => {
            let head = slice_subrange(chars.as_slice(), 0, i);
            assert(head@ == s@.take(i as int));
            string_of(head)
        },
        None => s.to_owned(),
    }
}

pub fn final_word(s: &str) -> (res: String)
    ensures
        res@ == last_word(s@),
{
    let words: Vec<String> = split_words(s);
    let n: usize = words.len();
    assert(words.deep_view().len() == n);
    if n == 0 {
        s.to_owned()
    } else {
        assert(words.deep_view().last() == words@[n - 1]@);
        words[n - 1].clone()
    }
}

// ---------------------------------------------------------------------------
// Quotes
// ---------------------------------------------------------------------------
/// The text without white space and then quotes around it.
pub open spec fn unquoted(s: Seq<char>) -> Seq<char> {
    text::trim_by(text::trim_by(text::trimmed(s), text::among("\""@)), text::among("'"@))
}

pub fn trim_quotes(value: &str) -> (res: String)
    ensures
        res@ == unquoted(value@),
{
    let bare = trim(value);
    let inner = trim_matches(bare.as_str(), CharClass::Among("\""));
    trim_matches(inner.as_str(), CharClass::Among("'"))
}

/// What stands between the first two of the quotes.
pub open spec fn between(s: Seq<char>, quote: Seq<char>) -> Option<Seq<char>> {
    match search::position(s, text::among(quote)) {
        None => None,
        Some(start) => {
            let rest = s.skip(start + 1);
            match search::position(rest, text::among(quote)) {
                None => None,
                Some(end) => Some(rest.take(end)),
            }
        },
    }
}

/// The first value in double quotes, or else in backquotes.
pub open spec fn first_quoted(s: Seq<char>) -> Option<Seq<char>> {
    match between(s, "\""@) {
        Some(value) => Some(value),
        None => between(s, "`"@),
    }
}

fn quoted_by(chars: &[char], quote: &str) -> (res: Option<String>)
    ensures
        res.deep_view() == between(chars@, quote@),
{
    let n: usize = chars.len();
    let start: usize = match position_chars(chars, CharClass::Among(quote)) {
        Some(i) => i,
        None => {
            return None;
        },
    };
    let rest = slice_subrange(chars, start + 1, n);
    assert(rest@ == chars@.skip(start as int + 1));
    match position_chars(rest, CharClass::Among(quote)) {
        Some(end) => {
            let value = slice_subrange(rest, 0, end);
            assert(value@ == rest@.take(end as int));
            Some(string_of(value))
        },
        None => None,
    }
}

pub fn extract_first_quoted_value(input: &str) -> (res: Option<String>)
    ensures
        res.deep_view() == first_quoted(input@),
{
    let chars: Vec<char> = chars_of(input);
    match quoted_by(chars.as_slice(), "\"") {
        Some(value) => Some(value),
        None => quoted_by(chars.as_slice(), "`"),
    }
}

// ---------------------------------------------------------------------------
// Types
// ---------------------------------------------------------------------------
/// The text without the prefix, and without white space behind it, however often it starts with
/// it.
pub open spec fn peeled(s: Seq<char>, pat: Seq<char>) -> Seq<char>
    decreases s.len(),
{
    let next = text::trimmed_start(s.skip(pat.len() as int));
    if pat.len() > 0 && search::starts_with(s, pat) && next.len() < s.len() {
        peeled(next, pat)
    } else {
        s
    }
}

/// The name of the type that the text writes: without parentheses, references, pointers, slices
/// and type arguments, and without the path before it.
pub open spec fn named_type(input: Seq<char>) -> Option<Seq<char>> {
    let bare = text::trimmed(text::trim_by(text::trimmed(input), text::among("()"@)));
    let core = peeled(peeled(peeled(peeled(bare, "&"@), "*"@), "mut "@), "[]"@);
    let word = before_first(last_word(core), "<"@);
    let local = after_rightmost(word, "::"@);
    let name = text::trimmed(local.skip(posix::after_last(local, '.')));
    if name.len() > 0 {
        Some(name)
    } else {
        None
    }
}

proof fn lemma_trim_start_len(s: Seq<char>, f: spec_fn(char) -> bool)
    ensures
        text::trim_start_by(s, f).len() <= s.len(),
    decreases s.len(),
{
    if s.len() > 0 && f(s[0]) {
        lemma_trim_start_len(s.drop_first(), f);
    }
}

fn peel(s: &str, pat: &str) -> (res: String)
    requires
        pat@.len() > 0,
    ensures
        res@ == peeled(s@, pat@),
{
    let mut value: String = s.to_owned();
    loop
        invariant
            pat@.len() > 0,
            peeled(s@, pat@) == peeled(value@, pat@),
        decreases value@.len(),
    {
        match without_prefix(value.as_str(), pat) {
            Some(stripped) => {
                proof {
                    lemma_trim_start_len(stripped@, text::white());
                }
                value = trim_start(stripped.as_str());
            },
            None => {
                return value;
            },
        }
    }
}

pub fn normalize_type_name(input: &str) -> (res: Option<String>)
    ensures
        res.deep_view() == named_type(input@),
{
    proof {
        reveal_strlit("&");
        reveal_strlit("*");
        reveal_strlit("mut ");
        reveal_strlit("[]");
    }
    let bare = trim(trim_matches(trim(input).as_str(), CharClass::Among("()")).as_str());
    let unreferenced = peel(bare.as_str(), "&");
    let unpointed = peel(unreferenced.as_str(), "*");
    let unmarked = peel(unpointed.as_str(), "mut ");
    let core = peel(unmarked.as_str(), "[]");
    let word = leading_piece(final_word(core.as_str()).as_str(), "<");
    let local = rightmost_piece(word.as_str(), "::");
    let chars: Vec<char> = chars_of(local.as_str());
    let n: usize = chars.len();
    let cut: usize = posix::cut_after_last(chars.as_slice(), '.');
    let tail = slice_subrange(chars.as_slice(), cut, n);
    assert(tail@ == local@.skip(cut as int));
    let name = trim(string_of(tail).as_str());
    if name.as_str().is_empty() {
        None
    } else {
        Some(name)
    }
}

// ---------------------------------------------------------------------------
// Visibility
// ---------------------------------------------------------------------------
/// The character has the Unicode property `Uppercase`.
pub uninterp spec fn is_uppercase(c: char) -> bool;

/// `char::is_uppercase`. Of the ASCII characters the capital letters, and no others, have the
/// property; for the rest the answer has a name.
#[verifier::external_body]
fn char_is_uppercase(c: char) -> (res: bool)
    ensures
        res == is_uppercase(c),
        'A' <= c <= 'Z' ==> res,
        (c as u32) < 128 && !('A' <= c <= 'Z') ==> !res,
{
    c.is_uppercase()
}

/// Names with a capital first letter are visible outside of their package.
pub open spec fn is_exported(name: Seq<char>) -> bool {
    name.len() > 0 && is_uppercase(name[0])
}

pub fn is_exported_name(name: &str) -> (res: bool)
    ensures
        res == is_exported(name@),
{
    let chars: Vec<char> = chars_of(name);
    chars.len() > 0 && char_is_uppercase(chars[0])
}

/// The item is declared as public.
pub open spec fn is_public_item(item: Seq<char>) -> bool {
    search::starts_with(text::trimmed_start(item), "pub "@)
}

pub fn is_rust_exported(item_text: &str) -> (res: bool)
    ensures
        res == is_public_item(item_text@),
{
    has_prefix(trim_start(item_text).as_str(), "pub ")
}

// ---------------------------------------------------------------------------
// Laws
// ---------------------------------------------------------------------------
/// The first value in double quotes is what stands between the first two of them.
pub proof fn lemma_first_quoted(before: Seq<char>, value: Seq<char>, behind: Seq<char>)
    requires
        !before.contains('"'),
        !value.contains('"'),
    ensures
        first_quoted(before + seq!['"'] + value + seq!['"'] + behind) == Some(value),
{
    reveal_strlit("\"");
    let s = before + seq!['"'] + value + seq!['"'] + behind;
    let f = text::among("\""@);
    let n = before.len() as int;
    assert("\""@[0] == '"');
    assert(f('"'));
    assert forall|c: char| #[trigger] f(c) implies c == '"' by {
        let k = choose|k: int| 0 <= k < "\""@.len() && "\""@[k] == c;
        assert(k == 0);
    }
    assert forall|j: int| 0 <= j < n implies !f(s[j]) by {
        assert(s[j] == before[j]);
        assert(before.contains(before[j]));
    }
    assert(s[n] == '"');
    assert(search::first_hit(s, f, n));
    search::lemma_position_is(s, f, n);
    let rest = s.skip(n + 1);
    assert(rest =~= value + seq!['"'] + behind);
    let m = value.len() as int;
    assert forall|j: int| 0 <= j < m implies !f(rest[j]) by {
        assert(rest[j] == value[j]);
        assert(value.contains(value[j]));
    }
    assert(rest[m] == '"');
    assert(search::first_hit(rest, f, m));
    search::lemma_position_is(rest, f, m);
    assert(rest.take(m) =~= value);
}

/// Quotes around a value are taken away, of either kind.
pub proof fn lemma_unquoted(value: Seq<char>)
    requires
        value.len() > 0,
        value[0] != '"' && value[0] != '\'',
        value.last() != '"' && value.last() != '\'',
    ensures
        unquoted(seq!['"'] + value + seq!['"']) == value,
        unquoted(seq!['\''] + value + seq!['\'']) == value,
{
    reveal_strlit("\"");
    reveal_strlit("'");
    let double = text::among("\""@);
    let single = text::among("'"@);
    assert("\""@[0] == '"');
    assert("'"@[0] == '\'');
    assert(double('"') && single('\''));
    assert forall|c: char| #[trigger] double(c) implies c == '"' by {
        let k = choose|k: int| 0 <= k < "\""@.len() && "\""@[k] == c;
        assert(k == 0);
    }
    assert forall|c: char| #[trigger] single(c) implies c == '\'' by {
        let k = choose|k: int| 0 <= k < "'"@.len() && "'"@[k] == c;
        assert(k == 0);
    }
    let d = seq!['"'] + value + seq!['"'];
    let s = seq!['\''] + value + seq!['\''];
    assert(!text::is_white('"') && !text::is_white('\''));
    text::lemma_trimmed_already(d);
    text::lemma_trimmed_already(s);
    assert(d.drop_first() =~= value + seq!['"']);
    assert(s.drop_first() =~= value + seq!['\'']);
    assert((value + seq!['"']).drop_last() =~= value);
    assert((value + seq!['\'']).drop_last() =~= value);
    assert((value + seq!['"'])[0] == value[0]);
    assert((value + seq!['\''])[0] == value[0]);
    assert(text::trim_start_by(value + seq!['"'], double) == value + seq!['"']);
    assert(text::trim_start_by(d, double) == value + seq!['"']);
    assert(text::trim_end_by(value, double) == value);
    assert(text::trim_by(d, double) == value);
    assert(text::trim_start_by(value, single) == value);
    assert(text::trim_by(value, single) == value);
    assert(!double(s[0]) && !double(s.last()));
    assert(text::trim_by(s, double) == s);
    assert(text::trim_start_by(value + seq!['\''], single) == value + seq!['\'']);
    assert(text::trim_start_by(s, single) == value + seq!['\'']);
    assert(text::trim_end_by(value, single) == value);
    assert(text::trim_by(s, single) == value);
}

/// The last piece of a path is that of what follows its first separator.
pub proof fn lemma_last_piece(first: Seq<char>, rest: Seq<char>)
    requires
        !first.contains(':'),
    ensures
        last_piece(first + "::"@ + rest, "::"@) == last_piece(rest, "::"@),
{
    reveal_strlit("::");
    let s = first + "::"@ + rest;
    let n = first.len() as int;
    assert(s.subrange(n, n + 2) =~= "::"@);
    assert forall|j: int| 0 <= j < n implies !search::occurs_at(s, "::"@, j) by {
        if search::occurs_at(s, "::"@, j) {
            assert(s.subrange(j, j + 2)[0] == ':');
            assert(s[j] == first[j]);
            assert(first.contains(first[j]));
        }
    }
    assert(search::first_occurrence(s, "::"@, n));
    search::lemma_find_is(s, "::"@, n);
    assert(s.skip(n + 2) =~= rest);
}

/// A text without separators is its own last piece.
pub proof fn lemma_whole_piece(s: Seq<char>)
    requires
        !s.contains(':'),
    ensures
        last_piece(s, "::"@) == s,
{
    reveal_strlit("::");
    assert forall|j: int| 0 <= j <= s.len() - 2 implies !search::occurs_at(s, "::"@, j) by {
        if search::occurs_at(s, "::"@, j) {
            assert(s.subrange(j, j + 2)[0] == ':');
            assert(s.contains(s[j]));
        }
    }
    search::lemma_find_none(s, "::"@);
}

// ---------------------------------------------------------------------------
// Laws of type names
// ---------------------------------------------------------------------------
/// A name of a type and nothing else: letters, digits and underscores.
pub open spec fn is_type_name(name: Seq<char>) -> bool {
    &&& name.len() > 0
    &&& forall|i: int|
        0 <= i < name.len() ==> text::is_alphanumeric(#[trigger] name[i]) || name[i] == '_'
}

proof fn lemma_in_braces(c: char)
    ensures
        text::among("()"@)(c) <==> c == '(' || c == ')',
        text::among("<"@)(c) <==> c == '<',
{
    reveal_strlit("()");
    reveal_strlit("<");
    assert("()"@[0] == '(' && "()"@[1] == ')');
    assert("<"@[0] == '<');
    if "()"@.contains(c) {
        let i = choose|i: int| 0 <= i < "()"@.len() && "()"@[i] == c;
        assert(i == 0 || i == 1);
    }
    if "<"@.contains(c) {
        let i = choose|i: int| 0 <= i < "<"@.len() && "<"@[i] == c;
        assert(i == 0);
    }
}

/// A bare name of a type is the name of the type, and so it is behind a reference or a pointer.
pub proof fn lemma_type_name(name: Seq<char>)
    requires
        is_type_name(name),
    ensures
        named_type(name) == Some(name),
        named_type("&"@ + name) == Some(name),
        named_type("*"@ + name) == Some(name),
{
    reveal_strlit("&");
    reveal_strlit("*");
    lemma_word(name);
    let referred = "&"@ + name;
    let pointed = "*"@ + name;
    assert(text::is_alphanumeric(name[0]) || name[0] == '_');
    assert(text::is_alphanumeric(name[name.len() - 1]) || name[name.len() - 1] == '_');
    lemma_bare(name);
    lemma_bare(referred);
    lemma_bare(pointed);
    lemma_no_prefix(name);
    assert(peeled(name, "&"@) == name);
    assert(referred[0] == '&' && pointed[0] == '*');
    assert(referred.take(1) =~= "&"@);
    assert(pointed.take(1) =~= "*"@);
    assert(referred.skip(1) =~= name);
    assert(pointed.skip(1) =~= name);
    assert(text::trimmed_start(name) == name);
    assert(peeled(referred, "&"@) == name);
    assert(pointed.take(1)[0] == '*');
    assert("&"@[0] == '&');
    assert(!search::starts_with(pointed, "&"@));
    assert(peeled(pointed, "&"@) == pointed);
    assert(peeled(pointed, "*"@) == name);
}

proof fn lemma_no_prefix(name: Seq<char>)
    requires
        is_type_name(name),
    ensures
        peeled(name, "&"@) == name,
        peeled(name, "*"@) == name,
        peeled(name, "mut "@) == name,
        peeled(name, "[]"@) == name,
{
    reveal_strlit("&");
    reveal_strlit("*");
    reveal_strlit("mut ");
    reveal_strlit("[]");
    assert(text::is_alphanumeric(name[0]) || name[0] == '_');
    if search::starts_with(name, "&"@) {
        assert(name.take(1)[0] == "&"@[0]);
    }
    if search::starts_with(name, "*"@) {
        assert(name.take(1)[0] == "*"@[0]);
    }
    if search::starts_with(name, "[]"@) {
        assert(name.take(2)[0] == "[]"@[0]);
    }
    if search::starts_with(name, "mut "@) {
        assert(name.take(4)[3] == "mut "@[3]);
        assert(text::is_alphanumeric(name[3]) || name[3] == '_');
    }
}

proof fn lemma_bare(s: Seq<char>)
    requires
        s.len() > 0,
        !text::is_white(s[0]) && s[0] != '(' && s[0] != ')',
        !text::is_white(s.last()) && s.last() != '(' && s.last() != ')',
    ensures
        text::trimmed(text::trim_by(text::trimmed(s), text::among("()"@))) == s,
{
    text::lemma_trimmed_already(s);
    lemma_in_braces(s[0]);
    lemma_in_braces(s.last());
}

proof fn lemma_word(name: Seq<char>)
    requires
        is_type_name(name),
    ensures
        last_word(name) == name,
        before_first(name, "<"@) == name,
        after_rightmost(name, "::"@) == name,
        name.skip(posix::after_last(name, '.')) == name,
        text::trimmed(name) == name,
        text::trimmed_start(name) == name,
{
    let none = Seq::<char>::empty();
    assert forall|i: int| 0 <= i < name.len() implies !text::is_white(#[trigger] name[i]) by {
        assert(text::is_alphanumeric(name[i]) || name[i] == '_');
    }
    assert(!text::is_white(name[0]));
    assert(!text::is_white(name[name.len() - 1]));
    text::lemma_trimmed_already(name);
    assert(name =~= none + name + none);
    search::lemma_first_word(name, name, none, none);
    lemma_no_words();
    assert(search::words(name) =~= seq![name]);
    assert forall|i: int| 0 <= i < name.len() implies !text::among("<"@)(name[i]) by {
        assert(text::is_alphanumeric(name[i]) || name[i] == '_');
        lemma_in_braces(name[i]);
    }
    search::lemma_position(name, text::among("<"@));
    lemma_no_separator(name, name.len() - "::"@.len());
    lemma_no_last_dot(name);
    assert(name.skip(0) =~= name);
}

proof fn lemma_no_words()
    ensures
        search::words(Seq::<char>::empty()) == Seq::<Seq<char>>::empty(),
{
    let none = Seq::<char>::empty();
    search::lemma_position(none, text::white());
    assert(search::split_by(none, text::white()) == seq![none]);
    search::lemma_filter_one(none, search::non_empty());
}

proof fn lemma_no_separator(name: Seq<char>, i: int)
    requires
        is_type_name(name),
    ensures
        after_rightmost_from(name, "::"@, i) == name,
    decreases i + 1,
{
    reveal_strlit("::");
    if i >= 0 {
        if search::occurs_at(name, "::"@, i) {
            assert(name.subrange(i, i + 2)[0] == "::"@[0]);
            assert(text::is_alphanumeric(name[i]) || name[i] == '_');
        }
        lemma_no_separator(name, i - 1);
    }
}

proof fn lemma_no_last_dot(name: Seq<char>)
    requires
        forall|i: int|
            0 <= i < name.len() ==> text::is_alphanumeric(#[trigger] name[i]) || name[i] == '_',
    ensures
        posix::after_last(name, '.') == 0,
    decreases name.len(),
{
    if name.len() > 0 {
        let less = name.drop_last();
        assert(text::is_alphanumeric(name[name.len() - 1]) || name[name.len() - 1] == '_');
        assert forall|i: int| 0 <= i < less.len() implies text::is_alphanumeric(#[trigger] less[i])
            || less[i] == '_' by {
            assert(less[i] == name[i]);
        }
        lemma_no_last_dot(less);
    }
}

} // verus!
