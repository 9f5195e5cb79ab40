//! Operations on text: every string is seen as the sequence of its characters.
use vstd::prelude::*;
use vstd::slice::slice_subrange;

verus! {

/// `String::push` appends one character to the end of the string.
pub assume_specification[ String::push ](s: &mut String, c: char)
    ensures
        final(s)@ == old(s)@.push(c),
;

// ---------------------------------------------------------------------------
// Characters
// ---------------------------------------------------------------------------
/// The characters with the Unicode property `White_Space`.
pub open spec fn is_white(c: char) -> bool {
    let code = c as u32;
    ||| 0x09 <= code <= 0x0d
    ||| code == 0x20
    ||| code == 0x85
    ||| code == 0xa0
    ||| code == 0x1680
    ||| 0x2000 <= code <= 0x200a
    ||| code == 0x2028
    ||| code == 0x2029
    ||| code == 0x202f
    ||| code == 0x205f
    ||| code == 0x3000
}

pub open spec fn is_digit(c: char) -> bool {
    '0' <= c <= '9'
}

pub open spec fn is_alphabetic(c: char) -> bool {
    'a' <= c <= 'z' || 'A' <= c <= 'Z'
}

/// ASCII letters and digits.
pub open spec fn is_alphanumeric(c: char) -> bool {
    is_digit(c) || is_alphabetic(c)
}

/// The character with an ASCII capital letter made small.
pub open spec fn lower_char(c: char) -> char {
    if 'A' <= c <= 'Z' {
        ((c as u32 + 32) as u32) as char
    } else {
        c
    }
}

pub fn is_white_char(c: char) -> (res: bool)
    ensures
        res == is_white(c),
{
    let code: u32 = c as u32;
    (0x09 <= code && code <= 0x0d) || code == 0x20 || code == 0x85 || code == 0xa0 || code == 0x1680
        || (0x2000 <= code && code <= 0x200a) || code == 0x2028 || code == 0x2029 || code == 0x202f
        || code == 0x205f || code == 0x3000
}

pub fn is_alphanumeric_char(c: char) -> (res: bool)
    ensures
        res == is_alphanumeric(c),
{
    ('0' <= c && c <= '9') || ('a' <= c && c <= 'z') || ('A' <= c && c <= 'Z')
}

pub fn lower(c: char) -> (res: char)
    ensures
        res == lower_char(c),
{
    if 'A' <= c && c <= 'Z' {
        ((c as u8) + 32) as char
    } else {
        c
    }
}

/// A set of characters that text can be searched for, trimmed of or split at.
#[derive(Clone, Copy)]
pub enum CharClass<'a> {
    /// White space.
    White,
    /// The characters of the string.
    Among(&'a str),
    /// What cannot stand inside a framework keyword.
    NonKeyword,
}

pub open spec fn white() -> spec_fn(char) -> bool {
    |c: char| is_white(c)
}

pub open spec fn among(set: Seq<char>) -> spec_fn(char) -> bool {
    |c: char| set.contains(c)
}

pub open spec fn non_keyword() -> spec_fn(char) -> bool {
    |c: char| !(is_alphanumeric(c) || c == '#' || c == '+' || c == '.')
}

impl<'a> CharClass<'a> {
    /// The predicate that the class stands for.
    pub open spec fn predicate(self) -> spec_fn(char) -> bool {
        match self {
            CharClass::White => white(),
            CharClass::Among(set) => among(set@),
            CharClass::NonKeyword => non_keyword(),
        }
    }

    pub fn holds(&self, c: char) -> (res: bool)
        ensures
            res == self.predicate()(c),
    {
        match self {
            CharClass::White => is_white_char(c),
            CharClass::Among(set) => {
                let members: Vec<char> = chars_of(set);
                chars_contain(members.as_slice(), c)
            },
            CharClass::NonKeyword => !(is_alphanumeric_char(c) || c == '#' || c == '+' || c == '.'),
        }
    }
}

// ---------------------------------------------------------------------------
// Strings and sequences of characters
// ---------------------------------------------------------------------------
/// The characters of the string, in order.
pub fn chars_of(s: &str) -> (res: Vec<char>)
    ensures
        res@ == s@,
{
    let mut out: Vec<char> = Vec::new();
    for c in it: s.chars()
        invariant
            it.seq() == s@,
            out@ == s@.take(it.index() as int),
    {
        out.push(c);
        assert(s@.take(it.index() as int + 1) == s@.take(it.index() as int).push(c));
    }
    assert(s@.take(s@.len() as int) == s@);
    out
}

/// The string made of the characters.
pub fn string_of(chars: &[char]) -> (res: String)
    ensures
        res@ == chars@,
{
    let mut out = String::new();
    let mut i: usize = 0;
    while i < chars.len()
        invariant
            i <= chars.len(),
            out@ == chars@.take(i as int),
        decreases chars.len() - i,
    {
        out.push(chars[i]);
        assert(chars@.take(i as int + 1) == chars@.take(i as int).push(chars@[i as int]));
        i += 1;
    }
    assert(chars@.take(chars@.len() as int) == chars@);
    out
}

pub fn chars_contain(chars: &[char], c: char) -> (res: bool)
    ensures
        res == chars@.contains(c),
{
    let mut i: usize = 0;
    while i < chars.len()
        invariant
            i <= chars.len(),
            forall|j: int| 0 <= j < i ==> chars@[j] != c,
        decreases chars.len() - i,
    {
        if chars[i] == c {
            assert(chars@[i as int] == c);
            return true;
        }
        i += 1;
    }
    false
}

/// Whether two strings hold the same text.
pub fn same(a: &str, b: &str) -> (res: bool)
    ensures
        res == (a@ == b@),
{
    a.to_owned() == b.to_owned()
}

pub fn same_chars(a: &[char], b: &[char]) -> (res: bool)
    ensures
        res == (a@ == b@),
{
    if a.len() != b.len() {
        return false;
    }
    let mut i: usize = 0;
    while i < a.len()
        invariant
            i <= a.len(),
            a.len() == b.len(),
            forall|j: int| 0 <= j < i ==> a@[j] == b@[j],
        decreases a.len() - i,
    {
        if a[i] != b[i] {
            assert(a@[i as int] != b@[i as int]);
            return false;
        }
        i += 1;
    }
    assert(a@ =~= b@);
    true
}

/// Whether the text is one of the listed strings.
pub fn is_listed(list: &[String], value: &str) -> (res: bool)
    ensures
        res == list.deep_view().contains(value@),
{
    let mut i: usize = 0;
    while i < list.len()
        invariant
            i <= list.len(),
            forall|j: int| 0 <= j < i ==> list@[j]@ != value@,
        decreases list.len() - i,
    {
        if same(list[i].as_str(), value) {
            assert(list.deep_view()[i as int] == value@);
            return true;
        }
        i += 1;
    }
    assert forall|j: int| 0 <= j < list.deep_view().len() implies list.deep_view()[j] != value@ by {
        assert(list.deep_view()[j] == list@[j]@);
    }
    false
}

/// A copy of the list.
pub fn copy_list(list: &[String]) -> (res: Vec<String>)
    ensures
        res.deep_view() == list.deep_view(),
{
    let mut out: Vec<String> = Vec::new();
    let mut i: usize = 0;
    while i < list.len()
        invariant
            i <= list.len(),
            out@.len() == i,
            forall|j: int| 0 <= j < i ==> out@[j]@ == list@[j]@,
        decreases list.len() - i,
    {
        out.push(list[i].clone());
        i += 1;
    }
    assert(out.deep_view() =~= list.deep_view());
    out
}

// ---------------------------------------------------------------------------
// Trimming
// ---------------------------------------------------------------------------
/// The text without the leading characters that satisfy `f`.
pub open spec fn trim_start_by(s: Seq<char>, f: spec_fn(char) -> bool) -> Seq<char>
    decreases s.len(),
{
    if s.len() > 0 && f(s[0]) {
        trim_start_by(s.drop_first(), f)
    } else {
        s
    }
}

/// The text without the trailing characters that satisfy `f`.
pub open spec fn trim_end_by(s: Seq<char>, f: spec_fn(char) -> bool) -> Seq<char>
    decreases s.len(),
{
    if s.len() > 0 && f(s.last()) {
        trim_end_by(s.drop_last(), f)
    } else {
        s
    }
}

/// The text without the leading and trailing characters that satisfy `f`.
pub open spec fn trim_by(s: Seq<char>, f: spec_fn(char) -> bool) -> Seq<char> {
    trim_end_by(trim_start_by(s, f), f)
}

/// What is left at the end of a text once its start is trimmed.
pub proof fn lemma_trim_start(s: Seq<char>, f: spec_fn(char) -> bool)
    ensures
        exists|k: int|
            0 <= k <= s.len() && trim_start_by(s, f) == #[trigger] s.skip(k) && forall|j: int|
                0 <= j < k ==> f(#[trigger] s[j]),
        trim_start_by(s, f).len() > 0 ==> !f(trim_start_by(s, f)[0]),
    decreases s.len(),
{
    if s.len() > 0 && f(s[0]) {
        let rest = s.drop_first();
        lemma_trim_start(rest, f);
        let k = choose|k: int|
            0 <= k <= rest.len() && trim_start_by(rest, f) == #[trigger] rest.skip(k)
                && forall|j: int| 0 <= j < k ==> f(#[trigger] rest[j]);
        assert(s.skip(k + 1) =~= rest.skip(k));
        assert forall|j: int| 0 <= j < k + 1 implies f(#[trigger] s[j]) by {
            if j > 0 {
                assert(rest[j - 1] == s[j]);
            }
        }
    } else {
        assert(s.skip(0) =~= s);
    }
}

/// What is left at the start of a text once its end is trimmed.
pub proof fn lemma_trim_end(s: Seq<char>, f: spec_fn(char) -> bool)
    ensures
        exists|k: int|
            0 <= k <= s.len() && trim_end_by(s, f) == #[trigger] s.take(k) && forall|j: int|
                k <= j < s.len() ==> f(#[trigger] s[j]),
        trim_end_by(s, f).len() > 0 ==> !f(trim_end_by(s, f).last()),
    decreases s.len(),
{
    if s.len() > 0 && f(s.last()) {
        let rest = s.drop_last();
        lemma_trim_end(rest, f);
        let k = choose|k: int|
            0 <= k <= rest.len() && trim_end_by(rest, f) == #[trigger] rest.take(k)
                && forall|j: int| k <= j < rest.len() ==> f(#[trigger] rest[j]);
        assert(s.take(k) =~= rest.take(k));
        assert forall|j: int| k <= j < s.len() implies f(#[trigger] s[j]) by {
            if j < rest.len() {
                assert(rest[j] == s[j]);
            }
        }
    } else {
        assert(s.take(s.len() as int) =~= s);
    }
}

/// The text without leading and trailing white space.
pub open spec fn trimmed(s: Seq<char>) -> Seq<char> {
    trim_by(s, white())
}

/// Trimming leaves the part of a text between its outermost characters that are no white space.
pub proof fn lemma_trimmed_part(s: Seq<char>) -> (part: (int, int))
    ensures
        0 <= part.0 <= part.1 <= s.len(),
        trimmed(s) == s.subrange(part.0, part.1),
        forall|k: int| 0 <= k < part.0 ==> is_white(#[trigger] s[k]),
        forall|k: int| part.1 <= k < s.len() ==> is_white(#[trigger] s[k]),
        part.0 < part.1 ==> !is_white(s[part.0]) && !is_white(s[part.1 - 1]),
{
    let f = white();
    lemma_trim_start(s, f);
    let i = choose|k: int|
        0 <= k <= s.len() && trim_start_by(s, f) == #[trigger] s.skip(k) && forall|j: int|
            0 <= j < k ==> f(#[trigger] s[j]);
    let rest = s.skip(i);
    lemma_trim_end(rest, f);
    let n = choose|k: int|
        0 <= k <= rest.len() && trim_end_by(rest, f) == #[trigger] rest.take(k) && forall|j: int|
            k <= j < rest.len() ==> f(#[trigger] rest[j]);
    assert(rest.take(n) =~= s.subrange(i, i + n));
    assert forall|k: int| 0 <= k < i implies is_white(#[trigger] s[k]) by {
        assert(f(s[k]));
    }
    assert forall|k: int| i + n <= k < s.len() implies is_white(#[trigger] s[k]) by {
        assert(f(rest[k - i]));
    }
    if n > 0 {
        assert(rest[0] == s[i]);
        assert(rest.take(n).last() == s[i + n - 1]);
        assert(!f(rest[0]));
    }
    (i, i + n)
}

/// A text without white space at its ends is trimmed already.
pub proof fn lemma_trimmed_already(s: Seq<char>)
    requires
        s.len() > 0 ==> !is_white(s[0]) && !is_white(s.last()),
    ensures
        trimmed(s) == s,
{
}

/// White space around a text is trimmed away, whatever it is.
pub proof fn lemma_trimmed_around(a: Seq<char>, s: Seq<char>, b: Seq<char>)
    requires
        forall|k: int| 0 <= k < a.len() ==> is_white(#[trigger] a[k]),
        forall|k: int| 0 <= k < b.len() ==> is_white(#[trigger] b[k]),
        s.len() > 0,
        !is_white(s[0]),
        !is_white(s.last()),
    ensures
        trimmed(a + s + b) == s,
    decreases a.len() + b.len(),
{
    let whole = a + s + b;
    if a.len() > 0 {
        let rest = a.drop_first();
        assert(whole[0] == a[0]);
        assert(whole.drop_first() =~= rest + s + b);
        assert forall|k: int| 0 <= k < rest.len() implies is_white(#[trigger] rest[k]) by {
            assert(rest[k] == a[k + 1]);
        }
        lemma_trimmed_around(rest, s, b);
        assert(white()(whole[0]));
    } else {
        assert(whole =~= s + b);
        assert(whole[0] == s[0]);
        assert(trim_start_by(whole, white()) == whole);
        lemma_trim_end_around(s, b);
    }
}

proof fn lemma_trim_end_around(s: Seq<char>, b: Seq<char>)
    requires
        forall|k: int| 0 <= k < b.len() ==> is_white(#[trigger] b[k]),
        s.len() > 0,
        !is_white(s.last()),
    ensures
        trim_end_by(s + b, white()) == s,
    decreases b.len(),
{
    if b.len() > 0 {
        let rest = b.drop_last();
        assert((s + b).last() == b.last());
        assert(is_white(b[b.len() - 1]));
        assert((s + b).drop_last() =~= s + rest);
        assert forall|k: int| 0 <= k < rest.len() implies is_white(#[trigger] rest[k]) by {
            assert(rest[k] == b[k]);
        }
        lemma_trim_end_around(s, rest);
        assert(white()((s + b).last()));
    } else {
        assert(s + b =~= s);
    }
}

/// The text without leading white space.
pub open spec fn trimmed_start(s: Seq<char>) -> Seq<char> {
    trim_start_by(s, white())
}

/// Whether the text holds nothing but white space.
pub open spec fn is_blank(s: Seq<char>) -> bool {
    trimmed(s).len() == 0
}

pub fn trim_start_chars<'a>(chars: &'a [char], class: CharClass) -> (res: &'a [char])
    ensures
        res@ == trim_start_by(chars@, class.predicate()),
{
    let mut i: usize = 0;
    let ghost f = class.predicate();
    assert(chars@.skip(0) == chars@);
    while i < chars.len() && class.holds(chars[i])
        invariant
            i <= chars.len(),
            f == class.predicate(),
            trim_start_by(chars@, f) == trim_start_by(chars@.skip(i as int), f),
        ensures
            i <= chars.len(),
            i < chars.len() ==> !f(chars@[i as int]),
            trim_start_by(chars@, f) == trim_start_by(chars@.skip(i as int), f),
        decreases chars.len() - i,
    {
        assert(chars@.skip(i as int).drop_first() == chars@.skip(i as int + 1));
        i += 1;
    }
    assert(chars@.skip(i as int) == chars@.subrange(i as int, chars@.len() as int));
    slice_subrange(chars, i, chars.len())
}

pub fn trim_end_chars<'a>(chars: &'a [char], class: CharClass) -> (res: &'a [char])
    ensures
        res@ == trim_end_by(chars@, class.predicate()),
{
    let mut n: usize = chars.len();
    let ghost f = class.predicate();
    assert(chars@.take(n as int) == chars@);
    while n > 0 && class.holds(chars[n - 1])
        invariant
            n <= chars.len(),
            f == class.predicate(),
            trim_end_by(chars@, f) == trim_end_by(chars@.take(n as int), f),
        ensures
            n <= chars.len(),
            n > 0 ==> !f(chars@[n - 1]),
            trim_end_by(chars@, f) == trim_end_by(chars@.take(n as int), f),
        decreases n,
    {
        assert(chars@.take(n as int).drop_last() == chars@.take(n as int - 1));
        n -= 1;
    }
    assert(chars@.take(n as int) == chars@.subrange(0, n as int));
    slice_subrange(chars, 0, n)
}

pub fn trim_chars<'a>(chars: &'a [char], class: CharClass) -> (res: &'a [char])
    ensures
        res@ == trim_by(chars@, class.predicate()),
{
    trim_end_chars(trim_start_chars(chars, class), class)
}

pub fn trim_matches(s: &str, class: CharClass) -> (res: String)
    ensures
        res@ == trim_by(s@, class.predicate()),
{
    let chars: Vec<char> = chars_of(s);
    string_of(trim_chars(chars.as_slice(), class))
}

pub fn trim(s: &str) -> (res: String)
    ensures
        res@ == trimmed(s@),
{
    trim_matches(s, CharClass::White)
}

pub fn trim_start(s: &str) -> (res: String)
    ensures
        res@ == trimmed_start(s@),
{
    let chars: Vec<char> = chars_of(s);
    string_of(trim_start_chars(chars.as_slice(), CharClass::White))
}

pub fn blank(s: &str) -> (res: bool)
    ensures
        res == is_blank(s@),
{
    trim(s).as_str().is_empty()
}

/// Visible ASCII characters are no white space; blanks, tabs and line ends are.
pub proof fn lemma_visible(c: char)
    ensures
        '!' <= c <= '~' ==> !is_white(c),
        c == ' ' || c == '\t' || c == '\n' || c == '\r' ==> is_white(c),
        is_alphanumeric(c) ==> '!' <= c <= '~',
{
}

} // verus!
