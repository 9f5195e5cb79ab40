//! Building text: joining, replacing, changing case, and writing and reading decimal numbers.
use crate::search;
use crate::search::{find_chars, position_chars};
use crate::text;
use crate::text::{chars_of, lower, string_of, CharClass};
use vstd::prelude::*;
use vstd::slice::slice_subrange;

verus! {

// ---------------------------------------------------------------------------
// Joining
// ---------------------------------------------------------------------------
/// The parts in order, with `sep` between each two of them.
pub open spec fn join(parts: Seq<Seq<char>>, sep: Seq<char>) -> Seq<char>
    decreases parts.len(),
{
    if parts.len() == 0 {
        Seq::empty()
    } else if parts.len() == 1 {
        parts[0]
    } else {
        join(parts.drop_last(), sep) + sep + parts.last()
    }
}

pub fn join_list(parts: &[String], sep: &str) -> (res: String)
    ensures
        res@ == join(parts.deep_view(), sep@),
{
    let mut out = String::new();
    let mut i: usize = 0;
    let ghost all = parts.deep_view();
    assert(all.take(0) =~= Seq::<Seq<char>>::empty());
    while i < parts.len()
        invariant
            i <= parts.len(),
            all == parts.deep_view(),
            out@ == join(all.take(i as int), sep@),
        decreases parts.len() - i,
    {
        proof {
            assert(all.take(i as int + 1).drop_last() == all.take(i as int));
            assert(all.take(i as int + 1).last() == all[i as int]);
            assert(all[i as int] == parts@[i as int]@);
        }
        if i > 0 {
            out.append(sep);
            out.append(parts[i].as_str());
        } else {
            out.append(parts[i].as_str());
            assert(out@ =~= all[0]);
        }
        i += 1;
    }
    assert(all.take(all.len() as int) == all);
    out
}

// ---------------------------------------------------------------------------
// Replacing
// ---------------------------------------------------------------------------
/// The text with the occurrences of `pat`, from left to right, replaced by `with`.
pub open spec fn replace_all(s: Seq<char>, pat: Seq<char>, with: Seq<char>) -> Seq<char>
    decreases s.len(),
{
    match search::find(s, pat) {
        Some(i) => if pat.len() > 0 && 0 <= i && i + pat.len() <= s.len() {
            s.take(i) + with + replace_all(s.skip(i + pat.len()), pat, with)
        } else {
            s
        },
        None => s,
    }
}

pub fn replace_text(s: &str, pat: &str, with: &str) -> (res: String)
    requires
        pat@.len() > 0,
    ensures
        res@ == replace_all(s@, pat@, with@),
{
    let chars: Vec<char> = chars_of(s);
    let wanted: Vec<char> = chars_of(pat);
    let mut out = String::new();
    let mut start: usize = 0;
    assert(s@.skip(0) == s@);
    assert(out@ + replace_all(s@, pat@, with@) =~= replace_all(s@, pat@, with@));
    loop
        invariant
            start <= chars.len(),
            chars@ == s@,
            wanted@ == pat@,
            pat@.len() > 0,
            replace_all(s@, pat@, with@) == out@ + replace_all(s@.skip(start as int), pat@, with@),
        decreases chars.len() - start,
    {
        let n: usize = chars.len();
        let rest = slice_subrange(chars.as_slice(), start, n);
        assert(rest@ == s@.skip(start as int));
        match find_chars(rest, wanted.as_slice()) {
            Some(i) => {
                let head = slice_subrange(rest, 0, i);
                assert(head@ == rest@.take(i as int));
                let ghost before = out@;
                out.append(string_of(head).as_str());
                out.append(with);
                proof {
                    assert(rest@.skip(i + pat@.len()) == s@.skip(start + i + pat@.len()));
                    assert(before + (rest@.take(i as int) + with@ + replace_all(
                        rest@.skip(i + pat@.len()),
                        pat@,
                        with@,
                    )) =~= out@ + replace_all(rest@.skip(i + pat@.len()), pat@, with@));
                }
                start = start + i + wanted.len();
            },
            None => {
                out.append(string_of(rest).as_str());
                return out;
            },
        }
    }
}

// ---------------------------------------------------------------------------
// Laws of replacing single characters
// ---------------------------------------------------------------------------
pub open spec fn char_replaced(c: char, wanted: char, with: Seq<char>) -> Seq<char> {
    if c == wanted {
        with
    } else {
        seq![c]
    }
}

proof fn lemma_find_char(s: Seq<char>, c: char)
    ensures
        match search::find(s, seq![c]) {
            Some(i) => 0 <= i < s.len() && s[i] == c && forall|j: int|
                0 <= j < i ==> s[j] != c,
            None => forall|j: int| 0 <= j < s.len() ==> s[j] != c,
        },
{
    search::lemma_find(s, seq![c]);
    match search::find(s, seq![c]) {
        Some(i) => {
            assert(s.subrange(i, i + 1)[0] == c);
            assert forall|j: int| 0 <= j < i implies s[j] != c by {
                if s[j] == c {
                    assert(s.subrange(j, j + 1) =~= seq![c]);
                    assert(search::occurs_at(s, seq![c], j));
                }
            }
        },
        None => {
            assert forall|j: int| 0 <= j < s.len() implies s[j] != c by {
                if s[j] == c {
                    assert(s.subrange(j, j + 1) =~= seq![c]);
                    assert(search::occurs_at(s, seq![c], j));
                }
            }
        },
    }
}

/// Nothing is replaced in an empty text.
pub proof fn lemma_replace_nothing(pat: Seq<char>, with: Seq<char>)
    ensures
        replace_all(Seq::empty(), pat, with) == Seq::<char>::empty(),
{
}

/// The first character of a text is replaced by itself.
pub proof fn lemma_replace_first(s: Seq<char>, c: char, with: Seq<char>)
    requires
        s.len() > 0,
    ensures
        replace_all(s, seq![c], with) == char_replaced(s[0], c, with) + replace_all(
            s.skip(1),
            seq![c],
            with,
        ),
{
    let rest = s.skip(1);
    lemma_find_char(s, c);
    lemma_find_char(rest, c);
    if s[0] == c {
        assert(search::find(s, seq![c]) == Some(0int));
        assert(s.take(0) + with =~= with);
    } else {
        match search::find(s, seq![c]) {
            Some(i) => {
                assert(rest[i - 1] == c);
                let k = search::find(rest, seq![c])->Some_0;
                if k < i - 1 {
                    assert(s[k + 1] == rest[k]);
                } else if k > i - 1 {
                    assert(rest[i - 1] != c);
                }
                assert(k == i - 1);
                assert(s.skip(i + 1) =~= rest.skip(k + 1));
                assert(s.take(i) =~= seq![s[0]] + rest.take(k));
                assert(s.take(i) + with + replace_all(s.skip(i + 1), seq![c], with) =~= seq![s[0]]
                    + (rest.take(k) + with + replace_all(rest.skip(k + 1), seq![c], with)));
            },
            None => {
                if let Some(k) = search::find(rest, seq![c]) {
                    assert(s[k + 1] == c);
                }
                assert(s =~= seq![s[0]] + rest);
            },
        }
    }
}

/// Two parts of a text are replaced each by itself.
pub proof fn lemma_replace_parts(a: Seq<char>, b: Seq<char>, c: char, with: Seq<char>)
    ensures
        replace_all(a + b, seq![c], with) == replace_all(a, seq![c], with) + replace_all(
            b,
            seq![c],
            with,
        ),
    decreases a.len(),
{
    if a.len() == 0 {
        assert(a + b =~= b);
        assert(a =~= Seq::empty());
        lemma_replace_nothing(seq![c], with);
        assert(Seq::<char>::empty() + replace_all(b, seq![c], with) =~= replace_all(
            b,
            seq![c],
            with,
        ));
    } else {
        lemma_replace_first(a, c, with);
        lemma_replace_first(a + b, c, with);
        assert((a + b).skip(1) =~= a.skip(1) + b);
        lemma_replace_parts(a.skip(1), b, c, with);
        let head = char_replaced(a[0], c, with);
        let x = replace_all(a.skip(1), seq![c], with);
        let y = replace_all(b, seq![c], with);
        assert(head + (x + y) =~= head + x + y);
    }
}

/// A text of one or two characters, replaced character by character.
pub proof fn lemma_replace_short(s: Seq<char>, c: char, with: Seq<char>)
    requires
        1 <= s.len() <= 2,
    ensures
        replace_all(s, seq![c], with) == if s.len() == 1 {
            char_replaced(s[0], c, with)
        } else {
            char_replaced(s[0], c, with) + char_replaced(s[1], c, with)
        },
{
    lemma_replace_first(s, c, with);
    lemma_replace_nothing(seq![c], with);
    let rest = s.skip(1);
    if s.len() == 1 {
        assert(rest =~= Seq::empty());
        assert(char_replaced(s[0], c, with) + Seq::empty() =~= char_replaced(s[0], c, with));
    } else {
        lemma_replace_first(rest, c, with);
        assert(rest.skip(1) =~= Seq::empty());
        assert(char_replaced(rest[0], c, with) + Seq::empty() =~= char_replaced(rest[0], c, with));
    }
}

// ---------------------------------------------------------------------------
// Case
// ---------------------------------------------------------------------------
/// The text with ASCII capital letters made small.
pub open spec fn lowered(s: Seq<char>) -> Seq<char> {
    s.map_values(|c: char| text::lower_char(c))
}

pub fn to_lower(s: &str) -> (res: String)
    ensures
        res@ == lowered(s@),
{
    let chars: Vec<char> = chars_of(s);
    let mut out = String::new();
    let mut i: usize = 0;
    while i < chars.len()
        invariant
            i <= chars.len(),
            chars@ == s@,
            out@ == lowered(s@).take(i as int),
        decreases chars.len() - i,
    {
        out.push(lower(chars[i]));
        assert(out@ =~= lowered(s@).take(i as int + 1));
        i += 1;
    }
    assert(lowered(s@).take(s@.len() as int) == lowered(s@));
    out
}

// ---------------------------------------------------------------------------
// Slugs
// ---------------------------------------------------------------------------
/// The character in small letters if it is an ASCII letter or digit or one of the others, and a
/// hyphen in the place of any other character.
pub open spec fn slug_char(c: char, others: Seq<char>) -> char {
    if text::is_alphanumeric(c) || others.contains(c) {
        text::lower_char(c)
    } else {
        '-'
    }
}

/// The text with hyphens in the place of what a file name should not hold, and without hyphens
/// at its ends.
pub open spec fn slug(s: Seq<char>, others: Seq<char>) -> Seq<char> {
    text::trim_by(s.map_values(|c: char| slug_char(c, others)), text::among("-"@))
}

pub fn slug_text(s: &str, others: &str) -> (res: String)
    ensures
        res@ == slug(s@, others@),
{
    let chars: Vec<char> = chars_of(s);
    let kept: Vec<char> = chars_of(others);
    let ghost wanted = s@.map_values(|c: char| slug_char(c, others@));
    let mut out: Vec<char> = Vec::new();
    let mut i: usize = 0;
    while i < chars.len()
        invariant
            i <= chars.len(),
            chars@ == s@,
            kept@ == others@,
            wanted == s@.map_values(|c: char| slug_char(c, others@)),
            out@ == wanted.take(i as int),
        decreases chars.len() - i,
    {
        let c: char = chars[i];
        if text::is_alphanumeric_char(c) || text::chars_contain(kept.as_slice(), c) {
            out.push(lower(c));
        } else {
            out.push('-');
        }
        assert(out@ =~= wanted.take(i as int + 1));
        i += 1;
    }
    assert(out@ =~= wanted);
    string_of(text::trim_chars(out.as_slice(), CharClass::Among("-")))
}

/// The characters that a slug can hold.
pub open spec fn is_slug_char(c: char, others: Seq<char>) -> bool {
    'a' <= c <= 'z' || text::is_digit(c) || c == '-' || others.contains(c)
}

/// A slug holds nothing but small letters, digits, hyphens and the others, and has no hyphen at
/// its ends.
pub proof fn lemma_slug_chars(s: Seq<char>, others: Seq<char>)
    ensures
        forall|i: int|
            0 <= i < slug(s, others).len() ==> is_slug_char(#[trigger] slug(s, others)[i], others),
        slug(s, others).len() > 0 ==> slug(s, others)[0] != '-' && slug(s, others).last() != '-',
{
    reveal_strlit("-");
    let all = s.map_values(|c: char| slug_char(c, others));
    let class = text::among("-"@);
    assert("-"@.contains('-')) by {
        assert("-"@[0] == '-');
    }
    assert forall|i: int| 0 <= i < all.len() implies is_slug_char(#[trigger] all[i], others) by {
        assert(all[i] == slug_char(s[i], others));
    }
    text::lemma_trim_start(all, class);
    text::lemma_trim_end(text::trim_start_by(all, class), class);
    assert(class('-'));
}

// ---------------------------------------------------------------------------
// Lines
// ---------------------------------------------------------------------------
pub open spec fn newline() -> spec_fn(char) -> bool {
    text::among("\n"@)
}

/// The line without the carriage return that may end it.
pub open spec fn without_return(line: Seq<char>) -> Seq<char> {
    if line.len() > 0 && line.last() == '\r' {
        line.drop_last()
    } else {
        line
    }
}

/// The lines of the text: each ends in a line feed, with or without a carriage return before
/// it, except the last one, which may lack it.
pub open spec fn lines(s: Seq<char>) -> Seq<Seq<char>>
    decreases s.len(),
{
    match search::position(s, newline()) {
        Some(i) => if 0 <= i < s.len() {
            seq![without_return(s.take(i))] + lines(s.skip(i + 1))
        } else {
            Seq::empty()
        },
        None => if s.len() == 0 {
            Seq::empty()
        } else {
            seq![s]
        },
    }
}

/// A joined text starts with its first part.
pub proof fn lemma_join_first(parts: Seq<Seq<char>>, sep: Seq<char>)
    requires
        parts.len() >= 2,
    ensures
        join(parts, sep) == parts[0] + sep + join(parts.drop_first(), sep),
    decreases parts.len(),
{
    if parts.len() == 2 {
        assert(join(parts.drop_last(), sep) == parts[0]);
        assert(join(parts.drop_first(), sep) == parts[1]);
    } else {
        lemma_join_first(parts.drop_last(), sep);
        let middle = parts.drop_last().drop_first();
        assert(parts.drop_first().drop_last() =~= middle);
        let body = join(middle, sep);
        assert(join(parts.drop_first(), sep) == body + sep + parts.last());
        assert((parts[0] + sep + body) + sep + parts.last() =~= parts[0] + sep + (body + sep
            + parts.last()));
    }
}

/// Two lists that are joined as one are the two joined texts with the separator between them.
pub proof fn lemma_join_parts(a: Seq<Seq<char>>, b: Seq<Seq<char>>, sep: Seq<char>)
    requires
        a.len() > 0,
        b.len() > 0,
    ensures
        join(a + b, sep) == join(a, sep) + sep + join(b, sep),
    decreases b.len(),
{
    let all = a + b;
    assert(all.last() == b.last());
    assert(all.drop_last() =~= a + b.drop_last());
    if b.len() == 1 {
        assert(a + b.drop_last() =~= a);
    } else {
        lemma_join_parts(a, b.drop_last(), sep);
        let less = join(b.drop_last(), sep);
        assert(join(a, sep) + sep + less + sep + b.last() =~= join(a, sep) + sep + (less + sep
            + b.last()));
    }
}

/// Each part of a joined text is found in it.
pub proof fn lemma_join_holds(parts: Seq<Seq<char>>, sep: Seq<char>, i: int)
    requires
        0 <= i < parts.len(),
    ensures
        search::contains(join(parts, sep), parts[i]),
    decreases parts.len(),
{
    search::lemma_parts_found();
    let whole = join(parts, sep);
    if parts.len() == 1 {
        assert(search::contains(Seq::<char>::empty() + parts[0], parts[0]));
        assert(Seq::<char>::empty() + parts[0] =~= parts[0]);
    } else if i < parts.len() - 1 {
        lemma_join_holds(parts.drop_last(), sep, i);
        assert(search::contains(join(parts.drop_last(), sep) + sep, parts[i]));
    }
}

/// A joined text is at least as long as each of its parts.
pub proof fn lemma_join_len(parts: Seq<Seq<char>>, sep: Seq<char>, i: int)
    requires
        0 <= i < parts.len(),
    ensures
        join(parts, sep).len() >= parts[i].len(),
    decreases parts.len(),
{
    if parts.len() >= 2 && i < parts.len() - 1 {
        lemma_join_len(parts.drop_last(), sep, i);
    }
}

/// Text that can stand in a line of its own: without line feeds, and without a carriage return
/// at its end.
pub open spec fn is_line(s: Seq<char>) -> bool {
    !s.contains('\n') && !(s.len() > 0 && s.last() == '\r')
}

/// Lines that were joined are read as the same lines.
pub proof fn lemma_lines_of_join(parts: Seq<Seq<char>>)
    requires
        parts.len() > 0,
        forall|i: int| 0 <= i < parts.len() ==> is_line(#[trigger] parts[i]),
    ensures
        lines(join(parts, "\n"@) + "\n"@) == parts,
    decreases parts.len(),
{
    reveal_strlit("\n");
    let first = parts[0];
    let n = first.len() as int;
    let whole = join(parts, "\n"@) + "\n"@;
    let rest = if parts.len() == 1 {
        Seq::<char>::empty()
    } else {
        join(parts.drop_first(), "\n"@) + "\n"@
    };
    if parts.len() >= 2 {
        lemma_join_first(parts, "\n"@);
    }
    assert(whole =~= first + "\n"@ + rest);
    assert(is_line(first));
    assert forall|j: int| 0 <= j < n implies !newline()(whole[j]) by {
        assert(whole[j] == first[j]);
        if "\n"@.contains(whole[j]) {
            assert(first.contains('\n'));
        }
    }
    assert(whole[n] == '\n');
    assert("\n"@[0] == '\n');
    assert(newline()(whole[n]));
    search::lemma_position_is(whole, newline(), n);
    assert(whole.take(n) =~= first);
    assert(whole.skip(n + 1) =~= rest);
    if parts.len() == 1 {
        search::lemma_position(rest, newline());
        assert(lines(rest) =~= Seq::empty());
        assert(seq![first] + Seq::empty() =~= parts);
    } else {
        let tail = parts.drop_first();
        assert forall|i: int| 0 <= i < tail.len() implies is_line(#[trigger] tail[i]) by {
            assert(tail[i] == parts[i + 1]);
        }
        lemma_lines_of_join(tail);
        assert(seq![first] + tail =~= parts);
    }
}

pub fn split_lines(s: &str) -> (res: Vec<String>)
    ensures
        res.deep_view() == lines(s@),
{
    let chars: Vec<char> = chars_of(s);
    let mut out: Vec<String> = Vec::new();
    let mut start: usize = 0;
    assert(s@.skip(0) == s@);
    assert(out.deep_view() + lines(s@) =~= lines(s@));
    loop
        invariant
            start <= chars.len(),
            chars@ == s@,
            lines(s@) == out.deep_view() + lines(s@.skip(start as int)),
        decreases chars.len() - start,
    {
        let n: usize = chars.len();
        let rest = slice_subrange(chars.as_slice(), start, n);
        assert(rest@ == s@.skip(start as int));
        match position_chars(rest, CharClass::Among("\n")) {
            Some(i) => {
                let end: usize = if i > 0 && rest[i - 1] == '\r' {
                    i - 1
                } else {
                    i
                };
                let line = slice_subrange(rest, 0, end);
                let ghost before = out.deep_view();
                out.push(string_of(line));
                proof {
                    assert(line@ =~= without_return(rest@.take(i as int)));
                    assert(out.deep_view() =~= before.push(line@));
                    assert(rest@.skip(i as int + 1) == s@.skip(start + i + 1));
                    assert(before + (seq![line@] + lines(rest@.skip(i as int + 1)))
                        =~= out.deep_view() + lines(rest@.skip(i as int + 1)));
                }
                start = start + i + 1;
            },
            None => {
                let ghost before = out.deep_view();
                if rest.len() > 0 {
                    out.push(string_of(rest));
                    assert(out.deep_view() =~= before + seq![rest@]);
                } else {
                    assert(before + Seq::<Seq<char>>::empty() =~= before);
                }
                return out;
            },
        }
    }
}

// ---------------------------------------------------------------------------
// Decimal numbers
// ---------------------------------------------------------------------------
pub open spec fn digit(n: int) -> char {
    ((48 + n) as u32) as char
}

/// The decimal digits of the number.
pub open spec fn decimal(n: nat) -> Seq<char>
    decreases n,
{
    if n < 10 {
        seq![digit(n as int)]
    } else {
        decimal(n / 10).push(digit((n % 10) as int))
    }
}

/// The decimal digits of the number, after a minus sign where it is negative.
pub open spec fn signed_decimal(i: int) -> Seq<char> {
    if i < 0 {
        seq!['-'] + decimal((-i) as nat)
    } else {
        decimal(i as nat)
    }
}

pub const EMPTY_NUMBER: &'static str = "cannot parse integer from empty string";

pub const INVALID_DIGIT: &'static str = "invalid digit found in string";

pub const NUMBER_TOO_LARGE: &'static str = "number too large to fit in target type";

/// The number that the digits write down, or what is wrong with the first of them that cannot
/// be read.
pub open spec fn digits_value(s: Seq<char>, max: nat) -> Result<nat, Seq<char>>
    decreases s.len(),
{
    if s.len() == 0 {
        Ok(0)
    } else {
        match digits_value(s.drop_last(), max) {
            Err(error) => Err(error),
            Ok(value) => {
                let next = value * 10 + (s.last() as u32 - 48);
                if !text::is_digit(s.last()) {
                    Err(INVALID_DIGIT@)
                } else if next > max {
                    Err(NUMBER_TOO_LARGE@)
                } else {
                    Ok(next as nat)
                }
            },
        }
    }
}

/// The number that the text writes down, with or without a plus sign, or why it is no decimal
/// number that is at most `max`.
pub open spec fn parsed_decimal(s: Seq<char>, max: nat) -> Result<nat, Seq<char>> {
    if s.len() == 0 {
        Err(EMPTY_NUMBER@)
    } else if s[0] == '+' {
        if s.len() == 1 {
            Err(INVALID_DIGIT@)
        } else {
            digits_value(s.drop_first(), max)
        }
    } else {
        digits_value(s, max)
    }
}

pub open spec fn parsed_number(s: Seq<char>, max: nat) -> Option<nat> {
    match parsed_decimal(s, max) {
        Ok(n) => Some(n),
        Err(_) => None,
    }
}

pub fn decimal_text(n: u64) -> (res: String)
    ensures
        res@ == decimal(n as nat),
    decreases n,
{
    let last: char = (48u8 + (n % 10) as u8) as char;
    let mut out = if n < 10 {
        String::new()
    } else {
        decimal_text(n / 10)
    };
    out.push(last);
    assert(n < 10 ==> out@ =~= seq![digit(n as int)]);
    out
}

/// The same for numbers that need more than 64 bits.
pub fn wide_decimal_text(n: u128) -> (res: String)
    ensures
        res@ == decimal(n as nat),
    decreases n,
{
    let last: char = (48u8 + (n % 10) as u8) as char;
    let mut out = if n < 10 {
        String::new()
    } else {
        wide_decimal_text(n / 10)
    };
    out.push(last);
    assert(n < 10 ==> out@ =~= seq![digit(n as int)]);
    out
}

pub fn signed_text(i: i32) -> (res: String)
    ensures
        res@ == signed_decimal(i as int),
{
    if i < 0 {
        let magnitude: u64 = (-(i as i64)) as u64;
        let mut out = String::new();
        out.push('-');
        assert(out@ =~= seq!['-']);
        out.append(decimal_text(magnitude).as_str());
        out
    } else {
        decimal_text(i as u64)
    }
}

proof fn lemma_digits_error(s: Seq<char>, max: nat, i: int)
    requires
        0 <= i <= s.len(),
        digits_value(s.take(i), max) is Err,
    ensures
        digits_value(s, max) == digits_value(s.take(i), max),
    decreases s.len() - i,
{
    if i < s.len() {
        assert(s.take(i + 1).drop_last() == s.take(i));
        lemma_digits_error(s, max, i + 1);
    } else {
        assert(s.take(i) == s);
    }
}

fn parse_digits(digits: &[char], max: u64) -> (res: Result<u64, &'static str>)
    ensures
        match res {
            Ok(n) => digits_value(digits@, max as nat) == Ok::<nat, Seq<char>>(n as nat) && n
                <= max,
            Err(error) => digits_value(digits@, max as nat) == Err::<nat, Seq<char>>(error@),
        },
{
    let mut value: u64 = 0;
    let mut i: usize = 0;
    assert(digits@.take(0) =~= Seq::<char>::empty());
    while i < digits.len()
        invariant
            i <= digits.len(),
            digits_value(digits@.take(i as int), max as nat) == Ok::<nat, Seq<char>>(value as nat),
            value <= max,
        decreases digits.len() - i,
    {
        let c: char = digits[i];
        proof {
            assert(digits@.take(i as int + 1).drop_last() == digits@.take(i as int));
            assert(digits@.take(i as int + 1).last() == c);
        }
        if !('0' <= c && c <= '9') {
            proof {
                lemma_digits_error(digits@, max as nat, i as int + 1);
            }
            return Err(INVALID_DIGIT);
        }
        let d: u64 = (c as u32 - 48) as u64;
        let scaled: Option<u64> = value.checked_mul(10);
        let next: Option<u64> = match scaled {
            Some(v) => v.checked_add(d),
            None => None,
        };
        match next {
            Some(v) => {
                if v > max {
                    proof {
                        lemma_digits_error(digits@, max as nat, i as int + 1);
                    }
                    return Err(NUMBER_TOO_LARGE);
                }
                value = v;
            },
            None => {
                proof {
                    lemma_digits_error(digits@, max as nat, i as int + 1);
                }
                return Err(NUMBER_TOO_LARGE);
            },
        }
        i += 1;
    }
    assert(digits@.take(digits@.len() as int) == digits@);
    Ok(value)
}

pub fn parse_decimal(s: &str, max: u64) -> (res: Result<u64, &'static str>)
    ensures
        match res {
            Ok(n) => parsed_decimal(s@, max as nat) == Ok::<nat, Seq<char>>(n as nat) && n <= max,
            Err(error) => parsed_decimal(s@, max as nat) == Err::<nat, Seq<char>>(error@),
        },
{
    let chars: Vec<char> = chars_of(s);
    let n: usize = chars.len();
    if n == 0 {
        return Err(EMPTY_NUMBER);
    }
    if chars[0] == '+' {
        if n == 1 {
            return Err(INVALID_DIGIT);
        }
        let digits = slice_subrange(chars.as_slice(), 1, n);
        assert(digits@ =~= s@.drop_first());
        return parse_digits(digits, max);
    }
    parse_digits(chars.as_slice(), max)
}

pub fn parse_number(s: &str, max: u64) -> (res: Option<u64>)
    ensures
        res is Some <==> parsed_number(s@, max as nat) is Some,
        res matches Some(n) ==> parsed_number(s@, max as nat) == Some(n as nat) && n <= max,
{
    match parse_decimal(s, max) {
        Ok(n) => Some(n),
        Err(_) => None,
    }
}

// ---------------------------------------------------------------------------
// Laws of numbers and letters
// ---------------------------------------------------------------------------
/// The digits of a number are digits, and the first of them is a zero only for zero itself.
pub proof fn lemma_decimal_digits(n: nat)
    ensures
        decimal(n).len() > 0,
        forall|i: int| 0 <= i < decimal(n).len() ==> text::is_digit(#[trigger] decimal(n)[i]),
        n > 0 ==> decimal(n)[0] != '0',
    decreases n,
{
    lemma_digit((n % 10) as int);
    if n < 10 {
        lemma_digit(n as int);
    } else {
        lemma_decimal_digits(n / 10);
        let less = decimal(n / 10);
        assert forall|i: int| 0 <= i < decimal(n).len() implies text::is_digit(
            #[trigger] decimal(n)[i],
        ) by {
            if i < less.len() {
                assert(decimal(n)[i] == less[i]);
            }
        }
        assert(decimal(n)[0] == less[0]);
    }
}

proof fn lemma_digit(d: int)
    requires
        0 <= d < 10,
    ensures
        text::is_digit(digit(d)),
        digit(d) as u32 - 48 == d,
        digit(d) == '0' <==> d == 0,
{
}

/// A number is read back from its digits, where it is within the limit; larger ones are refused.
pub proof fn lemma_decimal_reads_back(n: nat, max: nat)
    ensures
        n <= max ==> parsed_decimal(decimal(n), max) == Ok::<nat, Seq<char>>(n),
        n > max ==> parsed_decimal(decimal(n), max) is Err,
{
    lemma_decimal_digits(n);
    lemma_digits_read_back(n, max);
    assert(text::is_digit(decimal(n)[0]));
}

proof fn lemma_digits_read_back(n: nat, max: nat)
    ensures
        n <= max ==> digits_value(decimal(n), max) == Ok::<nat, Seq<char>>(n),
        n > max ==> digits_value(decimal(n), max) is Err,
    decreases n,
{
    let all = decimal(n);
    if n < 10 {
        lemma_digit(n as int);
        assert(all.drop_last() =~= Seq::empty());
        assert(digits_value(Seq::empty(), max) == Ok::<nat, Seq<char>>(0));
        assert(all.last() == digit(n as int));
    } else {
        lemma_digits_read_back(n / 10, max);
        lemma_digit((n % 10) as int);
        assert(all.drop_last() =~= decimal(n / 10));
        assert(all.last() == digit((n % 10) as int));
    }
}

/// Text without ASCII capital letters stays as it is; making letters small twice is the same as
/// once.
pub proof fn lemma_lowered(s: Seq<char>)
    ensures
        lowered(s).len() == s.len(),
        lowered(lowered(s)) == lowered(s),
        (forall|i: int| 0 <= i < s.len() ==> !('A' <= #[trigger] s[i] <= 'Z')) ==> lowered(s) == s,
        forall|i: int|
            0 <= i < s.len() && 'A' <= #[trigger] s[i] <= 'Z' ==> lowered(s)[i] as u32 == s[i] as u32
                + 32,
{
    assert forall|i: int| 0 <= i < s.len() implies !('A' <= #[trigger] lowered(s)[i] <= 'Z') by {
        if 'A' <= s[i] <= 'Z' {
            lemma_small(s[i]);
        }
    }
    assert forall|i: int| 0 <= i < s.len() && 'A' <= #[trigger] s[i] <= 'Z' implies lowered(
        s,
    )[i] as u32 == s[i] as u32 + 32 by {
        lemma_small(s[i]);
    }
    assert(lowered(lowered(s)) =~= lowered(s));
    if forall|i: int| 0 <= i < s.len() ==> !('A' <= #[trigger] s[i] <= 'Z') {
        assert(lowered(s) =~= s);
    }
}

proof fn lemma_small(c: char)
    requires
        'A' <= c <= 'Z',
    ensures
        text::lower_char(c) as u32 == c as u32 + 32,
        'a' <= text::lower_char(c) <= 'z',
{
}

/// A text that starts and ends with a letter or a digit keeps its length as a slug: letters become
/// small, digits stay, and everything else becomes a hyphen, in its place.
pub proof fn lemma_slug_each(s: Seq<char>, others: Seq<char>)
    requires
        s.len() > 0,
        text::is_alphanumeric(s[0]),
        text::is_alphanumeric(s.last()),
    ensures
        slug(s, others).len() == s.len(),
        forall|i: int|
            0 <= i < s.len() ==> {
                let c = #[trigger] slug(s, others)[i];
                &&& text::is_digit(s[i]) || 'a' <= s[i] <= 'z' ==> c == s[i]
                &&& 'A' <= s[i] <= 'Z' ==> c as u32 == s[i] as u32 + 32
                &&& !text::is_alphanumeric(s[i]) && !others.contains(s[i]) ==> c == '-'
            },
{
    reveal_strlit("-");
    let all = s.map_values(|c: char| slug_char(c, others));
    let class = text::among("-"@);
    assert forall|c: char| #[trigger] class(c) implies c == '-' by {
        let i = choose|i: int| 0 <= i < "-"@.len() && "-"@[i] == c;
        assert(i == 0);
    }
    assert forall|c: char| text::is_alphanumeric(c) implies #[trigger] slug_char(c, others)
        != '-' by {
        if 'A' <= c <= 'Z' {
            lemma_small(c);
        }
    }
    assert(all[0] == slug_char(s[0], others));
    assert(all.last() == slug_char(s.last(), others));
    assert(!class(all[0]));
    assert(!class(all.last()));
    assert(slug(s, others) == all);
    assert forall|i: int| 0 <= i < s.len() implies {
        let c = #[trigger] slug(s, others)[i];
        &&& text::is_digit(s[i]) || 'a' <= s[i] <= 'z' ==> c == s[i]
        &&& 'A' <= s[i] <= 'Z' ==> c as u32 == s[i] as u32 + 32
        &&& !text::is_alphanumeric(s[i]) && !others.contains(s[i]) ==> c == '-'
    } by {
        if 'A' <= s[i] <= 'Z' {
            lemma_small(s[i]);
        }
    }
}

/// A negative number is its opposite with a minus sign before it.
pub proof fn lemma_signed_decimal(n: nat)
    ensures
        signed_decimal(n as int) == decimal(n),
        n > 0 ==> signed_decimal(-(n as int)) == seq!['-'] + decimal(n),
{
}

} // verus!
