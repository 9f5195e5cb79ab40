//! Searching and splitting text.
use crate::text::{chars_of, same_chars, string_of, CharClass};
use vstd::prelude::*;
use vstd::slice::slice_subrange;

verus! {

// ---------------------------------------------------------------------------
// Finding
// ---------------------------------------------------------------------------
/// `pat` stands in `s` from position `i` on.
pub open spec fn occurs_at(s: Seq<char>, pat: Seq<char>, i: int) -> bool {
    0 <= i && i + pat.len() <= s.len() && s.subrange(i, i + pat.len()) == pat
}

pub open spec fn first_occurrence(s: Seq<char>, pat: Seq<char>, i: int) -> bool {
    occurs_at(s, pat, i) && forall|j: int| 0 <= j < i ==> !occurs_at(s, pat, j)
}

/// The position of the first occurrence of `pat` in `s`.
pub open spec fn find(s: Seq<char>, pat: Seq<char>) -> Option<int> {
    if exists|i: int| first_occurrence(s, pat, i) {
        Some(choose|i: int| first_occurrence(s, pat, i))
    } else {
        None
    }
}

pub open spec fn contains(s: Seq<char>, pat: Seq<char>) -> bool {
    exists|i: int| occurs_at(s, pat, i)
}

pub open spec fn first_hit(s: Seq<char>, f: spec_fn(char) -> bool, i: int) -> bool {
    0 <= i < s.len() && f(s[i]) && forall|j: int| 0 <= j < i ==> !f(s[j])
}

/// The position of the first character of `s` that satisfies `f`.
pub open spec fn position(s: Seq<char>, f: spec_fn(char) -> bool) -> Option<int> {
    if exists|i: int| first_hit(s, f, i) {
        Some(choose|i: int| first_hit(s, f, i))
    } else {
        None
    }
}

pub proof fn lemma_find_is(s: Seq<char>, pat: Seq<char>, i: int)
    requires
        first_occurrence(s, pat, i),
    ensures
        find(s, pat) == Some(i),
        contains(s, pat),
{
    let k = choose|k: int| first_occurrence(s, pat, k);
    assert(first_occurrence(s, pat, k));
    if k < i {
        assert(!occurs_at(s, pat, k));
    } else if i < k {
        assert(!occurs_at(s, pat, i));
    }
}

pub proof fn lemma_find_none(s: Seq<char>, pat: Seq<char>)
    requires
        forall|j: int| 0 <= j <= s.len() - pat.len() ==> !occurs_at(s, pat, j),
    ensures
        find(s, pat) is None,
        !contains(s, pat),
{
}

/// A found position is the first one at which the pattern stands.
pub proof fn lemma_find(s: Seq<char>, pat: Seq<char>)
    ensures
        find(s, pat) matches Some(i) ==> first_occurrence(s, pat, i) && 0 <= i && i + pat.len()
            <= s.len(),
        find(s, pat) is Some <==> contains(s, pat),
{
    if contains(s, pat) {
        let i = choose|i: int| occurs_at(s, pat, i);
        lemma_first_exists(s, pat, i);
    }
}

proof fn lemma_first_exists(s: Seq<char>, pat: Seq<char>, i: int)
    requires
        occurs_at(s, pat, i),
    ensures
        exists|k: int| first_occurrence(s, pat, k),
    decreases i,
{
    if exists|j: int| 0 <= j < i && occurs_at(s, pat, j) {
        let j = choose|j: int| 0 <= j < i && occurs_at(s, pat, j);
        lemma_first_exists(s, pat, j);
    } else {
        assert(first_occurrence(s, pat, i));
    }
}

pub proof fn lemma_position_is(s: Seq<char>, f: spec_fn(char) -> bool, i: int)
    requires
        first_hit(s, f, i),
    ensures
        position(s, f) == Some(i),
{
    let k = choose|k: int| first_hit(s, f, k);
    assert(first_hit(s, f, k));
    if k < i {
        assert(!f(s[k]));
    } else if i < k {
        assert(!f(s[i]));
    }
}

/// Without a position, no character satisfies the predicate.
pub proof fn lemma_position(s: Seq<char>, f: spec_fn(char) -> bool)
    ensures
        position(s, f) matches Some(i) ==> first_hit(s, f, i) && 0 <= i < s.len(),
        position(s, f) is None ==> forall|j: int| 0 <= j < s.len() ==> !f(s[j]),
{
    if position(s, f) is None {
        assert forall|j: int| 0 <= j < s.len() implies !f(s[j]) by {
            if f(s[j]) {
                lemma_hit_exists(s, f, j);
            }
        }
    }
}

proof fn lemma_hit_exists(s: Seq<char>, f: spec_fn(char) -> bool, i: int)
    requires
        0 <= i < s.len(),
        f(s[i]),
    ensures
        exists|k: int| first_hit(s, f, k),
    decreases i,
{
    if exists|j: int| 0 <= j < i && f(s[j]) {
        let j = choose|j: int| 0 <= j < i && f(s[j]);
        lemma_hit_exists(s, f, j);
    } else {
        assert(first_hit(s, f, i));
    }
}

pub fn occurs(chars: &[char], pat: &[char], i: usize) -> (res: bool)
    requires
        i <= chars.len(),
    ensures
        res == occurs_at(chars@, pat@, i as int),
{
    if chars.len() - i < pat.len() {
        return false;
    }
    same_chars(slice_subrange(chars, i, i + pat.len()), pat)
}

pub fn find_chars(chars: &[char], pat: &[char]) -> (res: Option<usize>)
    ensures
        res is Some <==> find(chars@, pat@) is Some,
        res matches Some(i) ==> find(chars@, pat@) == Some(i as int) && first_occurrence(
            chars@,
            pat@,
            i as int,
        ) && i + pat@.len() <= chars@.len(),
{
    let mut i: usize = 0;
    loop
        invariant
            i <= chars.len(),
            forall|j: int| 0 <= j < i ==> !occurs_at(chars@, pat@, j),
        decreases chars.len() - i,
    {
        if occurs(chars, pat, i) {
            proof {
                lemma_find_is(chars@, pat@, i as int);
            }
            return Some(i);
        }
        if i == chars.len() {
            proof {
                lemma_find_none(chars@, pat@);
            }
            return None;
        }
        i += 1;
    }
}

pub fn position_chars(chars: &[char], class: CharClass) -> (res: Option<usize>)
    ensures
        res is Some <==> position(chars@, class.predicate()) is Some,
        res matches Some(i) ==> position(chars@, class.predicate()) == Some(i as int) && first_hit(
            chars@,
            class.predicate(),
            i as int,
        ),
{
    let mut i: usize = 0;
    while i < chars.len()
        invariant
            i <= chars.len(),
            forall|j: int| 0 <= j < i ==> !class.predicate()(chars@[j]),
        decreases chars.len() - i,
    {
        if class.holds(chars[i]) {
            proof {
                lemma_position_is(chars@, class.predicate(), i as int);
            }
            return Some(i);
        }
        i += 1;
    }
    None
}

pub fn has_text(s: &str, pat: &str) -> (res: bool)
    ensures
        res == contains(s@, pat@),
{
    let chars: Vec<char> = chars_of(s);
    let wanted: Vec<char> = chars_of(pat);
    proof {
        lemma_find(s@, pat@);
    }
    find_chars(chars.as_slice(), wanted.as_slice()).is_some()
}

// ---------------------------------------------------------------------------
// Prefixes and suffixes
// ---------------------------------------------------------------------------
pub open spec fn starts_with(s: Seq<char>, pat: Seq<char>) -> bool {
    pat.len() <= s.len() && s.take(pat.len() as int) == pat
}

pub open spec fn ends_with(s: Seq<char>, pat: Seq<char>) -> bool {
    pat.len() <= s.len() && s.skip(s.len() - pat.len()) == pat
}

/// What follows the prefix `pat`, if `s` starts with it.
pub open spec fn strip_prefix(s: Seq<char>, pat: Seq<char>) -> Option<Seq<char>> {
    if starts_with(s, pat) {
        Some(s.skip(pat.len() as int))
    } else {
        None
    }
}

/// What precedes the suffix `pat`, if `s` ends with it.
pub open spec fn strip_suffix(s: Seq<char>, pat: Seq<char>) -> Option<Seq<char>> {
    if ends_with(s, pat) {
        Some(s.take(s.len() - pat.len()))
    } else {
        None
    }
}

pub fn chars_start_with(chars: &[char], pat: &[char]) -> (res: bool)
    ensures
        res == starts_with(chars@, pat@),
{
    if chars.len() < pat.len() {
        return false;
    }
    assert(chars@.take(pat@.len() as int) == chars@.subrange(0, pat@.len() as int));
    same_chars(slice_subrange(chars, 0, pat.len()), pat)
}

pub fn has_prefix(s: &str, pat: &str) -> (res: bool)
    ensures
        res == starts_with(s@, pat@),
{
    let chars: Vec<char> = chars_of(s);
    let wanted: Vec<char> = chars_of(pat);
    chars_start_with(chars.as_slice(), wanted.as_slice())
}

pub fn without_prefix(s: &str, pat: &str) -> (res: Option<String>)
    ensures
        res.deep_view() == strip_prefix(s@, pat@),
{
    let chars: Vec<char> = chars_of(s);
    let wanted: Vec<char> = chars_of(pat);
    if chars_start_with(chars.as_slice(), wanted.as_slice()) {
        assert(s@.skip(pat@.len() as int) == s@.subrange(pat@.len() as int, s@.len() as int));
        Some(string_of(slice_subrange(chars.as_slice(), wanted.len(), chars.len())))
    } else {
        None
    }
}

pub fn without_suffix(s: &str, pat: &str) -> (res: Option<String>)
    ensures
        res.deep_view() == strip_suffix(s@, pat@),
{
    let chars: Vec<char> = chars_of(s);
    let wanted: Vec<char> = chars_of(pat);
    if chars.len() < wanted.len() {
        return None;
    }
    let cut: usize = chars.len() - wanted.len();
    assert(s@.skip(cut as int) == s@.subrange(cut as int, s@.len() as int));
    if same_chars(slice_subrange(chars.as_slice(), cut, chars.len()), wanted.as_slice()) {
        assert(s@.take(cut as int) == s@.subrange(0, cut as int));
        Some(string_of(slice_subrange(chars.as_slice(), 0, cut)))
    } else {
        None
    }
}

// ---------------------------------------------------------------------------
// Splitting
// ---------------------------------------------------------------------------
/// The pieces of `s` between the characters that satisfy `f`.
pub open spec fn split_by(s: Seq<char>, f: spec_fn(char) -> bool) -> Seq<Seq<char>>
    decreases s.len(),
{
    match position(s, f) {
        Some(i) => if 0 <= i < s.len() {
            seq![s.take(i)] + split_by(s.skip(i + 1), f)
        } else {
            seq![s]
        },
        None => seq![s],
    }
}

pub open spec fn non_empty() -> spec_fn(Seq<char>) -> bool {
    |p: Seq<char>| p.len() > 0
}

/// The words of the text: its pieces between white space, without the empty ones.
pub open spec fn words(s: Seq<char>) -> Seq<Seq<char>> {
    split_by(s, crate::text::white()).filter(non_empty())
}

/// What stands before and after the first occurrence of `pat`.
pub open spec fn split_once(s: Seq<char>, pat: Seq<char>) -> Option<(Seq<char>, Seq<char>)> {
    match find(s, pat) {
        Some(i) => Some((s.take(i), s.skip(i + pat.len()))),
        None => None,
    }
}

/// A split has at least one piece.
pub proof fn lemma_split_nonempty(s: Seq<char>, f: spec_fn(char) -> bool)
    ensures
        split_by(s, f).len() > 0,
{
    lemma_position(s, f);
}

/// No piece of a split holds a character at which it was split.
pub proof fn lemma_split_pieces(s: Seq<char>, f: spec_fn(char) -> bool)
    ensures
        forall|i: int, j: int|
            0 <= i < split_by(s, f).len() && 0 <= j < split_by(s, f)[i].len() ==> !f(
                #[trigger] split_by(s, f)[i][j],
            ),
    decreases s.len(),
{
    lemma_position(s, f);
    if let Some(k) = position(s, f) {
        let rest = split_by(s.skip(k + 1), f);
        lemma_split_pieces(s.skip(k + 1), f);
        assert forall|i: int, j: int|
            0 <= i < split_by(s, f).len() && 0 <= j < split_by(s, f)[i].len() implies !f(
            #[trigger] split_by(s, f)[i][j],
        ) by {
            if i > 0 {
                assert(split_by(s, f)[i] == rest[i - 1]);
                assert(!f(rest[i - 1][j]));
            } else {
                assert(split_by(s, f)[0] == s.take(k));
            }
        }
    }
}

/// Pieces that were joined are found again by a split at what joins them.
pub proof fn lemma_split_of_join(parts: Seq<Seq<char>>, sep: char, f: spec_fn(char) -> bool)
    requires
        parts.len() > 0,
        f(sep),
        forall|i: int, j: int|
            0 <= i < parts.len() && 0 <= j < parts[i].len() ==> !f(#[trigger] parts[i][j]),
    ensures
        split_by(crate::compose::join(parts, seq![sep]), f) == parts,
    decreases parts.len(),
{
    let whole = crate::compose::join(parts, seq![sep]);
    let first = parts[0];
    let n = first.len() as int;
    if parts.len() == 1 {
        assert forall|j: int| 0 <= j < whole.len() implies !f(whole[j]) by {
            assert(!f(parts[0][j]));
        }
        lemma_position(whole, f);
        assert(seq![whole] =~= parts);
    } else {
        crate::compose::lemma_join_first(parts, seq![sep]);
        let tail = parts.drop_first();
        let rest = crate::compose::join(tail, seq![sep]);
        assert forall|j: int| 0 <= j < n implies !f(whole[j]) by {
            assert(whole[j] == parts[0][j]);
        }
        assert(whole[n] == sep);
        lemma_position_is(whole, f, n);
        assert(whole.take(n) =~= first);
        assert(whole.skip(n + 1) =~= rest);
        assert forall|i: int, j: int|
            0 <= i < tail.len() && 0 <= j < tail[i].len() implies !f(#[trigger] tail[i][j]) by {
            assert(tail[i] == parts[i + 1]);
            assert(!f(parts[i + 1][j]));
        }
        lemma_split_of_join(tail, sep, f);
        assert(seq![first] + tail =~= parts);
    }
}

/// What a filter keeps was there before.
pub proof fn lemma_filter_origin<A>(s: Seq<A>, f: spec_fn(A) -> bool, i: int)
    requires
        0 <= i < s.filter(f).len(),
    ensures
        f(s.filter(f)[i]),
        s.contains(s.filter(f)[i]),
    decreases s.len(),
{
    reveal(Seq::filter);
    let rest = s.drop_last();
    if f(s.last()) && i == rest.filter(f).len() {
        assert(s.filter(f)[i] == s.last());
        assert(s[s.len() - 1] == s.last());
    } else {
        lemma_filter_origin(rest, f, i);
        let k = choose|k: int| 0 <= k < rest.len() && rest[k] == rest.filter(f)[i];
        assert(s[k] == s.filter(f)[i]);
    }
}

/// A filter keeps everything where everything is wanted.
pub proof fn lemma_filter_all<A>(s: Seq<A>, f: spec_fn(A) -> bool)
    requires
        forall|i: int| 0 <= i < s.len() ==> f(#[trigger] s[i]),
    ensures
        s.filter(f) == s,
    decreases s.len(),
{
    reveal(Seq::filter);
    if s.len() > 0 {
        let rest = s.drop_last();
        assert forall|i: int| 0 <= i < rest.len() implies f(#[trigger] rest[i]) by {
            assert(rest[i] == s[i]);
        }
        lemma_filter_all(rest, f);
        assert(f(s[s.len() - 1]));
        assert(rest.push(s.last()) =~= s);
    } else {
        assert(s.filter(f) =~= s);
    }
}

pub fn split_chars(chars: &[char], class: CharClass) -> (res: Vec<String>)
    ensures
        res.deep_view() == split_by(chars@, class.predicate()),
{
    let mut out: Vec<String> = Vec::new();
    let mut start: usize = 0;
    let ghost f = class.predicate();
    assert(chars@.skip(0) == chars@);
    assert(out.deep_view() =~= Seq::<Seq<char>>::empty());
    assert(out.deep_view() + split_by(chars@, f) =~= split_by(chars@, f));
    loop
        invariant
            start <= chars.len(),
            f == class.predicate(),
            split_by(chars@, f) == out.deep_view() + split_by(chars@.skip(start as int), f),
        decreases chars.len() - start,
    {
        let rest = slice_subrange(chars, start, chars.len());
        assert(rest@ == chars@.skip(start as int));
        match position_chars(rest, class) {
            Some(i) => {
                let piece = slice_subrange(rest, 0, i);
                let ghost before = out.deep_view();
                out.push(string_of(piece));
                proof {
                    assert(piece@ == rest@.take(i as int));
                    assert(out.deep_view() =~= before.push(rest@.take(i as int)));
                    assert(rest@.skip(i as int + 1) == chars@.skip(start + i + 1));
                    assert(before + (seq![rest@.take(i as int)] + split_by(rest@.skip(i as int + 1), f))
                        =~= out.deep_view() + split_by(rest@.skip(i as int + 1), f));
                }
                start = start + i + 1;
            },
            None => {
                let ghost before = out.deep_view();
                out.push(string_of(rest));
                assert(out.deep_view() =~= before + seq![rest@]);
                return out;
            },
        }
    }
}

pub fn split(s: &str, class: CharClass) -> (res: Vec<String>)
    ensures
        res.deep_view() == split_by(s@, class.predicate()),
{
    let chars: Vec<char> = chars_of(s);
    split_chars(chars.as_slice(), class)
}

pub proof fn lemma_filter_step<A>(s: Seq<A>, f: spec_fn(A) -> bool, i: int)
    requires
        0 <= i < s.len(),
    ensures
        s.take(i + 1).filter(f) == if f(s[i]) {
            s.take(i).filter(f).push(s[i])
        } else {
            s.take(i).filter(f)
        },
{
    reveal(Seq::filter);
    assert(s.take(i + 1).drop_last() == s.take(i));
    assert(s.take(i + 1).last() == s[i]);
}

/// The strings of the list that are not empty.
pub fn keep_non_empty(list: &[String]) -> (res: Vec<String>)
    ensures
        res.deep_view() == list.deep_view().filter(non_empty()),
{
    let mut out: Vec<String> = Vec::new();
    let mut i: usize = 0;
    let ghost all = list.deep_view();
    proof {
        reveal(Seq::filter);
        assert(all.take(0) =~= Seq::<Seq<char>>::empty());
        assert(out.deep_view() =~= Seq::<Seq<char>>::empty());
    }
    while i < list.len()
        invariant
            i <= list.len(),
            all == list.deep_view(),
            out.deep_view() == all.take(i as int).filter(non_empty()),
        decreases list.len() - i,
    {
        proof {
            lemma_filter_step(all, non_empty(), i as int);
            assert(all[i as int] == list@[i as int]@);
        }
        if !list[i].as_str().is_empty() {
            let ghost before = out.deep_view();
            out.push(list[i].clone());
            assert(out.deep_view() =~= before.push(all[i as int]));
        }
        i += 1;
    }
    assert(all.take(all.len() as int) == all);
    out
}

pub fn split_words(s: &str) -> (res: Vec<String>)
    ensures
        res.deep_view() == words(s@),
{
    let pieces: Vec<String> = split(s, CharClass::White);
    keep_non_empty(pieces.as_slice())
}

pub fn split_at_text(s: &str, pat: &str) -> (res: Option<(String, String)>)
    ensures
        res is Some <==> split_once(s@, pat@) is Some,
        res matches Some(parts) ==> split_once(s@, pat@) == Some((parts.0@, parts.1@)),
{
    let chars: Vec<char> = chars_of(s);
    let wanted: Vec<char> = chars_of(pat);
    match find_chars(chars.as_slice(), wanted.as_slice()) {
        Some(i) => {
            let n: usize = chars.len();
            assert(i + wanted@.len() <= n);
            let before = slice_subrange(chars.as_slice(), 0, i);
            let after = slice_subrange(chars.as_slice(), i + wanted.len(), chars.len());
            assert(before@ == s@.take(i as int));
            assert(after@ == s@.skip(i + pat@.len()));
            Some((string_of(before), string_of(after)))
        },
        None => None,
    }
}

// ---------------------------------------------------------------------------
// Laws of what is found
// ---------------------------------------------------------------------------
/// What a text is made of is found in it.
pub proof fn lemma_parts_found()
    ensures
        forall|s: Seq<char>, pat: Seq<char>| #[trigger] contains(s + pat, pat),
        forall|s: Seq<char>, a: Seq<char>, b: Seq<char>| #[trigger] contains(s + a + b, a + b),
        forall|s: Seq<char>, more: Seq<char>, pat: Seq<char>|
            contains(s, pat) ==> #[trigger] contains(s + more, pat),
{
    assert forall|s: Seq<char>, pat: Seq<char>| #[trigger] contains(s + pat, pat) by {
        let n = s.len() as int;
        assert((s + pat).subrange(n, n + pat.len()) =~= pat);
        assert(occurs_at(s + pat, pat, n));
    }
    assert forall|s: Seq<char>, a: Seq<char>, b: Seq<char>| #[trigger]
        contains(s + a + b, a + b) by {
        let n = s.len() as int;
        assert((s + a + b).subrange(n, n + (a + b).len()) =~= a + b);
        assert(occurs_at(s + a + b, a + b, n));
    }
    assert forall|s: Seq<char>, more: Seq<char>, pat: Seq<char>|
        contains(s, pat) implies #[trigger] contains(s + more, pat) by {
        let i = choose|i: int| occurs_at(s, pat, i);
        assert((s + more).subrange(i, i + pat.len()) =~= s.subrange(i, i + pat.len()));
        assert(occurs_at(s + more, pat, i));
    }
}

// ---------------------------------------------------------------------------
// Laws of words
// ---------------------------------------------------------------------------
/// The word stands first in the text: before it comes nothing but white space, and behind it
/// nothing or white space.
pub open spec fn leads(s: Seq<char>, word: Seq<char>, indent: Seq<char>, rest: Seq<char>) -> bool {
    &&& s == indent + word + rest
    &&& word.len() > 0
    &&& forall|i: int| 0 <= i < indent.len() ==> crate::text::is_white(#[trigger] indent[i])
    &&& forall|i: int| 0 <= i < word.len() ==> !crate::text::is_white(#[trigger] word[i])
    &&& rest.len() > 0 ==> crate::text::is_white(rest[0])
}

/// The word stands first in the text.
pub open spec fn leads_with(s: Seq<char>, word: Seq<char>) -> bool {
    exists|indent: Seq<char>, rest: Seq<char>| leads(s, word, indent, rest)
}

/// A list of one is kept or left out as a whole.
pub proof fn lemma_filter_one<A>(x: A, f: spec_fn(A) -> bool)
    ensures
        seq![x].filter(f) == if f(x) {
            seq![x]
        } else {
            Seq::empty()
        },
{
    reveal_with_fuel(Seq::filter, 2);
    assert(seq![x].drop_last() =~= Seq::empty());
    assert(Seq::<A>::empty().filter(f) =~= Seq::empty());
    assert(seq![x].last() == x);
    assert(Seq::<A>::empty().push(x) =~= seq![x]);
}

/// The first of the words of a text is the word that stands first in it; the others are the words
/// of the rest.
pub proof fn lemma_first_word(
    s: Seq<char>,
    word: Seq<char>,
    indent: Seq<char>,
    rest: Seq<char>,
)
    requires
        leads(s, word, indent, rest),
    ensures
        words(s) == seq![word] + words(rest),
    decreases indent.len(),
{
    let f = crate::text::white();
    let kept = non_empty();
    if indent.len() > 0 {
        let less = indent.drop_first();
        let tail = less + word + rest;
        assert(s[0] == indent[0]);
        assert(f(s[0]));
        assert(first_hit(s, f, 0));
        lemma_position_is(s, f, 0);
        assert(s.skip(1) =~= tail);
        assert forall|i: int| 0 <= i < less.len() implies crate::text::is_white(
            #[trigger] less[i],
        ) by {
            assert(less[i] == indent[i + 1]);
        }
        lemma_first_word(tail, word, less, rest);
        let head = seq![s.take(0)];
        assert(split_by(s, f) == head + split_by(tail, f));
        Seq::filter_distributes_over_add(head, split_by(tail, f), kept);
        lemma_filter_one(s.take(0), kept);
        assert(words(s) =~= words(tail));
    } else {
        assert(s =~= word + rest);
        assert forall|j: int| 0 <= j < word.len() implies !f(#[trigger] s[j]) by {
            assert(s[j] == word[j]);
        }
        if rest.len() == 0 {
            assert(s =~= word);
            lemma_position(s, f);
            lemma_position(rest, f);
            assert(split_by(s, f) == seq![word]);
            lemma_filter_one(word, kept);
            assert(words(s) =~= seq![word]);
            assert(rest =~= Seq::empty());
            assert(split_by(rest, f) == seq![rest]);
            lemma_filter_one(rest, kept);
            assert(words(rest) =~= Seq::empty());
        } else {
            let n = word.len() as int;
            assert(s[n] == rest[0]);
            assert(first_hit(s, f, n));
            lemma_position_is(s, f, n);
            assert(s.take(n) =~= word);
            assert(s.skip(n + 1) =~= rest.skip(1));
            let head = seq![word];
            Seq::filter_distributes_over_add(head, split_by(rest.skip(1), f), kept);
            lemma_filter_one(word, kept);
            assert(first_hit(rest, f, 0));
            lemma_position_is(rest, f, 0);
            let blank = seq![rest.take(0)];
            Seq::filter_distributes_over_add(blank, split_by(rest.skip(1), f), kept);
            lemma_filter_one(rest.take(0), kept);
            assert(words(rest) =~= split_by(rest.skip(1), f).filter(kept));
        }
    }
}

} // verus!
