//! Lexicographic order of sequences of numbers, and of text by its characters.
use crate::text::chars_of;
use vstd::prelude::*;

verus! {

/// `a` comes before `b`: at the first place at which they differ `a` has the smaller number, or
/// `a` ends there.
pub open spec fn precedes(a: Seq<u32>, b: Seq<u32>) -> bool
    decreases a.len(),
{
    if b.len() == 0 {
        false
    } else if a.len() == 0 {
        true
    } else if a[0] != b[0] {
        a[0] < b[0]
    } else {
        precedes(a.drop_first(), b.drop_first())
    }
}

/// The numbers of the characters.
pub open spec fn codes(s: Seq<char>) -> Seq<u32> {
    s.map_values(|c: char| c as u32)
}

/// `a` comes before `b` in the order of their characters.
pub open spec fn text_before(a: Seq<char>, b: Seq<char>) -> bool {
    precedes(codes(a), codes(b))
}

/// Nothing comes before itself.
pub proof fn lemma_irreflexive(a: Seq<u32>)
    ensures
        !precedes(a, a),
    decreases a.len(),
{
    if a.len() > 0 {
        lemma_irreflexive(a.drop_first());
    }
}

pub proof fn lemma_transitive(a: Seq<u32>, b: Seq<u32>, c: Seq<u32>)
    requires
        precedes(a, b),
        precedes(b, c),
    ensures
        precedes(a, c),
    decreases a.len(),
{
    if a.len() > 0 && a[0] == b[0] && b[0] == c[0] {
        lemma_transitive(a.drop_first(), b.drop_first(), c.drop_first());
    }
}

/// Of two different sequences one comes before the other.
pub proof fn lemma_total(a: Seq<u32>, b: Seq<u32>)
    ensures
        a == b || precedes(a, b) || precedes(b, a),
    decreases a.len(),
{
    if a.len() > 0 && b.len() > 0 && a[0] == b[0] {
        lemma_total(a.drop_first(), b.drop_first());
        if a.drop_first() == b.drop_first() {
            assert(a =~= seq![a[0]] + a.drop_first());
            assert(b =~= seq![b[0]] + b.drop_first());
        }
    } else if a.len() == 0 && b.len() == 0 {
        assert(a =~= b);
    }
}

pub fn is_before(a: &[u32], b: &[u32]) -> (res: bool)
    ensures
        res == precedes(a@, b@),
{
    let mut i: usize = 0;
    assert(a@.skip(0) == a@);
    assert(b@.skip(0) == b@);
    while i < a.len() && i < b.len() && a[i] == b[i]
        invariant
            i <= a.len(),
            i <= b.len(),
            precedes(a@, b@) == precedes(a@.skip(i as int), b@.skip(i as int)),
        decreases a.len() - i,
    {
        assert(a@.skip(i as int).drop_first() == a@.skip(i as int + 1));
        assert(b@.skip(i as int).drop_first() == b@.skip(i as int + 1));
        i += 1;
    }
    if i == b.len() {
        false
    } else if i == a.len() {
        true
    } else {
        a[i] < b[i]
    }
}

pub fn char_codes(s: &str) -> (res: Vec<u32>)
    ensures
        res@ == codes(s@),
{
    let chars: Vec<char> = chars_of(s);
    let mut out: Vec<u32> = Vec::new();
    let mut i: usize = 0;
    while i < chars.len()
        invariant
            i <= chars.len(),
            chars@ == s@,
            out@ == codes(s@).take(i as int),
        decreases chars.len() - i,
    {
        out.push(chars[i] as u32);
        assert(out@ =~= codes(s@).take(i as int + 1));
        i += 1;
    }
    assert(codes(s@).take(s@.len() as int) == codes(s@));
    out
}

pub fn text_is_before(a: &str, b: &str) -> (res: bool)
    ensures
        res == text_before(a@, b@),
{
    is_before(char_codes(a).as_slice(), char_codes(b).as_slice())
}

} // verus!
