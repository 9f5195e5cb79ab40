//! Sorted lists without repetition.
use crate::order;
use crate::order::is_before;
use crate::text::chars_of;
use vstd::prelude::*;

verus! {

// ---------------------------------------------------------------------------
// Keys
// ---------------------------------------------------------------------------
/// The key of a text: its characters, each counted from one, and a zero at the end. No key of a
/// text is the beginning of another one's, and keys come in the order of their texts.
pub open spec fn text_key(s: Seq<char>) -> Seq<u32>
    decreases s.len(),
{
    if s.len() == 0 {
        seq![0u32]
    } else {
        seq![(s[0] as u32 + 1) as u32] + text_key(s.drop_first())
    }
}

/// The key of a list: the keys of its items, each behind a one, and a zero at the end.
pub open spec fn list_key(items: Seq<Seq<u32>>) -> Seq<u32>
    decreases items.len(),
{
    if items.len() == 0 {
        seq![0u32]
    } else {
        seq![1u32] + items[0] + list_key(items.drop_first())
    }
}

pub open spec fn texts_key(items: Seq<Seq<char>>) -> Seq<u32> {
    list_key(items.map_values(|s: Seq<char>| text_key(s)))
}

pub open spec fn bool_key(b: bool) -> Seq<u32> {
    if b {
        seq![1u32]
    } else {
        seq![0u32]
    }
}

pub open spec fn option_key(value: Option<Seq<char>>) -> Seq<u32> {
    match value {
        Some(s) => seq![1u32] + text_key(s),
        None => seq![0u32],
    }
}

proof fn lemma_char_code(c: char)
    ensures
        c as u32 <= 0x10ffff,
        c as u32 as int == c as int,
        (c as u32 + 1) as u32 == c as u32 + 1,
{
}

/// Where two texts with something behind them have the same key, the texts and what stands
/// behind them are the same.
pub proof fn lemma_text_key(s: Seq<char>, t: Seq<char>, x: Seq<u32>, y: Seq<u32>)
    requires
        text_key(s) + x == text_key(t) + y,
    ensures
        s == t,
        x == y,
    decreases s.len(),
{
    let left = text_key(s) + x;
    let right = text_key(t) + y;
    assert(left[0] == right[0]);
    if s.len() == 0 {
        assert(left[0] == 0);
        if t.len() > 0 {
            lemma_char_code(t[0]);
            assert(right[0] == (t[0] as u32 + 1) as u32);
            assert(false);
        }
        assert(s =~= t);
        assert(x =~= left.skip(1));
        assert(y =~= right.skip(1));
    } else {
        lemma_char_code(s[0]);
        assert(left[0] == (s[0] as u32 + 1) as u32);
        if t.len() == 0 {
            assert(right[0] == 0);
            assert(false);
        }
        lemma_char_code(t[0]);
        assert(right[0] == (t[0] as u32 + 1) as u32);
        assert(left.skip(1) =~= text_key(s.drop_first()) + x);
        assert(right.skip(1) =~= text_key(t.drop_first()) + y);
        lemma_text_key(s.drop_first(), t.drop_first(), x, y);
        assert(s =~= seq![s[0]] + s.drop_first());
        assert(t =~= seq![t[0]] + t.drop_first());
        assert(s[0] == t[0]);
    }
}

pub proof fn lemma_texts_key(
    a: Seq<Seq<char>>,
    b: Seq<Seq<char>>,
    x: Seq<u32>,
    y: Seq<u32>,
)
    requires
        texts_key(a) + x == texts_key(b) + y,
    ensures
        a == b,
        x == y,
    decreases a.len(),
{
    let f = |s: Seq<char>| text_key(s);
    let left = texts_key(a) + x;
    let right = texts_key(b) + y;
    let ka = a.map_values(f);
    let kb = b.map_values(f);
    assert(left[0] == right[0]);
    if a.len() == 0 {
        assert(left[0] == 0);
        if b.len() > 0 {
            assert(right[0] == 1);
            assert(false);
        }
        assert(a =~= b);
        assert(x =~= left.skip(1));
        assert(y =~= right.skip(1));
    } else {
        assert(left[0] == 1);
        if b.len() == 0 {
            assert(right[0] == 0);
            assert(false);
        }
        assert(ka.drop_first() =~= a.drop_first().map_values(f));
        assert(kb.drop_first() =~= b.drop_first().map_values(f));
        let rest_a = texts_key(a.drop_first()) + x;
        let rest_b = texts_key(b.drop_first()) + y;
        assert(left.skip(1) =~= text_key(a[0]) + rest_a);
        assert(right.skip(1) =~= text_key(b[0]) + rest_b);
        lemma_text_key(a[0], b[0], rest_a, rest_b);
        lemma_texts_key(a.drop_first(), b.drop_first(), x, y);
        assert(a =~= seq![a[0]] + a.drop_first());
        assert(b =~= seq![b[0]] + b.drop_first());
    }
}

pub proof fn lemma_bool_key(a: bool, b: bool, x: Seq<u32>, y: Seq<u32>)
    requires
        bool_key(a) + x == bool_key(b) + y,
    ensures
        a == b,
        x == y,
{
    let left = bool_key(a) + x;
    let right = bool_key(b) + y;
    assert(left[0] == right[0]);
    assert(x =~= left.skip(1));
    assert(y =~= right.skip(1));
}

pub proof fn lemma_option_key(
    a: Option<Seq<char>>,
    b: Option<Seq<char>>,
    x: Seq<u32>,
    y: Seq<u32>,
)
    requires
        option_key(a) + x == option_key(b) + y,
    ensures
        a == b,
        x == y,
{
    let left = option_key(a) + x;
    let right = option_key(b) + y;
    assert(left[0] == right[0]);
    match (a, b) {
        (Some(s), Some(t)) => {
            assert(left.skip(1) =~= text_key(s) + x);
            assert(right.skip(1) =~= text_key(t) + y);
            lemma_text_key(s, t, x, y);
        },
        (None, None) => {
            assert(x =~= left.skip(1));
            assert(y =~= right.skip(1));
        },
        (Some(_), None) => {
            assert(left[0] == 1);
            assert(right[0] == 0);
        },
        (None, Some(_)) => {
            assert(left[0] == 0);
            assert(right[0] == 1);
        },
    }
}

pub fn push_text_key(out: &mut Vec<u32>, s: &str)
    ensures
        final(out)@ == old(out)@ + text_key(s@),
{
    let chars: Vec<char> = chars_of(s);
    let ghost start = out@;
    let mut i: usize = 0;
    assert(s@.skip(0) == s@);
    while i < chars.len()
        invariant
            i <= chars.len(),
            chars@ == s@,
            start + text_key(s@) == out@ + text_key(s@.skip(i as int)),
        decreases chars.len() - i,
    {
        let ghost before = out@;
        let c: char = chars[i];
        proof {
            lemma_char_code(c);
        }
        out.push(c as u32 + 1);
        proof {
            let rest = s@.skip(i as int);
            assert(rest.drop_first() == s@.skip(i as int + 1));
            assert(before + (seq![(rest[0] as u32 + 1) as u32] + text_key(rest.drop_first()))
                =~= out@ + text_key(rest.drop_first()));
        }
        i += 1;
    }
    out.push(0);
    assert(s@.skip(i as int) =~= Seq::empty());
    assert(out@ =~= start + text_key(s@));
}

pub fn push_texts_key(out: &mut Vec<u32>, items: &[String])
    ensures
        final(out)@ == old(out)@ + texts_key(items.deep_view()),
{
    let ghost all = items.deep_view();
    let ghost f = |s: Seq<char>| text_key(s);
    let ghost start = out@;
    let mut i: usize = 0;
    assert(all.skip(0) == all);
    while i < items.len()
        invariant
            i <= items.len(),
            all == items.deep_view(),
            f == (|s: Seq<char>| text_key(s)),
            start + texts_key(all) == out@ + texts_key(all.skip(i as int)),
        decreases items.len() - i,
    {
        let ghost before = out@;
        proof {
            let rest = all.skip(i as int);
            assert(rest[0] == items@[i as int]@);
            assert(rest.drop_first() == all.skip(i as int + 1));
            assert(rest.map_values(f).drop_first() =~= rest.drop_first().map_values(f));
            assert(before + (seq![1u32] + text_key(rest[0]) + texts_key(rest.drop_first()))
                =~= before.push(1u32) + text_key(rest[0]) + texts_key(rest.drop_first()));
        }
        out.push(1);
        push_text_key(out, items[i].as_str());
        i += 1;
    }
    out.push(0);
    assert(all.skip(i as int) =~= Seq::empty());
    assert(out@ =~= start + texts_key(all));
}

pub fn push_bool_key(out: &mut Vec<u32>, b: bool)
    ensures
        final(out)@ == old(out)@ + bool_key(b),
{
    let ghost start = out@;
    if b {
        out.push(1);
    } else {
        out.push(0);
    }
    assert(out@ =~= start + bool_key(b));
}

pub fn push_option_key(out: &mut Vec<u32>, value: &Option<String>)
    ensures
        final(out)@ == old(out)@ + option_key(value.deep_view()),
{
    let ghost start = out@;
    match value {
        Some(s) => {
            out.push(1);
            push_text_key(out, s.as_str());
            assert(out@ =~= start + (seq![1u32] + text_key(s@)));
        },
        None => {
            out.push(0);
            assert(out@ =~= start + seq![0u32]);
        },
    }
}

// ---------------------------------------------------------------------------
// Sorting
// ---------------------------------------------------------------------------
/// What has a key by which it is sorted.
pub trait Keyed: DeepView + Sized {
    spec fn key_of(model: Self::V) -> Seq<u32>;

    /// Different values have different keys.
    proof fn lemma_key_injective(a: Self::V, b: Self::V)
        requires
            Self::key_of(a) == Self::key_of(b),
        ensures
            a == b,
    ;

    fn sort_key(&self) -> (res: Vec<u32>)
        ensures
            res@ == Self::key_of(self.deep_view()),
    ;
}

/// Where one key comes before another, the texts at their start are the same or in the order of
/// their characters.
pub proof fn lemma_text_order(a: Seq<char>, b: Seq<char>, x: Seq<u32>, y: Seq<u32>)
    requires
        order::precedes(text_key(a) + x, text_key(b) + y),
    ensures
        a == b || order::text_before(a, b),
    decreases a.len(),
{
    let left = text_key(a) + x;
    let right = text_key(b) + y;
    if a.len() == 0 {
        if b.len() == 0 {
            assert(a =~= b);
        } else {
            assert(order::codes(a).len() == 0);
            assert(order::codes(b).len() > 0);
        }
    } else {
        lemma_char_code(a[0]);
        assert(left[0] == a[0] as u32 + 1);
        if b.len() == 0 {
            assert(right[0] == 0);
        } else {
            lemma_char_code(b[0]);
            assert(right[0] == b[0] as u32 + 1);
            let ca = order::codes(a);
            let cb = order::codes(b);
            assert(ca[0] == a[0] as u32 && cb[0] == b[0] as u32);
            if a[0] == b[0] {
                assert(left.drop_first() =~= text_key(a.drop_first()) + x);
                assert(right.drop_first() =~= text_key(b.drop_first()) + y);
                lemma_text_order(a.drop_first(), b.drop_first(), x, y);
                assert(ca.drop_first() =~= order::codes(a.drop_first()));
                assert(cb.drop_first() =~= order::codes(b.drop_first()));
                if a.drop_first() == b.drop_first() {
                    assert(a =~= seq![a[0]] + a.drop_first());
                    assert(b =~= seq![b[0]] + b.drop_first());
                }
            }
        }
    }
}

/// The sorted list with the item in its place, if it is not there yet.
pub open spec fn with_item<T: Keyed>(list: Seq<T::V>, item: T::V) -> Seq<T::V>
    decreases list.len(),
{
    if list.len() == 0 {
        seq![item]
    } else if T::key_of(list[0]) == T::key_of(item) {
        list
    } else if order::precedes(T::key_of(item), T::key_of(list[0])) {
        seq![item] + list
    } else {
        seq![list[0]] + with_item::<T>(list.drop_first(), item)
    }
}

/// The items in the order of their keys, each once.
pub open spec fn arranged<T: Keyed>(items: Seq<T::V>) -> Seq<T::V>
    decreases items.len(),
{
    if items.len() == 0 {
        Seq::empty()
    } else {
        with_item::<T>(arranged::<T>(items.drop_last()), items.last())
    }
}

/// Each item comes before those behind it.
pub open spec fn is_ascending<T: Keyed>(list: Seq<T::V>) -> bool {
    forall|i: int, j: int|
        0 <= i < j < list.len() ==> order::precedes(
            #[trigger] T::key_of(list[i]),
            #[trigger] T::key_of(list[j]),
        )
}

proof fn lemma_with_item<T: Keyed>(list: Seq<T::V>, item: T::V)
    requires
        is_ascending::<T>(list),
    ensures
        is_ascending::<T>(with_item::<T>(list, item)),
        forall|m: T::V| #[trigger] with_item::<T>(list, item).contains(m) <==> (list.contains(m)
            || m == item),
    decreases list.len(),
{
    let res = with_item::<T>(list, item);
    if list.len() == 0 {
        assert(res =~= seq![item]);
        assert forall|m: T::V| #[trigger] res.contains(m) <==> (list.contains(m) || m == item) by {
            assert(res[0] == item);
        }
    } else if T::key_of(list[0]) == T::key_of(item) {
        T::lemma_key_injective(list[0], item);
        assert(list.contains(item));
    } else if order::precedes(T::key_of(item), T::key_of(list[0])) {
        assert forall|i: int, j: int| 0 <= i < j < res.len() implies order::precedes(
            #[trigger] T::key_of(res[i]),
            #[trigger] T::key_of(res[j]),
        ) by {
            if i == 0 {
                assert(res[j] == list[j - 1]);
                if j > 1 {
                    order::lemma_transitive(
                        T::key_of(item),
                        T::key_of(list[0]),
                        T::key_of(list[j - 1]),
                    );
                }
            } else {
                assert(res[i] == list[i - 1]);
                assert(res[j] == list[j - 1]);
            }
        }
        assert forall|m: T::V| #[trigger] res.contains(m) <==> (list.contains(m) || m == item) by {
            assert(res[0] == item);
            if list.contains(m) {
                let k = choose|k: int| 0 <= k < list.len() && list[k] == m;
                assert(res[k + 1] == m);
            }
            if res.contains(m) {
                let k = choose|k: int| 0 <= k < res.len() && res[k] == m;
                if k > 0 {
                    assert(list[k - 1] == m);
                }
            }
        }
    } else {
        let rest = list.drop_first();
        let inner = with_item::<T>(rest, item);
        assert(is_ascending::<T>(rest)) by {
            assert forall|i: int, j: int| 0 <= i < j < rest.len() implies order::precedes(
                #[trigger] T::key_of(rest[i]),
                #[trigger] T::key_of(rest[j]),
            ) by {
                assert(rest[i] == list[i + 1]);
                assert(rest[j] == list[j + 1]);
            }
        }
        lemma_with_item::<T>(rest, item);
        order::lemma_total(T::key_of(list[0]), T::key_of(item));
        assert forall|i: int, j: int| 0 <= i < j < res.len() implies order::precedes(
            #[trigger] T::key_of(res[i]),
            #[trigger] T::key_of(res[j]),
        ) by {
            assert(res[j] == inner[j - 1]);
            if i == 0 {
                assert(inner.contains(inner[j - 1]));
                if inner[j - 1] != item {
                    assert(rest.contains(inner[j - 1]));
                    let k = choose|k: int| 0 <= k < rest.len() && rest[k] == inner[j - 1];
                    assert(rest[k] == list[k + 1]);
                }
            } else {
                assert(res[i] == inner[i - 1]);
            }
        }
        assert forall|m: T::V| #[trigger] res.contains(m) <==> (list.contains(m) || m == item) by {
            assert(res[0] == list[0]);
            if list.contains(m) {
                let k = choose|k: int| 0 <= k < list.len() && list[k] == m;
                if k > 0 {
                    assert(rest[k - 1] == m);
                    assert(inner.contains(m));
                    let n = choose|n: int| 0 <= n < inner.len() && inner[n] == m;
                    assert(res[n + 1] == m);
                }
            }
            if m == item {
                assert(inner.contains(m));
                let n = choose|n: int| 0 <= n < inner.len() && inner[n] == m;
                assert(res[n + 1] == m);
            }
            if res.contains(m) {
                let k = choose|k: int| 0 <= k < res.len() && res[k] == m;
                if k > 0 {
                    assert(inner[k - 1] == m);
                    assert(inner.contains(m));
                    if rest.contains(m) {
                        let n = choose|n: int| 0 <= n < rest.len() && rest[n] == m;
                        assert(list[n + 1] == m);
                    }
                }
            }
        }
    }
}

/// An arranged list is in order, without repetition, and holds what was in the list and nothing
/// else.
pub proof fn lemma_arranged<T: Keyed>(items: Seq<T::V>)
    ensures
        is_ascending::<T>(arranged::<T>(items)),
        forall|m: T::V| #[trigger] arranged::<T>(items).contains(m) <==> items.contains(m),
    decreases items.len(),
{
    if items.len() > 0 {
        let rest = items.drop_last();
        lemma_arranged::<T>(rest);
        lemma_with_item::<T>(arranged::<T>(rest), items.last());
        assert forall|m: T::V| #[trigger] arranged::<T>(items).contains(m) <==> items.contains(
            m,
        ) by {
            if items.contains(m) {
                let k = choose|k: int| 0 <= k < items.len() && items[k] == m;
                if k < items.len() - 1 {
                    assert(rest[k] == m);
                    assert(rest.contains(m));
                }
            }
            if rest.contains(m) {
                let k = choose|k: int| 0 <= k < rest.len() && rest[k] == m;
                assert(items[k] == m);
            }
        }
    }
}

/// Two lists in order that hold the same are the same.
pub proof fn lemma_ascending_unique<T: Keyed>(a: Seq<T::V>, b: Seq<T::V>)
    requires
        is_ascending::<T>(a),
        is_ascending::<T>(b),
        forall|m: T::V| #[trigger] a.contains(m) <==> b.contains(m),
    ensures
        a == b,
    decreases a.len(),
{
    if a.len() == 0 {
        if b.len() > 0 {
            assert(b.contains(b[0]));
            assert(a.contains(b[0]));
        }
        assert(a =~= b);
    } else {
        assert(a.contains(a[0]));
        assert(b.contains(a[0]));
        let k = choose|k: int| 0 <= k < b.len() && b[k] == a[0];
        assert(b.contains(b[0]));
        assert(a.contains(b[0]));
        let n = choose|n: int| 0 <= n < a.len() && a[n] == b[0];
        if n > 0 {
            if k > 0 {
                order::lemma_transitive(T::key_of(a[0]), T::key_of(a[n]), T::key_of(b[k]));
            }
            order::lemma_irreflexive(T::key_of(a[0]));
            assert(false);
        }
        assert(a[0] == b[0]);
        let ra = a.drop_first();
        let rb = b.drop_first();
        assert forall|i: int, j: int| 0 <= i < j < ra.len() implies order::precedes(
            #[trigger] T::key_of(ra[i]),
            #[trigger] T::key_of(ra[j]),
        ) by {
            assert(ra[i] == a[i + 1] && ra[j] == a[j + 1]);
        }
        assert forall|i: int, j: int| 0 <= i < j < rb.len() implies order::precedes(
            #[trigger] T::key_of(rb[i]),
            #[trigger] T::key_of(rb[j]),
        ) by {
            assert(rb[i] == b[i + 1] && rb[j] == b[j + 1]);
        }
        assert forall|m: T::V| #[trigger] ra.contains(m) <==> rb.contains(m) by {
            if ra.contains(m) {
                let i = choose|i: int| 0 <= i < ra.len() && ra[i] == m;
                assert(a[i + 1] == m);
                assert(a.contains(m));
                assert(b.contains(m));
                let j = choose|j: int| 0 <= j < b.len() && b[j] == m;
                if j == 0 {
                    assert(order::precedes(T::key_of(a[0]), T::key_of(a[i + 1])));
                    order::lemma_irreflexive(T::key_of(a[0]));
                }
                assert(rb[j - 1] == m);
            }
            if rb.contains(m) {
                let i = choose|i: int| 0 <= i < rb.len() && rb[i] == m;
                assert(b[i + 1] == m);
                assert(b.contains(m));
                assert(a.contains(m));
                let j = choose|j: int| 0 <= j < a.len() && a[j] == m;
                if j == 0 {
                    assert(order::precedes(T::key_of(b[0]), T::key_of(b[i + 1])));
                    order::lemma_irreflexive(T::key_of(b[0]));
                }
                assert(ra[j - 1] == m);
            }
        }
        lemma_ascending_unique::<T>(ra, rb);
        assert(a =~= seq![a[0]] + ra);
        assert(b =~= seq![b[0]] + rb);
    }
}

/// Arranging an arranged list changes nothing.
pub proof fn lemma_arranged_idempotent<T: Keyed>(items: Seq<T::V>)
    ensures
        arranged::<T>(arranged::<T>(items)) == arranged::<T>(items),
{
    lemma_arranged::<T>(items);
    lemma_arranged::<T>(arranged::<T>(items));
    lemma_ascending_unique::<T>(arranged::<T>(arranged::<T>(items)), arranged::<T>(items));
}

fn same_keys(a: &Vec<u32>, b: &Vec<u32>) -> (res: bool)
    ensures
        res == (a@ == b@),
{
    if a.len() != b.len() {
        return false;
    }
    let mut i: usize = 0;
    while i < a.len()
        invariant
            i <= a.len(),
            a@.len() == b@.len(),
            forall|j: int| 0 <= j < i ==> a@[j] == b@[j],
        decreases a.len() - i,
    {
        if a[i] != b[i] {
            return false;
        }
        i += 1;
    }
    assert(a@ =~= b@);
    true
}

fn insert_item<T: Keyed>(list: &mut Vec<T>, item: T)
    ensures
        final(list).deep_view() == with_item::<T>(old(list).deep_view(), item.deep_view()),
{
    let key: Vec<u32> = item.sort_key();
    let ghost first = list@;
    let ghost all = list.deep_view();
    let ghost new = item.deep_view();
    let mut i: usize = 0;
    assert(all.skip(0) == all);
    assert(all.take(0) + with_item::<T>(all, new) =~= with_item::<T>(all, new));
    while i < list.len()
        invariant
            i <= list.len(),
            list@ == first,
            all == list.deep_view(),
            all == old(list).deep_view(),
            new == item.deep_view(),
            key@ == T::key_of(new),
            with_item::<T>(all, new) == all.take(i as int) + with_item::<T>(
                all.skip(i as int),
                new,
            ),
        decreases list.len() - i,
    {
        let ghost rest = all.skip(i as int);
        assert(rest[0] == list@[i as int].deep_view());
        let other: Vec<u32> = list[i].sort_key();
        if same_keys(&other, &key) {
            assert(all.take(i as int) + rest =~= all);
            return ;
        }
        if is_before(key.as_slice(), other.as_slice()) {
            list.insert(i, item);
            assert(list.deep_view() =~= all.take(i as int) + (seq![new] + rest));
            return ;
        }
        proof {
            assert(rest.drop_first() == all.skip(i as int + 1));
            assert(all.take(i as int) + (seq![rest[0]] + with_item::<T>(rest.drop_first(), new))
                =~= all.take(i as int + 1) + with_item::<T>(rest.drop_first(), new));
        }
        i += 1;
    }
    list.push(item);
    assert(all.skip(i as int) =~= Seq::empty());
    assert(list.deep_view() =~= all.take(i as int) + seq![new]);
}

/// Sorts the items by their keys and drops repetitions.
pub fn arrange<T: Keyed>(items: Vec<T>) -> (res: Vec<T>)
    ensures
        res.deep_view() == arranged::<T>(items.deep_view()),
{
    let ghost all = items.deep_view();
    let mut rest: Vec<T> = items;
    let mut out: Vec<T> = Vec::new();
    let ghost mut done: int = 0;
    assert(all.take(0) =~= Seq::empty());
    assert(all.skip(0) =~= all);
    assert(out.deep_view() =~= Seq::empty());
    while rest.len() > 0
        invariant
            0 <= done <= all.len(),
            rest.deep_view() == all.skip(done),
            out.deep_view() == arranged::<T>(all.take(done)),
        decreases rest.len(),
    {
        let ghost before = rest.deep_view();
        let item: T = rest.remove(0);
        proof {
            assert(item.deep_view() == before[0]);
            assert(rest.deep_view() =~= before.drop_first());
            assert(before.drop_first() =~= all.skip(done + 1));
            assert(all.take(done + 1).drop_last() =~= all.take(done));
            assert(all.take(done + 1).last() == before[0]);
        }
        insert_item(&mut out, item);
        proof {
            done = done + 1;
        }
    }
    assert(rest.deep_view().len() == 0);
    assert(all.take(done) =~= all);
    out
}

} // verus!
