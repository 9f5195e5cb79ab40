//! The parts of a slash-separated path.
use crate::compose;
use crate::search;
use crate::search::{lemma_filter_step, split};
use crate::text;
use crate::text::{chars_of, same, string_of, CharClass};
use vstd::prelude::*;
use vstd::slice::slice_subrange;

verus! {

// ---------------------------------------------------------------------------
// Components
// ---------------------------------------------------------------------------
pub open spec fn slash() -> spec_fn(char) -> bool {
    text::among("/"@)
}

pub open spec fn is_absolute(path: Seq<char>) -> bool {
    path.len() > 0 && path[0] == '/'
}

/// A piece of a path that names a file, a directory or the parent directory.
pub open spec fn counts() -> spec_fn(Seq<char>) -> bool {
    |piece: Seq<char>| piece.len() > 0 && piece != "."@
}

/// What the path starts at: the root, the directory that it writes as a dot, or nothing.
pub open spec fn anchor(path: Seq<char>) -> Seq<Seq<char>> {
    if is_absolute(path) {
        seq!["/"@]
    } else if search::split_by(path, slash())[0] == "."@ {
        seq!["."@]
    } else {
        Seq::empty()
    }
}

/// The components of the path: its anchor, then the names in it.
pub open spec fn components(path: Seq<char>) -> Seq<Seq<char>> {
    anchor(path) + search::split_by(path, slash()).filter(counts())
}

/// A component that names a file or a directory.
pub open spec fn is_normal() -> spec_fn(Seq<char>) -> bool {
    |c: Seq<char>| c != "/"@ && c != "."@ && c != ".."@
}

/// The name at the end of the path, if there is one.
pub open spec fn file_name(path: Seq<char>) -> Option<Seq<char>> {
    let parts = components(path);
    if parts.len() > 0 && is_normal()(parts.last()) {
        Some(parts.last())
    } else {
        None
    }
}

// ---------------------------------------------------------------------------
// File names
// ---------------------------------------------------------------------------
/// The position behind the last character of `s` that equals `c`, or 0.
pub open spec fn after_last(s: Seq<char>, c: char) -> int
    decreases s.len(),
{
    if s.len() == 0 {
        0
    } else if s.last() == c {
        s.len() as int
    } else {
        after_last(s.drop_last(), c)
    }
}

/// The name without its extension. A name whose only dot comes first has none.
pub open spec fn stem_of(name: Seq<char>) -> Seq<char> {
    let cut = after_last(name, '.');
    if cut <= 1 {
        name
    } else {
        name.take(cut - 1)
    }
}

/// What follows the last dot of the name. A name whose only dot comes first has no extension.
pub open spec fn extension_of(name: Seq<char>) -> Option<Seq<char>> {
    let cut = after_last(name, '.');
    if cut <= 1 {
        None
    } else {
        Some(name.skip(cut))
    }
}

pub open spec fn file_stem(path: Seq<char>) -> Option<Seq<char>> {
    match file_name(path) {
        Some(name) => Some(stem_of(name)),
        None => None,
    }
}

pub open spec fn extension(path: Seq<char>) -> Option<Seq<char>> {
    match file_name(path) {
        Some(name) => extension_of(name),
        None => None,
    }
}

// ---------------------------------------------------------------------------
// Parents and joins
// ---------------------------------------------------------------------------
/// The path without the slashes and dots at its end that add nothing to it.
pub open spec fn without_tail(path: Seq<char>) -> Seq<char>
    decreases path.len(),
{
    let n = path.len() as int;
    if n >= 2 && path[n - 1] == '/' {
        without_tail(path.take(n - 1))
    } else if n >= 2 && path[n - 1] == '.' && path[n - 2] == '/' {
        without_tail(path.take(n - 1))
    } else {
        path
    }
}

/// The path of the directory that holds what the path names.
pub open spec fn parent(path: Seq<char>) -> Option<Seq<char>> {
    let body = without_tail(path);
    let cut = after_last(body, '/');
    if body.len() == 0 || body == "/"@ {
        None
    } else {
        Some(without_tail(body.take(cut)))
    }
}

/// `path` as seen from `base`; a path that is absolute stays as it is.
pub open spec fn joined(base: Seq<char>, path: Seq<char>) -> Seq<char> {
    if is_absolute(path) {
        path
    } else if base.len() == 0 || base.last() == '/' {
        base + path
    } else {
        base + "/"@ + path
    }
}

// ---------------------------------------------------------------------------
// Executable forms
// ---------------------------------------------------------------------------
pub fn absolute(path: &str) -> (res: bool)
    ensures
        res == is_absolute(path@),
{
    let chars: Vec<char> = chars_of(path);
    chars.len() > 0 && chars[0] == '/'
}

pub fn path_components(path: &str) -> (res: Vec<String>)
    ensures
        res.deep_view() == components(path@),
{
    let pieces: Vec<String> = split(path, CharClass::Among("/"));
    let ghost all = pieces.deep_view();
    proof {
        search::lemma_split_nonempty(path@, slash());
        assert(all[0] == pieces@[0]@);
    }
    let mut out: Vec<String> = Vec::new();
    if absolute(path) {
        out.push("/".to_owned());
        assert(out.deep_view() =~= anchor(path@));
    } else if same(pieces[0].as_str(), ".") {
        out.push(".".to_owned());
        assert(out.deep_view() =~= anchor(path@));
    } else {
        assert(out.deep_view() =~= anchor(path@));
    }
    let mut i: usize = 0;
    proof {
        reveal(Seq::filter);
        assert(all.take(0) =~= Seq::<Seq<char>>::empty());
        assert(out.deep_view() =~= anchor(path@) + all.take(0).filter(counts()));
    }
    while i < pieces.len()
        invariant
            i <= pieces.len(),
            all == pieces.deep_view(),
            out.deep_view() == anchor(path@) + all.take(i as int).filter(counts()),
        decreases pieces.len() - i,
    {
        proof {
            lemma_filter_step(all, counts(), i as int);
            assert(all[i as int] == pieces@[i as int]@);
        }
        if !pieces[i].as_str().is_empty() && !same(pieces[i].as_str(), ".") {
            let ghost before = out.deep_view();
            out.push(pieces[i].clone());
            assert(out.deep_view() =~= before.push(all[i as int]));
            assert(out.deep_view() =~= anchor(path@) + all.take(i as int + 1).filter(counts()));
        }
        i += 1;
    }
    assert(all.take(all.len() as int) == all);
    out
}

pub fn normal_component(component: &str) -> (res: bool)
    ensures
        res == is_normal()(component@),
{
    !same(component, "/") && !same(component, ".") && !same(component, "..")
}

pub fn path_file_name(path: &str) -> (res: Option<String>)
    ensures
        res.deep_view() == file_name(path@),
{
    let parts: Vec<String> = path_components(path);
    let n: usize = parts.len();
    if n == 0 {
        return None;
    }
    assert(parts.deep_view().last() == parts@[n - 1]@);
    if normal_component(parts[n - 1].as_str()) {
        Some(parts[n - 1].clone())
    } else {
        None
    }
}

pub fn cut_after_last(chars: &[char], c: char) -> (res: usize)
    ensures
        res == after_last(chars@, c),
        res <= chars@.len(),
{
    let mut n: usize = chars.len();
    assert(chars@.take(n as int) == chars@);
    while n > 0 && chars[n - 1] != c
        invariant
            n <= chars.len(),
            after_last(chars@, c) == after_last(chars@.take(n as int), c),
        decreases n,
    {
        assert(chars@.take(n as int).drop_last() == chars@.take(n as int - 1));
        n -= 1;
    }
    n
}

fn name_stem(name: &str) -> (res: String)
    ensures
        res@ == stem_of(name@),
{
    let chars: Vec<char> = chars_of(name);
    let cut: usize = cut_after_last(chars.as_slice(), '.');
    if cut <= 1 {
        name.to_owned()
    } else {
        assert(name@.take(cut - 1) == name@.subrange(0, cut - 1));
        string_of(slice_subrange(chars.as_slice(), 0, cut - 1))
    }
}

fn name_extension(name: &str) -> (res: Option<String>)
    ensures
        res.deep_view() == extension_of(name@),
{
    let chars: Vec<char> = chars_of(name);
    let cut: usize = cut_after_last(chars.as_slice(), '.');
    if cut <= 1 {
        None
    } else {
        assert(name@.skip(cut as int) == name@.subrange(cut as int, name@.len() as int));
        Some(string_of(slice_subrange(chars.as_slice(), cut, chars.len())))
    }
}

pub fn path_stem(path: &str) -> (res: Option<String>)
    ensures
        res.deep_view() == file_stem(path@),
{
    match path_file_name(path) {
        Some(name) => Some(name_stem(name.as_str())),
        None => None,
    }
}

pub fn path_extension(path: &str) -> (res: Option<String>)
    ensures
        res.deep_view() == extension(path@),
{
    match path_file_name(path) {
        Some(name) => name_extension(name.as_str()),
        None => None,
    }
}

fn cut_tail(chars: &[char]) -> (res: usize)
    ensures
        res <= chars@.len(),
        chars@.take(res as int) == without_tail(chars@),
{
    let mut n: usize = chars.len();
    assert(chars@.take(n as int) == chars@);
    while n >= 2 && (chars[n - 1] == '/' || (chars[n - 1] == '.' && chars[n - 2] == '/'))
        invariant
            n <= chars.len(),
            without_tail(chars@) == without_tail(chars@.take(n as int)),
        decreases n,
    {
        assert(chars@.take(n as int).take(n as int - 1) == chars@.take(n as int - 1));
        n -= 1;
    }
    n
}

pub fn path_parent(path: &str) -> (res: Option<String>)
    ensures
        res.deep_view() == parent(path@),
{
    let chars: Vec<char> = chars_of(path);
    let end: usize = cut_tail(chars.as_slice());
    let body = slice_subrange(chars.as_slice(), 0, end);
    assert(body@ == without_tail(path@));
    proof {
        reveal_strlit("/");
    }
    if body.len() == 0 {
        return None;
    }
    if body.len() == 1 && body[0] == '/' {
        assert(body@ =~= "/"@);
        return None;
    }
    assert(body@ != "/"@) by {
        if body@ == "/"@ {
            assert(body@[0] == '/');
        }
    }
    let cut: usize = cut_after_last(body, '/');
    let head = slice_subrange(body, 0, cut);
    let head_end: usize = cut_tail(head);
    assert(head@ == body@.take(cut as int));
    assert(head@.take(head_end as int) == head@.subrange(0, head_end as int));
    Some(string_of(slice_subrange(head, 0, head_end)))
}

pub fn path_join(base: &str, path: &str) -> (res: String)
    ensures
        res@ == joined(base@, path@),
{
    if absolute(path) {
        return path.to_owned();
    }
    let chars: Vec<char> = chars_of(base);
    let n: usize = chars.len();
    let mut out = base.to_owned();
    if n > 0 && chars[n - 1] != '/' {
        out.append("/");
    }
    out.append(path);
    out
}

// ---------------------------------------------------------------------------
// Laws
// ---------------------------------------------------------------------------
/// A name of a file or a directory: not empty, without slashes, and neither a dot nor two dots.
pub open spec fn is_name(name: Seq<char>) -> bool {
    &&& name.len() > 0
    &&& !name.contains('/')
    &&& name != "."@
    &&& name != ".."@
}

pub open spec fn are_names(names: Seq<Seq<char>>) -> bool {
    forall|i: int| 0 <= i < names.len() ==> is_name(#[trigger] names[i])
}

proof fn lemma_slash()
    ensures
        forall|c: char| #[trigger] slash()(c) <==> c == '/',
        "/"@ == seq!['/'],
        "."@ == seq!['.'],
{
    reveal_strlit("/");
    reveal_strlit(".");
    assert("/"@ =~= seq!['/']);
    assert("."@ =~= seq!['.']);
    assert("/"@[0] == '/');
    assert forall|c: char| #[trigger] slash()(c) <==> c == '/' by {
        assert(slash()(c) == "/"@.contains(c));
        if "/"@.contains(c) {
            let i = choose|i: int| 0 <= i < "/"@.len() && "/"@[i] == c;
            assert(i == 0);
        }
    }
}

/// Names stay where what names no file or directory is left out.
pub proof fn lemma_names_stay(names: Seq<Seq<char>>)
    requires
        are_names(names),
    ensures
        names.filter(is_normal()) == names,
{
    lemma_names_filtered(names);
}

proof fn lemma_names_filtered(names: Seq<Seq<char>>)
    requires
        are_names(names),
    ensures
        names.filter(counts()) == names,
        names.filter(is_normal()) == names,
{
    lemma_slash();
    assert forall|i: int| 0 <= i < names.len() implies counts()(#[trigger] names[i]) by {
        assert(is_name(names[i]));
    }
    assert forall|i: int| 0 <= i < names.len() implies is_normal()(#[trigger] names[i]) by {
        assert(is_name(names[i]));
        if names[i] == "/"@ {
            assert(names[i][0] == '/');
            assert(names[i].contains('/'));
        }
    }
    search::lemma_filter_all(names, counts());
    search::lemma_filter_all(names, is_normal());
}

proof fn lemma_names_split(names: Seq<Seq<char>>)
    requires
        are_names(names),
        names.len() > 0,
    ensures
        search::split_by(compose::join(names, "/"@), slash()) == names,
        compose::join(names, "/"@).len() > 0,
        compose::join(names, "/"@)[0] == names[0][0],
        compose::join(names, "/"@)[0] != '/',
        compose::join(names, "/"@).last() != '/',
{
    lemma_slash();
    assert forall|i: int, j: int|
        0 <= i < names.len() && 0 <= j < names[i].len() implies !slash()(
        #[trigger] names[i][j],
    ) by {
        assert(is_name(names[i]));
        assert(names[i].contains(names[i][j]));
    }
    search::lemma_split_of_join(names, '/', slash());
    let whole = compose::join(names, "/"@);
    let first = names[0];
    let last = names.last();
    assert(is_name(names[0]));
    assert(is_name(names[names.len() - 1]));
    assert(first.contains(first[0]));
    assert(last.contains(last[last.len() - 1]));
    if names.len() > 1 {
        compose::lemma_join_first(names, "/"@);
    }
}

/// The components of a path are the names in it, after the root where it starts there.
pub proof fn lemma_components_of_names(names: Seq<Seq<char>>)
    requires
        are_names(names),
        names.len() > 0,
    ensures
        components(compose::join(names, "/"@)) == names,
        components("/"@ + compose::join(names, "/"@)) == seq!["/"@] + names,
        !is_absolute(compose::join(names, "/"@)),
        is_absolute("/"@ + compose::join(names, "/"@)),
{
    let whole = compose::join(names, "/"@);
    assert(components(whole) == names && !is_absolute(whole)) by {
        lemma_names_split(names);
        lemma_names_filtered(names);
        assert(is_name(names[0]));
        assert(anchor(whole) =~= Seq::empty());
        assert(components(whole) =~= names);
    }
    lemma_names_split(names);
    lemma_rooted(whole, names);
}

proof fn lemma_rooted(whole: Seq<char>, names: Seq<Seq<char>>)
    requires
        are_names(names),
        search::split_by(whole, slash()) == names,
    ensures
        components("/"@ + whole) == seq!["/"@] + names,
        is_absolute("/"@ + whole),
{
    lemma_slash();
    let rooted = "/"@ + whole;
    let head = seq![rooted.take(0)];
    assert(rooted[0] == '/');
    assert(search::split_by(rooted, slash()) == head + names) by {
        assert(slash()(rooted[0]));
        assert(search::first_hit(rooted, slash(), 0));
        search::lemma_position_is(rooted, slash(), 0);
        assert(rooted.skip(1) =~= whole);
    }
    assert((head + names).filter(counts()) == names) by {
        lemma_names_filtered(names);
        Seq::filter_distributes_over_add(head, names, counts());
        search::lemma_filter_one(rooted.take(0), counts());
        assert(!counts()(rooted.take(0)));
        assert(Seq::<Seq<char>>::empty() + names =~= names);
    }
}

/// The name at the end of a path is the last of the names in it.
pub proof fn lemma_file_name_of_names(names: Seq<Seq<char>>)
    requires
        are_names(names),
        names.len() > 0,
    ensures
        file_name(compose::join(names, "/"@)) == Some(names.last()),
{
    lemma_slash();
    lemma_components_of_names(names);
    let last = names[names.len() - 1];
    assert(is_name(last));
    assert(last != "/"@) by {
        if last == "/"@ {
            assert(last[0] == '/');
            assert(last.contains('/'));
        }
    }
}

proof fn lemma_after_last(head: Seq<char>, c: char, tail: Seq<char>)
    requires
        !tail.contains(c),
    ensures
        after_last(tail, c) == 0,
        after_last(head + seq![c] + tail, c) == head.len() + 1,
    decreases tail.len(),
{
    let whole = head + seq![c] + tail;
    if tail.len() > 0 {
        let less = tail.drop_last();
        assert(tail.contains(tail[tail.len() - 1]));
        assert(!less.contains(c)) by {
            if less.contains(c) {
                let k = choose|k: int| 0 <= k < less.len() && less[k] == c;
                assert(tail[k] == c);
            }
        }
        lemma_after_last(head, c, less);
        assert(whole.drop_last() =~= head + seq![c] + less);
        assert(whole.last() == tail.last());
    } else {
        assert(whole.last() == c);
    }
}

/// The extension of a name is what follows its last dot, and the stem what comes before it.
pub proof fn lemma_name_parts(stem: Seq<char>, extension: Seq<char>)
    requires
        stem.len() > 0,
        !extension.contains('.'),
    ensures
        stem_of(stem + seq!['.'] + extension) == stem,
        extension_of(stem + seq!['.'] + extension) == Some(extension),
{
    let name = stem + seq!['.'] + extension;
    lemma_after_last(stem, '.', extension);
    assert(name.take(stem.len() as int) =~= stem);
    assert(name.skip(stem.len() as int + 1) =~= extension);
}

/// A name without dots, or with its only dot at its start, has no extension.
pub proof fn lemma_name_without_extension(name: Seq<char>)
    requires
        !name.contains('.'),
    ensures
        stem_of(name) == name,
        extension_of(name) is None,
        stem_of(seq!['.'] + name) == seq!['.'] + name,
        extension_of(seq!['.'] + name) is None,
{
    lemma_after_last(Seq::empty(), '.', name);
    assert(Seq::<char>::empty() + seq!['.'] + name =~= seq!['.'] + name);
}

/// The directory that holds a file has the names before the last one.
pub proof fn lemma_parent_of_names(names: Seq<Seq<char>>)
    requires
        are_names(names),
        names.len() > 0,
    ensures
        parent(compose::join(names, "/"@)) == Some(compose::join(names.drop_last(), "/"@)),
{
    lemma_slash();
    lemma_names_split(names);
    let whole = compose::join(names, "/"@);
    let last = names[names.len() - 1];
    assert(is_name(last));
    assert(last.contains(last[last.len() - 1]));
    assert(last == names.last());
    lemma_no_tail(names);
    assert(whole != "/"@) by {
        assert("/"@[0] == '/');
    }
    if names.len() == 1 {
        lemma_after_last(Seq::empty(), '/', last);
        assert(whole == last);
        assert(whole.take(0) =~= compose::join(names.drop_last(), "/"@));
        assert(without_tail(whole.take(0)) =~= whole.take(0));
    } else {
        let rest = names.drop_last();
        let head = compose::join(rest, "/"@);
        assert(are_names(rest)) by {
            assert forall|i: int| 0 <= i < rest.len() implies is_name(#[trigger] rest[i]) by {
                assert(rest[i] == names[i]);
            }
        }
        lemma_names_split(rest);
        lemma_no_tail(rest);
        lemma_after_last(head, '/', last);
        assert(whole =~= head + seq!['/'] + last);
        let cut = whole.take(head.len() as int + 1);
        assert(cut =~= head + seq!['/']);
        assert(cut.take(cut.len() - 1) =~= head);
        assert(without_tail(cut) == without_tail(head));
    }
}

proof fn lemma_no_tail(names: Seq<Seq<char>>)
    requires
        are_names(names),
        names.len() > 0,
    ensures
        without_tail(compose::join(names, "/"@)) == compose::join(names, "/"@),
{
    lemma_slash();
    lemma_names_split(names);
    let whole = compose::join(names, "/"@);
    let n = whole.len() as int;
    let last = names.last();
    assert(is_name(names[names.len() - 1]));
    if n >= 2 && whole[n - 1] == '.' && whole[n - 2] == '/' {
        assert(whole[n - 1] == last[last.len() - 1]);
        if last.len() >= 2 {
            assert(whole[n - 2] == last[last.len() - 2]);
            assert(last.contains(last[last.len() - 2]));
        } else {
            assert(last =~= "."@);
        }
    }
}

/// Names that are joined to a directory stand behind its own.
pub proof fn lemma_joined_names(a: Seq<Seq<char>>, b: Seq<Seq<char>>)
    requires
        are_names(a),
        are_names(b),
        a.len() > 0,
        b.len() > 0,
    ensures
        joined(compose::join(a, "/"@), compose::join(b, "/"@)) == compose::join(a + b, "/"@),
        joined("/"@ + compose::join(a, "/"@), compose::join(b, "/"@)) == "/"@ + compose::join(
            a + b,
            "/"@,
        ),
{
    lemma_slash();
    lemma_names_split(a);
    lemma_names_split(b);
    compose::lemma_join_parts(a, b, "/"@);
    let base = compose::join(a, "/"@);
    let more = compose::join(b, "/"@);
    assert(("/"@ + base).last() == base.last());
    assert("/"@ + base + "/"@ + more =~= "/"@ + (base + "/"@ + more));
}

} // verus!
