//! Relative paths inside a project, and where they stand in a container.
use crate::compose;
use crate::compose::join_list;
use crate::failure;
use crate::failure::Failure;
use crate::search;
use crate::search::{lemma_filter_step, split};
use crate::text;
use crate::text::{chars_of, is_listed, same, trim, CharClass};
use crate::utils::posix;
use crate::utils::posix::{absolute, normal_component, path_components};
use vstd::prelude::*;

verus! {

// ---------------------------------------------------------------------------
// Relative paths
// ---------------------------------------------------------------------------
/// Both kinds of slash separate the segments of a path that comes from outside.
pub open spec fn separators() -> spec_fn(char) -> bool {
    text::among("/\\"@)
}

pub open spec fn has_windows_prefix(path: Seq<char>) -> bool {
    path.len() >= 2 && text::is_alphabetic(path[0]) && path[1] == ':'
}

/// The path starts at a root: a slash of either kind, or the letter of a drive.
pub open spec fn is_rooted(path: Seq<char>) -> bool {
    (path.len() > 0 && (path[0] == '/' || path[0] == '\\')) || has_windows_prefix(path)
}

/// A segment that stays in a normalized path.
pub open spec fn names_something() -> spec_fn(Seq<char>) -> bool {
    |segment: Seq<char>| segment != ""@ && segment != "."@
}

pub open spec fn path_segments(path: Seq<char>) -> Seq<Seq<char>> {
    search::split_by(path, separators()).filter(names_something())
}

/// The normalized form of a relative path, or why the path is refused.
pub open spec fn normalized(path: Seq<char>, description: Seq<char>) -> Result<
    Seq<char>,
    Seq<Seq<char>>,
> {
    let body = text::trimmed(path);
    if body.len() == 0 {
        Err(failure::plain(description + " cannot be empty"@))
    } else if is_rooted(body) {
        Err(failure::plain(description + " must be relative, received `"@ + body + "`"@))
    } else if search::split_by(body, separators()).contains(".."@) {
        Err(failure::plain(description + " cannot traverse upwards: `"@ + body + "`"@))
    } else if path_segments(body).len() == 0 {
        Err(failure::plain(description + " normalized to an empty value"@))
    } else {
        Ok(compose::join(path_segments(body), "/"@))
    }
}

/// `camino::Utf8Path::is_absolute`. What counts as absolute differs from one operating system
/// to the next; on each of them an absolute path starts with a slash of either kind or with the
/// letter of a drive and a colon.
#[verifier::external_body]
fn utf8_path_is_absolute(path: &str) -> (res: bool)
    ensures
        res ==> is_rooted(path@),
{
    camino::Utf8Path::new(path).is_absolute()
}

pub fn looks_like_windows_prefix(path: &str) -> (res: bool)
    ensures
        res == has_windows_prefix(path@),
{
    let chars: Vec<char> = chars_of(path);
    chars.len() >= 2 && (('a' <= chars[0] && chars[0] <= 'z') || ('A' <= chars[0] && chars[0]
        <= 'Z')) && chars[1] == ':'
}

fn starts_with_separator(path: &str) -> (res: bool)
    ensures
        res == (path@.len() > 0 && (path@[0] == '/' || path@[0] == '\\')),
{
    let chars: Vec<char> = chars_of(path);
    chars.len() > 0 && (chars[0] == '/' || chars[0] == '\\')
}

/// The path of the segments, joined by forward slashes.
pub fn posix_path_from_segments(segments: &[String]) -> (res: String)
    ensures
        res@ == compose::join(segments.deep_view(), "/"@),
{
    join_list(segments, "/")
}

/// Brings a relative path into the form in which the pipeline stores and compares it. A path
/// that is empty, starts at a root or climbs to a parent directory is refused.
pub fn normalize_relative_path(path: &str, description: &str) -> (res: Result<String, Failure>)
    ensures
        match res {
            Ok(value) => normalized(path@, description@) == Ok::<Seq<char>, Seq<Seq<char>>>(value@),
            Err(error) => normalized(path@, description@) == Err::<Seq<char>, Seq<Seq<char>>>(
                error@,
            ),
        },
{
    let trimmed: String = trim(path);
    if trimmed.as_str().is_empty() {
        let mut message = description.to_owned();
        message.append(" cannot be empty");
        return Err(Failure::new(message));
    }
    if utf8_path_is_absolute(trimmed.as_str()) || starts_with_separator(trimmed.as_str())
        || looks_like_windows_prefix(trimmed.as_str()) {
        let mut message = description.to_owned();
        message.append(" must be relative, received `");
        message.append(trimmed.as_str());
        message.append("`");
        return Err(Failure::new(message));
    }
    let pieces: Vec<String> = split(trimmed.as_str(), CharClass::Among("/\\"));
    if is_listed(pieces.as_slice(), "..") {
        let mut message = description.to_owned();
        message.append(" cannot traverse upwards: `");
        message.append(trimmed.as_str());
        message.append("`");
        return Err(Failure::new(message));
    }
    let segments: Vec<String> = keep_named(pieces.as_slice());
    if segments.len() == 0 {
        assert(segments.deep_view().len() == 0);
        let mut message = description.to_owned();
        message.append(" normalized to an empty value");
        return Err(Failure::new(message));
    }
    assert(segments.deep_view().len() > 0);
    Ok(posix_path_from_segments(segments.as_slice()))
}

fn keep_named(pieces: &[String]) -> (res: Vec<String>)
    ensures
        res.deep_view() == pieces.deep_view().filter(names_something()),
{
    let mut out: Vec<String> = Vec::new();
    let mut i: usize = 0;
    let ghost all = pieces.deep_view();
    proof {
        reveal(Seq::filter);
        assert(all.take(0) =~= Seq::<Seq<char>>::empty());
        assert(out.deep_view() =~= Seq::<Seq<char>>::empty());
    }
    while i < pieces.len()
        invariant
            i <= pieces.len(),
            all == pieces.deep_view(),
            out.deep_view() == all.take(i as int).filter(names_something()),
        decreases pieces.len() - i,
    {
        proof {
            lemma_filter_step(all, names_something(), i as int);
            assert(all[i as int] == pieces@[i as int]@);
        }
        if !same(pieces[i].as_str(), "") && !same(pieces[i].as_str(), ".") {
            let ghost before = out.deep_view();
            out.push(pieces[i].clone());
            assert(out.deep_view() =~= before.push(all[i as int]));
        }
        i += 1;
    }
    assert(all.take(all.len() as int) == all);
    out
}

// ---------------------------------------------------------------------------
// Paths below a root
// ---------------------------------------------------------------------------
/// The components of `path` below `root`, or all of them where `path` is not below it.
pub open spec fn below(root: Seq<char>, path: Seq<char>) -> Seq<Seq<char>> {
    let base = posix::components(root);
    let full = posix::components(path);
    if base.is_prefix_of(full) {
        full.skip(base.len() as int)
    } else {
        full
    }
}

/// The path below the root, without what names no file or directory.
pub open spec fn relative_to(root: Seq<char>, path: Seq<char>) -> Seq<char> {
    compose::join(below(root, path).filter(posix::is_normal()), "/"@)
}

pub fn relative_path_from_root(root: &str, path: &str) -> (res: String)
    ensures
        res@ == relative_to(root@, path@),
{
    let base: Vec<String> = path_components(root);
    let full: Vec<String> = path_components(path);
    let ghost base_view = base.deep_view();
    let ghost full_view = full.deep_view();
    let mut is_below: bool = base.len() <= full.len();
    let mut k: usize = 0;
    while is_below && k < base.len()
        invariant
            k <= base.len(),
            is_below ==> base.len() <= full.len(),
            base_view == base.deep_view(),
            full_view == full.deep_view(),
            is_below ==> forall|j: int| 0 <= j < k ==> base_view[j] == full_view[j],
            !is_below ==> !base_view.is_prefix_of(full_view),
        decreases base.len() - k, (if is_below { 1int } else { 0int }),
    {
        assert(base_view[k as int] == base@[k as int]@);
        assert(full_view[k as int] == full@[k as int]@);
        if same(base[k].as_str(), full[k].as_str()) {
            k += 1;
        } else {
            is_below = false;
            assert(!base_view.is_prefix_of(full_view)) by {
                if base_view.is_prefix_of(full_view) {
                    assert(full_view.subrange(0, base_view.len() as int)[k as int]
                        == base_view[k as int]);
                }
            }
        }
    }
    let first: usize = if is_below {
        base.len()
    } else {
        0
    };
    let ghost rest = below(root@, path@);
    proof {
        if is_below {
            assert(base_view =~= full_view.subrange(0, base_view.len() as int));
        }
        assert(rest =~= full_view.skip(first as int));
    }
    let mut kept: Vec<String> = Vec::new();
    let mut i: usize = first;
    proof {
        reveal(Seq::filter);
        assert(rest.take(0) =~= Seq::<Seq<char>>::empty());
        assert(kept.deep_view() =~= Seq::<Seq<char>>::empty());
    }
    while i < full.len()
        invariant
            first <= i <= full.len(),
            full_view == full.deep_view(),
            rest == full_view.skip(first as int),
            kept.deep_view() == rest.take(i - first).filter(posix::is_normal()),
        decreases full.len() - i,
    {
        proof {
            lemma_filter_step(rest, posix::is_normal(), i - first);
            assert(rest[i - first] == full@[i as int]@);
        }
        if normal_component(full[i].as_str()) {
            let ghost before = kept.deep_view();
            kept.push(full[i].clone());
            assert(kept.deep_view() =~= before.push(rest[i - first]));
        }
        i += 1;
    }
    assert(rest.take(rest.len() as int) == rest);
    posix_path_from_segments(kept.as_slice())
}

// ---------------------------------------------------------------------------
// Containers
// ---------------------------------------------------------------------------
/// The place of a relative path below the mount point.
pub open spec fn mounted_at(mount_point: Seq<char>, relative_path: Seq<char>) -> Seq<char> {
    mount_point + "/"@ + relative_path
}

pub fn container_path(mount_point: &str, relative_path: &str) -> (res: String)
    ensures
        res@ == mounted_at(mount_point@, relative_path@),
{
    let mut out = mount_point.to_owned();
    out.append("/");
    out.append(relative_path);
    out
}

/// The argument of a bind mount, or why the source cannot be mounted.
pub open spec fn bind_mount(source: Seq<char>, target: Seq<char>, readonly: bool) -> Result<
    Seq<char>,
    Seq<Seq<char>>,
> {
    if !posix::is_absolute(source) {
        Err(failure::plain("docker bind mount source must be absolute, received "@ + source))
    } else {
        let mount = "type=bind,source="@ + source + ",target="@ + target;
        Ok(if readonly { mount + ",readonly"@ } else { mount })
    }
}

pub fn docker_bind_mount(source: &str, target: &str, readonly: bool) -> (res: Result<
    String,
    Failure,
>)
    ensures
        match res {
            Ok(value) => bind_mount(source@, target@, readonly) == Ok::<
                Seq<char>,
                Seq<Seq<char>>,
            >(value@),
            Err(error) => bind_mount(source@, target@, readonly) == Err::<
                Seq<char>,
                Seq<Seq<char>>,
            >(error@),
        },
{
    if !absolute(source) {
        let mut message = "docker bind mount source must be absolute, received ".to_owned();
        message.append(source);
        return Err(Failure::new(message));
    }
    let mut mount = "type=bind,source=".to_owned();
    mount.append(source);
    mount.append(",target=");
    mount.append(target);
    if readonly {
        mount.append(",readonly");
    }
    Ok(mount)
}

// ---------------------------------------------------------------------------
// Laws
// ---------------------------------------------------------------------------
/// A path that was normalized: its segments name something, none leads upwards, and it does not
/// start with a slash.
pub open spec fn is_clean(path: Seq<char>) -> bool {
    let segments = search::split_by(path, separators());
    &&& path.len() > 0
    &&& path[0] != '/' && path[0] != '\\'
    &&& forall|i: int|
        0 <= i < segments.len() ==> #[trigger] segments[i] != ""@ && segments[i] != "."@
            && segments[i] != ".."@
    &&& path_segments(path) == segments
}

/// A path that is accepted is clean, so that it leads nowhere but below the place it is put.
pub proof fn lemma_normalized_is_clean(path: Seq<char>, description: Seq<char>)
    ensures
        normalized(path, description) matches Ok(clean) ==> is_clean(clean)
            && !posix::is_absolute(clean),
{
    if let Ok(clean) = normalized(path, description) {
        reveal_strlit("/");
        reveal_strlit("/\\");
        reveal_strlit("");
        let body = text::trimmed(path);
        let pieces = search::split_by(body, separators());
        let segments = path_segments(body);
        search::lemma_split_pieces(body, separators());
        assert forall|i: int| 0 <= i < segments.len() implies #[trigger] segments[i] != ""@
            && segments[i] != "."@ && segments[i] != ".."@ && pieces.contains(segments[i]) by {
            search::lemma_filter_origin(pieces, names_something(), i);
        }
        assert forall|i: int, j: int|
            0 <= i < segments.len() && 0 <= j < segments[i].len() implies !separators()(
            #[trigger] segments[i][j],
        ) by {
            assert(pieces.contains(segments[i]));
            let k = choose|k: int| 0 <= k < pieces.len() && pieces[k] == segments[i];
            assert(!separators()(pieces[k][j]));
        }
        assert("/\\"@[0] == '/' && "/\\"@[1] == '\\');
        assert(separators()('/') && separators()('\\'));
        assert("/"@ =~= seq!['/']);
        search::lemma_split_of_join(segments, '/', separators());
        search::lemma_filter_all(segments, names_something());
        assert(segments[0] != ""@);
        assert(segments[0].len() > 0) by {
            if segments[0].len() == 0 {
                assert(segments[0] =~= ""@);
            }
        }
        compose::lemma_join_len(segments, "/"@, 0);
        assert(clean[0] == segments[0][0]) by {
            if segments.len() > 1 {
                compose::lemma_join_first(segments, "/"@);
            }
        }
        assert(!separators()(segments[0][0]));
    }
}

/// Normalizing a normalized path changes nothing, unless the path starts like a drive or has
/// blanks at one of its ends.
pub proof fn lemma_normalized_twice(path: Seq<char>, description: Seq<char>)
    requires
        normalized(path, description) matches Ok(clean) ==> text::trimmed(clean) == clean
            && !has_windows_prefix(clean),
    ensures
        normalized(path, description) matches Ok(clean) ==> normalized(clean, description) == Ok::<
            Seq<char>,
            Seq<Seq<char>>,
        >(clean),
{
    if let Ok(clean) = normalized(path, description) {
        lemma_normalized_is_clean(path, description);
        reveal_strlit("/");
        reveal_strlit("/\\");
        let body = text::trimmed(path);
        let pieces = search::split_by(body, separators());
        let segments = path_segments(body);
        search::lemma_split_pieces(body, separators());
        assert forall|i: int, j: int|
            0 <= i < segments.len() && 0 <= j < segments[i].len() implies !separators()(
            #[trigger] segments[i][j],
        ) by {
            search::lemma_filter_origin(pieces, names_something(), i);
            let k = choose|k: int| 0 <= k < pieces.len() && pieces[k] == segments[i];
            assert(!separators()(pieces[k][j]));
        }
        assert("/\\"@[0] == '/');
        assert(separators()('/'));
        assert("/"@ =~= seq!['/']);
        search::lemma_split_of_join(segments, '/', separators());
        assert(search::split_by(clean, separators()) == segments);
        assert(!segments.contains(".."@)) by {
            if segments.contains(".."@) {
                let k = choose|k: int| 0 <= k < segments.len() && segments[k] == ".."@;
                assert(search::split_by(clean, separators())[k] != ".."@);
            }
        }
    }
}

/// A file with a normalized path stands below the directory it is put in.
pub proof fn lemma_stays_below(root: Seq<char>, path: Seq<char>, description: Seq<char>)
    ensures
        normalized(path, description) matches Ok(clean) ==> search::starts_with(
            posix::joined(root, clean),
            root,
        ) && search::ends_with(posix::joined(root, clean), clean),
{
    if let Ok(clean) = normalized(path, description) {
        lemma_normalized_is_clean(path, description);
        let full = posix::joined(root, clean);
        assert(full.take(root.len() as int) =~= root);
        assert(full.skip(full.len() - clean.len()) =~= clean);
    }
}

/// A mount that is asked to be read-only says so at its end.
pub proof fn lemma_readonly_mount(source: Seq<char>, target: Seq<char>)
    ensures
        bind_mount(source, target, true) matches Ok(mount) ==> search::ends_with(
            mount,
            ",readonly"@,
        ),
{
    if let Ok(mount) = bind_mount(source, target, true) {
        assert(mount.skip(mount.len() - ",readonly"@.len()) =~= ",readonly"@);
    }
}

/// What stands below a root is named by the names below it.
pub proof fn lemma_relative_to(a: Seq<Seq<char>>, b: Seq<Seq<char>>)
    requires
        posix::are_names(a),
        posix::are_names(b),
        a.len() > 0,
        b.len() > 0,
    ensures
        relative_to(
            compose::join(a, "/"@),
            posix::joined(compose::join(a, "/"@), compose::join(b, "/"@)),
        ) == compose::join(b, "/"@),
        relative_to(
            "/"@ + compose::join(a, "/"@),
            posix::joined("/"@ + compose::join(a, "/"@), compose::join(b, "/"@)),
        ) == compose::join(b, "/"@),
{
    let all = a + b;
    assert(posix::are_names(all)) by {
        assert forall|i: int| 0 <= i < all.len() implies posix::is_name(#[trigger] all[i]) by {
            if i < a.len() {
                assert(all[i] == a[i]);
            } else {
                assert(all[i] == b[i - a.len()]);
            }
        }
    }
    posix::lemma_joined_names(a, b);
    posix::lemma_components_of_names(a);
    posix::lemma_components_of_names(all);
    posix::lemma_names_stay(b);
    assert(a.is_prefix_of(all));
    assert(all.skip(a.len() as int) =~= b);
    let rooted = seq!["/"@] + a;
    let full = seq!["/"@] + all;
    assert(rooted.is_prefix_of(full));
    assert(full.skip(rooted.len() as int) =~= b);
}

/// A name that can stand in a path from outside.
pub open spec fn is_portable(name: Seq<char>) -> bool {
    posix::is_name(name) && !name.contains('\\')
}

/// A relative path keeps its names, in order, whichever slashes separate them.
pub proof fn lemma_normalized_names(names: Seq<Seq<char>>, sep: char, description: Seq<char>)
    requires
        names.len() > 0,
        forall|i: int| 0 <= i < names.len() ==> is_portable(#[trigger] names[i]),
        sep == '/' || sep == '\\',
        text::trimmed(compose::join(names, seq![sep])) == compose::join(names, seq![sep]),
        !has_windows_prefix(compose::join(names, seq![sep])),
    ensures
        normalized(compose::join(names, seq![sep]), description) == Ok::<
            Seq<char>,
            Seq<Seq<char>>,
        >(compose::join(names, "/"@)),
{
    reveal_strlit("");
    lemma_separators();
    let whole = compose::join(names, seq![sep]);
    assert forall|i: int, j: int|
        0 <= i < names.len() && 0 <= j < names[i].len() implies !separators()(
        #[trigger] names[i][j],
    ) by {
        assert(is_portable(names[i]));
        assert(names[i].contains(names[i][j]));
    }
    search::lemma_split_of_join(names, sep, separators());
    let first = names[0];
    assert(is_portable(first));
    assert(first.contains(first[0]));
    if names.len() > 1 {
        compose::lemma_join_first(names, seq![sep]);
    }
    assert(whole[0] == first[0]);
    assert forall|i: int| 0 <= i < names.len() implies names_something()(#[trigger] names[i]) by {
        assert(is_portable(names[i]));
        assert(""@.len() == 0);
    }
    search::lemma_filter_all(names, names_something());
    assert(!names.contains(".."@)) by {
        if names.contains(".."@) {
            let i = choose|i: int| 0 <= i < names.len() && names[i] == ".."@;
            assert(is_portable(names[i]));
        }
    }
}

proof fn lemma_separators()
    ensures
        forall|c: char| #[trigger] separators()(c) <==> c == '/' || c == '\\',
{
    reveal_strlit("/\\");
    assert("/\\"@[0] == '/');
    assert("/\\"@[1] == '\\');
    assert forall|c: char| #[trigger] separators()(c) <==> c == '/' || c == '\\' by {
        assert(separators()(c) == "/\\"@.contains(c));
        if "/\\"@.contains(c) {
            let i = choose|i: int| 0 <= i < "/\\"@.len() && "/\\"@[i] == c;
            assert(i == 0 || i == 1);
        }
    }
}

/// A path that leads upwards anywhere, or that starts at a root, is refused.
pub proof fn lemma_normalized_refuses(pieces: Seq<Seq<char>>, sep: char, description: Seq<char>)
    requires
        sep == '/' || sep == '\\',
        pieces.len() > 0,
        forall|i: int|
            0 <= i < pieces.len() ==> !(#[trigger] pieces[i]).contains('/') && !pieces[i].contains(
                '\\',
            ),
        text::trimmed(compose::join(pieces, seq![sep])) == compose::join(pieces, seq![sep]),
        pieces.contains(".."@) || pieces.len() > 1 && pieces[0].len() == 0,
    ensures
        normalized(compose::join(pieces, seq![sep]), description) is Err,
{
    lemma_separators();
    let whole = compose::join(pieces, seq![sep]);
    assert forall|i: int, j: int|
        0 <= i < pieces.len() && 0 <= j < pieces[i].len() implies !separators()(
        #[trigger] pieces[i][j],
    ) by {
        assert(!pieces[i].contains('/'));
        assert(pieces[i].contains(pieces[i][j]));
    }
    search::lemma_split_of_join(pieces, sep, separators());
    if pieces.len() > 1 {
        compose::lemma_join_first(pieces, seq![sep]);
        if pieces[0].len() == 0 {
            assert(whole[0] == sep);
        }
    }
}

/// A bind mount names its source and its target, and is refused without an absolute source.
pub proof fn lemma_mount_names(source: Seq<char>, target: Seq<char>, readonly: bool)
    ensures
        bind_mount(source, target, readonly) is Ok <==> posix::is_absolute(source),
        bind_mount(source, target, readonly) matches Ok(mount) ==> {
            &&& search::contains(mount, ",source="@ + source)
            &&& search::contains(mount, ",target="@ + target)
            &&& !readonly ==> search::ends_with(mount, ",target="@ + target)
        },
{
    search::lemma_parts_found();
    if let Ok(mount) = bind_mount(source, target, readonly) {
        reveal_strlit("type=bind,source=");
        reveal_strlit(",source=");
        let bare = "type=bind,source="@ + source + ",target="@ + target;
        let start = "type=bind"@;
        reveal_strlit("type=bind");
        assert("type=bind,source="@ =~= start + ",source="@);
        assert(start + ",source="@ + source =~= start + (",source="@ + source));
        assert(search::contains(start + (",source="@ + source), ",source="@ + source));
        assert(search::contains("type=bind,source="@ + source, ",source="@ + source));
        assert(search::contains("type=bind,source="@ + source + ",target="@, ",source="@ + source));
        assert(search::contains(bare, ",source="@ + source));
        assert(search::contains(bare, ",target="@ + target));
        if !readonly {
            let end = ",target="@ + target;
            assert(mount.skip(mount.len() - end.len()) =~= end);
        }
    }
}

/// A path below a mount point is the mount point, a slash and the path.
pub proof fn lemma_mounted_at(mount_point: Seq<char>, relative_path: Seq<char>)
    ensures
        search::starts_with(mounted_at(mount_point, relative_path), mount_point),
        search::ends_with(mounted_at(mount_point, relative_path), "/"@ + relative_path),
        mounted_at(mount_point, relative_path).len() == mount_point.len() + relative_path.len() + 1,
{
    reveal_strlit("/");
    let whole = mounted_at(mount_point, relative_path);
    let end = "/"@ + relative_path;
    assert(whole.take(mount_point.len() as int) =~= mount_point);
    assert(whole.skip(whole.len() - end.len()) =~= end);
}

} // verus!
