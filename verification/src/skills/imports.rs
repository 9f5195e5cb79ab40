//! The imports of a source file.
use crate::compose;
use crate::search;
use crate::search::{has_text, split, split_at_text, split_words, without_prefix};
use crate::skills::declarations;
use crate::skills::graph::{ImportEdge, ImportModel};
use crate::skills::names;
use crate::skills::names::{extract_first_quoted_value, final_piece, strip_leading, trim_quotes};
use crate::skills::syntax;
use crate::skills::syntax::{
    collect_identifier_texts, find_field, node_text, SourceLanguage, SyntaxNode, Tree,
};
use crate::text;
use crate::text::{
    chars_of, is_listed, same, string_of, trim, trim_end_chars, trim_matches, CharClass,
};
use crate::utils::posix;
use vstd::prelude::*;
use vstd::slice::slice_subrange;

verus! {

pub open spec fn named_import(source: Seq<char>, names: Seq<Seq<char>>) -> ImportModel {
    ImportModel { source, names, kind: "named"@ }
}

// ---------------------------------------------------------------------------
// JavaScript
// ---------------------------------------------------------------------------
/// The identifiers in the first `n` children, without those of the child at `skipped`.
pub open spec fn identifiers_but(children: Seq<Tree>, n: int, skipped: int) -> Seq<Seq<char>>
    decreases n,
{
    if n <= 0 || n > children.len() {
        Seq::empty()
    } else {
        let before = identifiers_but(children, n - 1, skipped);
        if n - 1 != skipped && children[n - 1].named {
            syntax::identifiers(children[n - 1], before, false)
        } else {
            before
        }
    }
}

/// The import of an import statement.
pub open spec fn script_import(node: Tree) -> Option<ImportModel> {
    let at = syntax::field_index(node.children, "source"@);
    match syntax::field_text(node, "source"@) {
        None => None,
        Some(quoted) => {
            let names = identifiers_but(node.children, node.children.len() as int, at);
            Some(
                ImportModel {
                    source: names::unquoted(quoted),
                    names,
                    kind: if names.len() == 0 {
                        "side_effect"@
                    } else if node.text matches Some(text) && search::contains(text, "*"@) {
                        "namespace"@
                    } else {
                        "named"@
                    },
                },
            )
        },
    }
}

pub fn extract_javascript_import(node: &SyntaxNode) -> (res: Option<ImportEdge>)
    ensures
        res.deep_view() == script_import(node@),
{
    let at: usize = find_field(node, "source");
    if at == node.children.len() {
        return None;
    }
    assert(node@.children[at as int] == node.children@[at as int]@);
    let quoted = match node_text(&node.children[at]) {
        Some(quoted) => quoted,
        None => {
            return None;
        },
    };
    let ghost all = node@.children;
    let mut found: Vec<String> = Vec::new();
    let mut i: usize = 0;
    assert(found.deep_view() =~= Seq::empty());
    while i < node.children.len()
        invariant
            i <= node.children.len(),
            all == node@.children,
            found.deep_view() == identifiers_but(all, i as int, at as int),
        decreases node.children.len() - i,
    {
        assert(all[i as int] == node.children@[i as int]@);
        if i != at && node.children[i].named {
            collect_identifier_texts(&node.children[i], &mut found);
        }
        i += 1;
    }
    let is_namespace: bool = match &node.text {
        Some(text) => has_text(text.as_str(), "*"),
        None => false,
    };
    assert(found.deep_view().len() == found@.len());
    let kind = if found.len() == 0 {
        "side_effect"
    } else if is_namespace {
        "namespace"
    } else {
        "named"
    };
    Some(ImportEdge { source: trim_quotes(quoted.as_str()), names: found, kind: kind.to_owned() })
}

// ---------------------------------------------------------------------------
// Python
// ---------------------------------------------------------------------------
/// What follows the last dot of a dotted name.
pub open spec fn local_name(name: Seq<char>) -> Seq<char> {
    name.skip(posix::after_last(name, '.'))
}

/// The imports of modules by their names.
pub open spec fn module_imports(entries: Seq<Seq<char>>) -> Seq<ImportModel>
    decreases entries.len(),
{
    if entries.len() == 0 {
        Seq::empty()
    } else {
        let before = module_imports(entries.drop_last());
        let words = search::words(entries.last());
        if words.len() == 0 {
            before
        } else {
            before.push(named_import(words[0], seq![local_name(words[0])]))
        }
    }
}

/// The names that are imported from a module.
pub open spec fn imported_names(entries: Seq<Seq<char>>) -> Seq<Seq<char>>
    decreases entries.len(),
{
    if entries.len() == 0 {
        Seq::empty()
    } else {
        let before = imported_names(entries.drop_last());
        let words = search::words(text::trimmed(entries.last()));
        if words.len() == 0 {
            before
        } else {
            before.push(words[0])
        }
    }
}

pub open spec fn comma() -> spec_fn(char) -> bool {
    text::among(","@)
}

/// The imports that the text of an import statement makes.
pub open spec fn python_imports(raw: Seq<char>) -> Seq<ImportModel> {
    let statement = text::trimmed(raw);
    match search::strip_prefix(statement, "import "@) {
        Some(list) => module_imports(search::split_by(list, comma())),
        None => match search::strip_prefix(statement, "from "@) {
            None => Seq::empty(),
            Some(clause) => match search::split_once(clause, " import "@) {
                None => Seq::empty(),
                Some((module, list)) => {
                    let names = imported_names(search::split_by(list, comma()));
                    seq![
                        ImportModel {
                            source: text::trimmed(module),
                            names,
                            kind: if names.contains("*"@) {
                                "namespace"@
                            } else {
                                "named"@
                            },
                        },
                    ]
                },
            },
        },
    }
}

fn import_modules(entries: &Vec<String>) -> (res: Vec<ImportEdge>)
    ensures
        res.deep_view() == module_imports(entries.deep_view()),
{
    let ghost all = entries.deep_view();
    let mut out: Vec<ImportEdge> = Vec::new();
    let mut i: usize = 0;
    assert(all.take(0) =~= Seq::empty());
    assert(out.deep_view() =~= Seq::empty());
    while i < entries.len()
        invariant
            i <= entries.len(),
            all == entries.deep_view(),
            out.deep_view() == module_imports(all.take(i as int)),
        decreases entries.len() - i,
    {
        proof {
            assert(all.take(i as int + 1).drop_last() == all.take(i as int));
            assert(all.take(i as int + 1).last() == entries@[i as int]@);
        }
        let words: Vec<String> = split_words(entries[i].as_str());
        assert(words.deep_view().len() == words@.len());
        if words.len() > 0 {
            let ghost before = out.deep_view();
            assert(words.deep_view()[0] == words@[0]@);
            let chars: Vec<char> = chars_of(words[0].as_str());
            let n: usize = chars.len();
            let cut: usize = posix::cut_after_last(chars.as_slice(), '.');
            let tail = slice_subrange(chars.as_slice(), cut, n);
            assert(tail@ == local_name(words@[0]@));
            let mut names: Vec<String> = Vec::new();
            names.push(string_of(tail));
            assert(names.deep_view() =~= seq![local_name(words@[0]@)]);
            let edge = ImportEdge { source: words[0].clone(), names, kind: "named".to_owned() };
            out.push(edge);
            assert(out.deep_view() =~= before.push(edge.deep_view()));
        }
        i += 1;
    }
    assert(all.take(all.len() as int) == all);
    out
}

fn import_names(entries: &Vec<String>) -> (res: Vec<String>)
    ensures
        res.deep_view() == imported_names(entries.deep_view()),
{
    let ghost all = entries.deep_view();
    let mut out: Vec<String> = Vec::new();
    let mut i: usize = 0;
    assert(all.take(0) =~= Seq::empty());
    assert(out.deep_view() =~= Seq::empty());
    while i < entries.len()
        invariant
            i <= entries.len(),
            all == entries.deep_view(),
            out.deep_view() == imported_names(all.take(i as int)),
        decreases entries.len() - i,
    {
        proof {
            assert(all.take(i as int + 1).drop_last() == all.take(i as int));
            assert(all.take(i as int + 1).last() == entries@[i as int]@);
        }
        let words: Vec<String> = split_words(trim(entries[i].as_str()).as_str());
        assert(words.deep_view().len() == words@.len());
        if words.len() > 0 {
            let ghost before = out.deep_view();
            assert(words.deep_view()[0] == words@[0]@);
            out.push(words[0].clone());
            assert(out.deep_view() =~= before.push(words@[0]@));
        }
        i += 1;
    }
    assert(all.take(all.len() as int) == all);
    out
}

fn no_imports() -> (res: Vec<ImportEdge>)
    ensures
        res.deep_view() == Seq::<ImportModel>::empty(),
{
    let res: Vec<ImportEdge> = Vec::new();
    assert(res.deep_view() =~= Seq::empty());
    res
}

fn one_import(edge: ImportEdge) -> (res: Vec<ImportEdge>)
    ensures
        res.deep_view() == seq![edge.deep_view()],
{
    let mut res: Vec<ImportEdge> = Vec::new();
    res.push(edge);
    assert(res.deep_view() =~= seq![edge.deep_view()]);
    res
}

pub fn extract_python_imports(raw_text: &str) -> (res: Vec<ImportEdge>)
    ensures
        res.deep_view() == python_imports(raw_text@),
{
    let statement = trim(raw_text);
    if let Some(import_list) = without_prefix(statement.as_str(), "import ") {
        let entries: Vec<String> = split(import_list.as_str(), CharClass::Among(","));
        return import_modules(&entries);
    }
    let from_clause = match without_prefix(statement.as_str(), "from ") {
        Some(clause) => clause,
        None => {
            return no_imports();
        },
    };
    match split_at_text(from_clause.as_str(), " import ") {
        Some((module_name, list)) => {
            let entries: Vec<String> = split(list.as_str(), CharClass::Among(","));
            let names: Vec<String> = import_names(&entries);
            let kind = if is_listed(names.as_slice(), "*") {
                "namespace"
            } else {
                "named"
            };
            one_import(
                ImportEdge { source: trim(module_name.as_str()), names, kind: kind.to_owned() },
            )
        },
        None => no_imports(),
    }
}

// ---------------------------------------------------------------------------
// Go
// ---------------------------------------------------------------------------
/// The import that quoted text stands for.
pub open spec fn quoted_import(text: Option<Seq<char>>) -> Option<ImportModel> {
    match text {
        None => None,
        Some(t) => match names::first_quoted(t) {
            Some(source) => Some(named_import(source, Seq::empty())),
            None => None,
        },
    }
}

/// The imports of the import specifications among the children.
pub open spec fn spec_imports(children: Seq<Tree>) -> Seq<ImportModel>
    decreases children.len(),
{
    if children.len() == 0 {
        Seq::empty()
    } else {
        let before = spec_imports(children.drop_last());
        let last = children.last();
        if last.named && last.kind == "import_spec"@ {
            match quoted_import(last.text) {
                Some(edge) => before.push(edge),
                None => before,
            }
        } else {
            before
        }
    }
}

pub open spec fn go_imports(node: Tree) -> Seq<ImportModel> {
    if spec_imports(node.children).len() > 0 {
        spec_imports(node.children)
    } else {
        match quoted_import(node.text) {
            Some(edge) => seq![edge],
            None => Seq::empty(),
        }
    }
}

fn import_from_quotes(node: &SyntaxNode) -> (res: Option<ImportEdge>)
    ensures
        res.deep_view() == quoted_import(node@.text),
{
    match &node.text {
        None => None,
        Some(text) => match extract_first_quoted_value(text.as_str()) {
            Some(source) => {
                let names: Vec<String> = Vec::new();
                assert(names.deep_view() =~= Seq::empty());
                Some(ImportEdge { source, names, kind: "named".to_owned() })
            },
            None => None,
        },
    }
}

pub fn extract_go_imports(node: &SyntaxNode) -> (res: Vec<ImportEdge>)
    ensures
        res.deep_view() == go_imports(node@),
{
    let ghost all = node@.children;
    let mut imports: Vec<ImportEdge> = no_imports();
    let mut i: usize = 0;
    assert(all.take(0) =~= Seq::empty());
    while i < node.children.len()
        invariant
            i <= node.children.len(),
            all == node@.children,
            imports.deep_view() == spec_imports(all.take(i as int)),
        decreases node.children.len() - i,
    {
        let child = &node.children[i];
        proof {
            assert(all.take(i as int + 1).drop_last() == all.take(i as int));
            assert(all.take(i as int + 1).last() == child@);
        }
        if child.named && same(child.kind.as_str(), "import_spec") {
            if let Some(edge) = import_from_quotes(child) {
                let ghost before = imports.deep_view();
                imports.push(edge);
                assert(imports.deep_view() =~= before.push(edge.deep_view()));
            }
        }
        i += 1;
    }
    assert(all.take(all.len() as int) == all);
    assert(imports.deep_view().len() == imports@.len());
    if imports.len() > 0 {
        return imports;
    }
    match import_from_quotes(node) {
        Some(edge) => one_import(edge),
        None => no_imports(),
    }
}

// ---------------------------------------------------------------------------
// Rust
// ---------------------------------------------------------------------------
/// The path that the text of a use declaration imports.
pub open spec fn use_path(raw: Seq<char>) -> Seq<char> {
    let bare = names::without_leading(
        names::without_leading(text::trimmed(raw), "pub "@),
        "use "@,
    );
    text::trimmed(text::trim_end_by(bare, text::among(";"@)))
}

/// The names at the end of the path: one, or a list in braces.
pub open spec fn use_names(path: Seq<char>) -> Seq<Seq<char>> {
    let last = text::trim_by(names::last_piece(path, "::"@), text::among("{}"@));
    if last.len() == 0 {
        Seq::empty()
    } else {
        search::split_by(last, comma()).map_values(|name: Seq<char>| text::trimmed(name))
    }
}

pub open spec fn rust_imports(raw: Seq<char>) -> Seq<ImportModel> {
    if use_path(raw).len() == 0 {
        Seq::empty()
    } else {
        seq![named_import(use_path(raw), use_names(use_path(raw)))]
    }
}

fn trim_each(entries: &Vec<String>) -> (res: Vec<String>)
    ensures
        res.deep_view() == entries.deep_view().map_values(|s: Seq<char>| text::trimmed(s)),
{
    let ghost wanted = entries.deep_view().map_values(|s: Seq<char>| text::trimmed(s));
    let mut out: Vec<String> = Vec::new();
    let mut i: usize = 0;
    assert(out.deep_view() =~= wanted.take(0));
    while i < entries.len()
        invariant
            i <= entries.len(),
            wanted == entries.deep_view().map_values(|s: Seq<char>| text::trimmed(s)),
            out.deep_view() == wanted.take(i as int),
        decreases entries.len() - i,
    {
        let ghost before = out.deep_view();
        assert(entries.deep_view()[i as int] == entries@[i as int]@);
        out.push(trim(entries[i].as_str()));
        assert(out.deep_view() =~= before.push(wanted[i as int]));
        assert(wanted.take(i as int + 1) =~= wanted.take(i as int).push(wanted[i as int]));
        i += 1;
    }
    assert(wanted.take(wanted.len() as int) =~= wanted);
    out
}

pub fn extract_rust_imports(raw_text: &str) -> (res: Vec<ImportEdge>)
    ensures
        res.deep_view() == rust_imports(raw_text@),
{
    let bare = strip_leading(strip_leading(trim(raw_text).as_str(), "pub ").as_str(), "use ");
    let chars: Vec<char> = chars_of(bare.as_str());
    let head = trim_end_chars(chars.as_slice(), CharClass::Among(";"));
    let path = trim(string_of(head).as_str());
    if path.as_str().is_empty() {
        return no_imports();
    }
    proof {
        reveal_strlit("::");
    }
    let last = trim_matches(final_piece(path.as_str(), "::").as_str(), CharClass::Among("{}"));
    let names: Vec<String> = if last.as_str().is_empty() {
        let none: Vec<String> = Vec::new();
        assert(none.deep_view() =~= Seq::empty());
        none
    } else {
        let entries: Vec<String> = split(last.as_str(), CharClass::Among(","));
        trim_each(&entries)
    };
    assert(names.deep_view() =~= use_names(path@));
    one_import(ImportEdge { source: path, names, kind: "named".to_owned() })
}

// ---------------------------------------------------------------------------
// All languages
// ---------------------------------------------------------------------------
/// The imports that an import statement of the language makes.
pub open spec fn imports_of(node: Tree, language: SourceLanguage) -> Seq<ImportModel> {
    match language {
        SourceLanguage::Python => match node.text {
            Some(raw) => python_imports(raw),
            None => Seq::empty(),
        },
        SourceLanguage::Go => go_imports(node),
        SourceLanguage::Rust => match node.text {
            Some(raw) => rust_imports(raw),
            None => Seq::empty(),
        },
        _ => match script_import(node) {
            Some(edge) => seq![edge],
            None => Seq::empty(),
        },
    }
}

pub fn extract_imports(node: &SyntaxNode, language: SourceLanguage) -> (res: Vec<ImportEdge>)
    ensures
        res.deep_view() == imports_of(node@, language),
{
    match language {
        SourceLanguage::Python => match &node.text {
            Some(raw) => extract_python_imports(raw.as_str()),
            None => no_imports(),
        },
        SourceLanguage::Go => extract_go_imports(node),
        SourceLanguage::Rust => match &node.text {
            Some(raw) => extract_rust_imports(raw.as_str()),
            None => no_imports(),
        },
        _ => match extract_javascript_import(node) {
            Some(edge) => one_import(edge),
            None => no_imports(),
        },
    }
}

// ---------------------------------------------------------------------------
// Laws
// ---------------------------------------------------------------------------
/// Each entry of a list names what is imported before anything else in it, and holds no comma.
pub open spec fn names_each(entries: Seq<Seq<char>>, named: Seq<Seq<char>>) -> bool {
    &&& entries.len() == named.len()
    &&& entries.len() > 0
    &&& forall|i: int| 0 <= i < entries.len() ==> !(#[trigger] entries[i]).contains(',')
    &&& forall|i: int|
        0 <= i < entries.len() ==> search::leads_with(#[trigger] entries[i], named[i])
}

proof fn lemma_comma()
    ensures
        forall|c: char| #[trigger] comma()(c) <==> c == ',',
        ","@ == seq![','],
{
    reveal_strlit(",");
    assert(","@ =~= seq![',']);
    assert(","@[0] == ',');
    assert forall|c: char| #[trigger] comma()(c) <==> c == ',' by {
        assert(comma()(c) == ","@.contains(c));
        if ","@.contains(c) {
            let i = choose|i: int| 0 <= i < ","@.len() && ","@[i] == c;
            assert(i == 0);
        }
        if c == ',' {
            assert(","@[0] == c);
        }
    }
}

proof fn lemma_entries(entries: Seq<Seq<char>>, named: Seq<Seq<char>>)
    requires
        names_each(entries, named),
    ensures
        search::split_by(compose::join(entries, ","@), comma()) == entries,
{
    lemma_comma();
    assert forall|i: int, j: int|
        0 <= i < entries.len() && 0 <= j < entries[i].len() implies !comma()(
        #[trigger] entries[i][j],
    ) by {
        assert(!entries[i].contains(','));
        assert(entries[i].contains(entries[i][j]));
    }
    search::lemma_split_of_join(entries, ',', comma());
}

/// An import statement imports each module that it lists, in order, under the last part of the
/// module's name.
pub proof fn lemma_import_statement(
    raw: Seq<char>,
    entries: Seq<Seq<char>>,
    modules: Seq<Seq<char>>,
)
    requires
        names_each(entries, modules),
        text::trimmed(raw) == "import "@ + compose::join(entries, ","@),
    ensures
        python_imports(raw).len() == modules.len(),
        forall|i: int|
            0 <= i < modules.len() ==> {
                let import = #[trigger] python_imports(raw)[i];
                &&& import.source == modules[i]
                &&& import.names == seq![local_name(modules[i])]
                &&& import.kind == "named"@
            },
{
    let list = compose::join(entries, ","@);
    lemma_entries(entries, modules);
    assert(("import "@ + list).take("import "@.len() as int) =~= "import "@);
    assert(("import "@ + list).skip("import "@.len() as int) =~= list);
    lemma_modules(entries, modules);
}

proof fn lemma_modules(entries: Seq<Seq<char>>, modules: Seq<Seq<char>>)
    requires
        entries.len() == modules.len(),
        forall|i: int|
            0 <= i < entries.len() ==> search::leads_with(#[trigger] entries[i], modules[i]),
    ensures
        module_imports(entries) == Seq::new(
            modules.len(),
            |i: int| named_import(modules[i], seq![local_name(modules[i])]),
        ),
    decreases entries.len(),
{
    let wanted = Seq::new(
        modules.len(),
        |i: int| named_import(modules[i], seq![local_name(modules[i])]),
    );
    if entries.len() > 0 {
        let n = entries.len() - 1;
        let less = entries.drop_last();
        let fewer = modules.drop_last();
        assert forall|i: int| 0 <= i < less.len() implies search::leads_with(
            #[trigger] less[i],
            fewer[i],
        ) by {
            assert(less[i] == entries[i]);
            assert(fewer[i] == modules[i]);
        }
        lemma_modules(less, fewer);
        assert(entries[n] == entries.last());
        let (indent, rest) = choose|indent: Seq<char>, rest: Seq<char>|
            search::leads(entries[n], modules[n], indent, rest);
        search::lemma_first_word(entries[n], modules[n], indent, rest);
        assert(search::words(entries.last())[0] == modules[n]);
        assert(module_imports(entries) =~= wanted);
    } else {
        assert(module_imports(entries) =~= wanted);
    }
}

/// A module is imported under its own name if it has no dots, and else under what follows the
/// last of them.
pub proof fn lemma_local_name(path: Seq<char>, name: Seq<char>)
    requires
        !name.contains('.'),
    ensures
        local_name(name) == name,
        local_name(path + seq!['.'] + name) == name,
    decreases name.len(),
{
    let whole = path + seq!['.'] + name;
    if name.len() > 0 {
        let less = name.drop_last();
        assert(name[name.len() - 1] == name.last());
        assert(name.last() != '.');
        assert(!less.contains('.')) by {
            if less.contains('.') {
                let k = choose|k: int| 0 <= k < less.len() && less[k] == '.';
                assert(name[k] == '.');
            }
        }
        lemma_local_name(path, less);
        assert(whole.drop_last() =~= path + seq!['.'] + less);
        assert(whole.last() == name.last());
        lemma_after_dot(path, name);
        lemma_no_dot(name);
    } else {
        lemma_after_dot(path, name);
        lemma_no_dot(name);
    }
    assert(name.skip(0) =~= name);
    assert(whole.skip(path.len() as int + 1) =~= name);
}

proof fn lemma_after_dot(path: Seq<char>, name: Seq<char>)
    requires
        !name.contains('.'),
    ensures
        posix::after_last(path + seq!['.'] + name, '.') == path.len() + 1,
    decreases name.len(),
{
    let whole = path + seq!['.'] + name;
    if name.len() > 0 {
        let less = name.drop_last();
        assert(name[name.len() - 1] == name.last());
        assert(!less.contains('.')) by {
            if less.contains('.') {
                let k = choose|k: int| 0 <= k < less.len() && less[k] == '.';
                assert(name[k] == '.');
            }
        }
        lemma_after_dot(path, less);
        assert(whole.drop_last() =~= path + seq!['.'] + less);
        assert(whole.last() == name.last());
    } else {
        assert(whole.last() == '.');
    }
}

proof fn lemma_no_dot(name: Seq<char>)
    requires
        !name.contains('.'),
    ensures
        posix::after_last(name, '.') == 0,
    decreases name.len(),
{
    if name.len() > 0 {
        let less = name.drop_last();
        assert(name[name.len() - 1] == name.last());
        assert(!less.contains('.')) by {
            if less.contains('.') {
                let k = choose|k: int| 0 <= k < less.len() && less[k] == '.';
                assert(name[k] == '.');
            }
        }
        lemma_no_dot(less);
    }
}

/// An import of names from a module is one import of that module, with each name that it lists, in
/// order.
pub proof fn lemma_from_statement(
    raw: Seq<char>,
    module: Seq<char>,
    entries: Seq<Seq<char>>,
    imported: Seq<Seq<char>>,
)
    requires
        names_each(entries, imported),
        module.len() > 0,
        forall|i: int| 0 <= i < module.len() ==> !text::is_white(#[trigger] module[i]),
        text::trimmed(raw) == "from "@ + (module + " import "@ + compose::join(entries, ","@)),
    ensures
        python_imports(raw).len() == 1,
        python_imports(raw)[0].source == module,
        python_imports(raw)[0].names == imported,
        python_imports(raw)[0].kind == if imported.contains("*"@) {
            "namespace"@
        } else {
            "named"@
        },
{
    reveal_strlit("from ");
    reveal_strlit("import ");
    reveal_strlit(" import ");
    let list = compose::join(entries, ","@);
    let clause = module + " import "@ + list;
    let statement = "from "@ + clause;
    let n = module.len() as int;
    lemma_entries(entries, imported);
    assert(statement.take(5) =~= "from "@);
    assert(statement.skip(5) =~= clause);
    assert(statement[0] == 'f');
    assert(statement.len() >= 7 ==> statement.take(7)[0] == 'f');
    assert("import "@[0] == 'i');
    assert(!search::starts_with(statement, "import "@));
    assert(clause.subrange(n, n + 8) =~= " import "@);
    assert forall|j: int| 0 <= j < n implies !search::occurs_at(clause, " import "@, j) by {
        if search::occurs_at(clause, " import "@, j) {
            assert(clause.subrange(j, j + 8)[0] == ' ');
            assert(clause[j] == module[j]);
            assert(text::is_white(' '));
        }
    }
    assert(search::first_occurrence(clause, " import "@, n));
    search::lemma_find_is(clause, " import "@, n);
    assert(clause.take(n) =~= module);
    assert(clause.skip(n + 8) =~= list);
    assert(!text::is_white(module[n - 1]));
    text::lemma_trimmed_already(module);
    lemma_imported(entries, imported);
}

proof fn lemma_imported(entries: Seq<Seq<char>>, imported: Seq<Seq<char>>)
    requires
        entries.len() == imported.len(),
        forall|i: int|
            0 <= i < entries.len() ==> search::leads_with(#[trigger] entries[i], imported[i]),
    ensures
        imported_names(entries) == imported,
    decreases entries.len(),
{
    if entries.len() > 0 {
        let n = entries.len() - 1;
        let less = entries.drop_last();
        let fewer = imported.drop_last();
        assert forall|i: int| 0 <= i < less.len() implies search::leads_with(
            #[trigger] less[i],
            fewer[i],
        ) by {
            assert(less[i] == entries[i]);
            assert(fewer[i] == imported[i]);
        }
        lemma_imported(less, fewer);
        let entry = entries[n];
        assert(entry == entries.last());
        let (indent, rest) = choose|indent: Seq<char>, rest: Seq<char>|
            search::leads(entry, imported[n], indent, rest);
        let tail = lemma_trimmed_leads(entry, imported[n], indent, rest);
        search::lemma_first_word(
            text::trimmed(entry),
            imported[n],
            Seq::<char>::empty(),
            tail,
        );
        assert(search::words(text::trimmed(entry))[0] == imported[n]);
        assert(imported_names(entries) =~= fewer.push(imported[n]));
        assert(fewer.push(imported[n]) =~= imported);
    } else {
        assert(imported_names(entries) =~= imported);
    }
}

/// A word that stands first in a text stands first in it without the white space around it, too.
proof fn lemma_trimmed_leads(
    s: Seq<char>,
    word: Seq<char>,
    indent: Seq<char>,
    rest: Seq<char>,
) -> (tail: Seq<char>)
    requires
        search::leads(s, word, indent, rest),
    ensures
        search::leads(text::trimmed(s), word, Seq::<char>::empty(), tail),
{
    let part = text::lemma_trimmed_part(s);
    let n = indent.len() as int;
    let m = n + word.len();
    assert(s[n] == word[0]);
    assert(!text::is_white(s[n]));
    assert(s[m - 1] == word[word.len() - 1]);
    assert(!text::is_white(s[m - 1]));
    if part.0 < n {
        if part.0 < part.1 {
            assert(s[part.0] == indent[part.0]);
        }
    }
    assert(part.0 == n);
    assert(part.1 >= m);
    let tail = s.subrange(m, part.1);
    assert(s.subrange(n, part.1) =~= Seq::<char>::empty() + word + tail);
    if tail.len() > 0 {
        assert(tail[0] == s[m]);
        assert(s[m] == rest[0]);
    }
    tail
}

/// The imports of two lists of children, one behind the other, are those of the one and those of
/// the other.
pub proof fn lemma_spec_imports_of_parts(a: Seq<Tree>, b: Seq<Tree>)
    ensures
        spec_imports(a + b) == spec_imports(a) + spec_imports(b),
    decreases b.len(),
{
    if b.len() == 0 {
        assert(a + b =~= a);
    } else {
        lemma_spec_imports_of_parts(a, b.drop_last());
        assert((a + b).drop_last() =~= a + b.drop_last());
        assert((a + b).last() == b.last());
    }
}

/// A specification imports what stands between its quotes, under no other name; other children
/// import nothing.
pub proof fn lemma_spec_imports_of_child(
    child: Tree,
    before: Seq<char>,
    source: Seq<char>,
    behind: Seq<char>,
)
    requires
        child.text == Some(before + seq!['"'] + source + seq!['"'] + behind),
        !before.contains('"'),
        !source.contains('"'),
    ensures
        child.named && child.kind == "import_spec"@ ==> spec_imports(seq![child]) == seq![
            ImportModel { source, names: Seq::empty(), kind: "named"@ },
        ],
        !child.named || child.kind != "import_spec"@ ==> spec_imports(seq![child]).len() == 0,
{
    names::lemma_first_quoted(before, source, behind);
    assert(seq![child].drop_last() =~= Seq::<Tree>::empty());
    assert(spec_imports(Seq::<Tree>::empty()) =~= Seq::empty());
    if child.named && child.kind == "import_spec"@ {
        assert(spec_imports(seq![child]) =~= seq![named_import(source, Seq::empty())]);
    }
}

/// An import declaration imports what its specifications import, or else what stands between its
/// own quotes.
pub proof fn lemma_go_imports(
    node: Tree,
    before: Seq<char>,
    source: Seq<char>,
    behind: Seq<char>,
)
    requires
        node.text == Some(before + seq!['"'] + source + seq!['"'] + behind),
        !before.contains('"'),
        !source.contains('"'),
    ensures
        spec_imports(node.children).len() > 0 ==> go_imports(node) == spec_imports(node.children),
        spec_imports(node.children).len() == 0 ==> go_imports(node) == seq![
            ImportModel { source, names: Seq::empty(), kind: "named"@ },
        ],
{
    names::lemma_first_quoted(before, source, behind);
}

/// What an import statement of a script imports by name are the identifiers below its children,
/// without those of its source.
pub proof fn lemma_script_import(node: Tree, at: int)
    requires
        declarations::fills(node, "source"@, at),
        node.children[at].text is Some,
    ensures
        script_import(node) is Some,
        script_import(node)->0.source == names::unquoted(node.children[at].text->0),
        script_import(node)->0.names.no_duplicates(),
        forall|name: Seq<char>| #[trigger]
            script_import(node)->0.names.contains(name) <==> exists|i: int, path: Seq<int>|
                is_imported(node, at, i, path, name),
        script_import(node)->0.kind == "side_effect"@ <==> script_import(node)->0.names.len() == 0,
        script_import(node)->0.kind == "namespace"@ <==> script_import(node)->0.names.len() > 0
            && node.text is Some && search::contains(node.text->0, "*"@),
{
    reveal_strlit("side_effect");
    reveal_strlit("namespace");
    reveal_strlit("named");
    syntax::lemma_child_by_field(node, "source"@, at);
    let n = node.children.len() as int;
    let skipped = syntax::field_index(node.children, "source"@);
    assert(skipped == at) by {
        if skipped < at && 0 <= skipped {
            assert(node.children[skipped].field != Some("source"@));
        }
        syntax::lemma_field_at(node, "source"@, at);
    }
    lemma_identifiers_but(node, n, at);
    assert("side_effect"@.len() == 11);
    assert("namespace"@.len() == 9);
    assert("named"@.len() == 5);
    let names = identifiers_but(node.children, n, at);
    assert forall|name: Seq<char>| #[trigger]
        names.contains(name) <==> exists|i: int, path: Seq<int>|
            is_imported(node, at, i, path, name) by {
        if names.contains(name) {
            let (i, path) = choose|i: int, path: Seq<int>|
                i < n && is_imported(node, at, i, path, name);
            assert(is_imported(node, at, i, path, name));
        }
        if exists|i: int, path: Seq<int>| is_imported(node, at, i, path, name) {
            let (i, path) = choose|i: int, path: Seq<int>| is_imported(node, at, i, path, name);
            assert(i < n && is_imported(node, at, i, path, name));
        }
    }
}

/// The name is that of an identifier below the child at the position, which is not the source.
pub open spec fn is_imported(
    node: Tree,
    at: int,
    i: int,
    path: Seq<int>,
    name: Seq<char>,
) -> bool {
    &&& 0 <= i < node.children.len()
    &&& i != at
    &&& node.children[i].named
    &&& syntax::leads_to(node.children[i], path, false, name)
}

proof fn lemma_identifiers_but(node: Tree, n: int, at: int)
    requires
        0 <= n <= node.children.len(),
    ensures
        identifiers_but(node.children, n, at).no_duplicates(),
        forall|name: Seq<char>| #[trigger]
            identifiers_but(node.children, n, at).contains(name) <==> exists|
                i: int,
                path: Seq<int>,
            |
                i < n && is_imported(node, at, i, path, name),
    decreases n,
{
    let all = identifiers_but(node.children, n, at);
    if n > 0 {
        let before = identifiers_but(node.children, n - 1, at);
        lemma_identifiers_but(node, n - 1, at);
        let last = node.children[n - 1];
        if n - 1 != at && last.named {
            syntax::lemma_identifiers(last, before, false);
        }
        assert forall|name: Seq<char>| #[trigger]
            all.contains(name) <==> exists|i: int, path: Seq<int>|
                i < n && is_imported(node, at, i, path, name) by {
            if all.contains(name) {
                if before.contains(name) {
                    let (i, path) = choose|i: int, path: Seq<int>|
                        i < n - 1 && is_imported(node, at, i, path, name);
                    assert(i < n && is_imported(node, at, i, path, name));
                } else {
                    let path = choose|path: Seq<int>| syntax::leads_to(last, path, false, name);
                    assert(n - 1 < n && is_imported(node, at, n - 1, path, name));
                }
            }
            if exists|i: int, path: Seq<int>| i < n && is_imported(node, at, i, path, name) {
                let (i, path) = choose|i: int, path: Seq<int>|
                    i < n && is_imported(node, at, i, path, name);
                if i < n - 1 {
                    assert(i < n - 1 && is_imported(node, at, i, path, name));
                    assert(before.contains(name));
                } else {
                    assert(syntax::leads_to(last, path, false, name));
                }
                assert(all.contains(name));
            }
        }
    }
}

/// A use declaration imports its path, under the names at the end of it.
pub proof fn lemma_use_declaration(path: Seq<char>)
    requires
        path.len() > 0,
        !text::is_white(path[0]),
        !text::is_white(path.last()),
        path.last() != ';',
        !search::starts_with(path, "use "@),
    ensures
        rust_imports("use "@ + path + ";"@) == seq![
            ImportModel { source: path, names: use_names(path), kind: "named"@ },
        ],
        rust_imports("pub use "@ + path + ";"@) == rust_imports("use "@ + path + ";"@),
{
    reveal_with_fuel(names::without_leading, 2);
    reveal_strlit("use ");
    reveal_strlit("pub use ");
    reveal_strlit("pub ");
    reveal_strlit(";");
    let own = "use "@ + path + ";"@;
    let shared = "pub use "@ + path + ";"@;
    assert(own[0] == 'u');
    assert(shared[0] == 'p');
    assert(own.last() == ';');
    assert(shared.last() == ';');
    text::lemma_trimmed_already(own);
    text::lemma_trimmed_already(shared);
    let ended = path + ";"@;
    assert(own.take(4) =~= "use "@);
    assert(own.skip(4) =~= ended);
    assert(shared.take(4) =~= "pub "@);
    assert(shared.skip(4) =~= own);
    assert(own.take(4)[0] == 'u');
    assert("pub "@[0] == 'p');
    assert(!search::starts_with(own, "pub "@));
    assert(names::without_leading(own, "pub "@) == own);
    assert(names::without_leading(shared, "pub "@) == own);
    assert(!search::starts_with(ended, "use "@)) by {
        if search::starts_with(ended, "use "@) {
            assert("use "@[3] == ' ');
            assert(ended.take(4)[3] == ' ');
            assert(ended[3] == ' ');
            if path.len() >= 4 {
                assert(path.take(4) =~= ended.take(4));
            } else if path.len() == 3 {
                assert(ended[3] == ';');
            }
        }
    }
    assert(names::without_leading(own, "use "@) == ended);
    let f = text::among(";"@);
    assert(ended.last() == ';');
    assert(";"@.contains(';')) by {
        assert(";"@[0] == ';');
    }
    assert(ended.drop_last() =~= path);
    assert(!";"@.contains(path.last()));
    assert(text::trim_end_by(path, f) == path);
    assert(text::trim_end_by(ended, f) == path);
    text::lemma_trimmed_already(path);
}

/// A path is known under its last part alone: what stands before a separator does not count.
pub proof fn lemma_use_names_of_last(first: Seq<char>, rest: Seq<char>)
    requires
        !first.contains(':'),
    ensures
        use_names(first + "::"@ + rest) == use_names(rest),
{
    names::lemma_last_piece(first, rest);
}

/// A name without separators is the one that is imported.
pub proof fn lemma_use_names_of_one(name: Seq<char>)
    requires
        is_use_name(name),
    ensures
        use_names(name) == seq![name],
{
    reveal_strlit("{}");
    lemma_comma();
    let braces = text::among("{}"@);
    assert(!name.contains(':'));
    names::lemma_whole_piece(name);
    assert(!braces(name[0])) by {
        assert(name[0] != '{' && name[0] != '}');
    }
    assert(!braces(name.last())) by {
        assert(name[name.len() - 1] != '{' && name[name.len() - 1] != '}');
    }
    assert(text::trim_by(name, braces) == name);
    assert forall|j: int| 0 <= j < name.len() implies !comma()(name[j]) by {
        assert(name[j] != ',');
    }
    search::lemma_position(name, comma());
    assert(search::split_by(name, comma()) == seq![name]);
    assert(!text::is_white(name[0]));
    assert(!text::is_white(name[name.len() - 1]));
    text::lemma_trimmed_already(name);
    assert(use_names(name) =~= seq![name]);
}

/// Names in braces are all imported, in order.
pub proof fn lemma_use_names_of_list(names: Seq<Seq<char>>)
    requires
        names.len() > 0,
        forall|i: int| 0 <= i < names.len() ==> is_use_name(#[trigger] names[i]),
    ensures
        use_names(seq!['{'] + compose::join(names, ","@) + seq!['}']) == names,
{
    reveal_strlit("{}");
    lemma_comma();
    let list = compose::join(names, ","@);
    let s = seq!['{'] + list + seq!['}'];
    let braces = text::among("{}"@);
    assert("{}"@[0] == '{' && "{}"@[1] == '}');
    assert(braces('{') && braces('}'));
    lemma_use_list(names);
    assert forall|c: char| #[trigger] braces(c) implies c == '{' || c == '}' by {
        let i = choose|i: int| 0 <= i < "{}"@.len() && "{}"@[i] == c;
        assert(i == 0 || i == 1);
    }
    assert(!s.contains(':')) by {
        if s.contains(':') {
            let i = choose|i: int| 0 <= i < s.len() && s[i] == ':';
            assert(list[i - 1] == ':');
            assert(list.contains(':'));
        }
    }
    names::lemma_whole_piece(s);
    assert(s.drop_first() =~= list + seq!['}']);
    assert((list + seq!['}'])[0] == list[0]);
    assert(!braces(list[0]) && !braces(list.last()));
    assert(text::trim_start_by(list + seq!['}'], braces) == list + seq!['}']);
    assert(text::trim_start_by(s, braces) == list + seq!['}']);
    assert((list + seq!['}']).drop_last() =~= list);
    assert(text::trim_end_by(list, braces) == list);
    assert(text::trim_end_by(list + seq!['}'], braces) == list);
    assert(text::trim_by(s, braces) == list);
    assert forall|i: int, j: int|
        0 <= i < names.len() && 0 <= j < names[i].len() implies !comma()(
        #[trigger] names[i][j],
    ) by {
        assert(is_use_name(names[i]));
    }
    search::lemma_split_of_join(names, ',', comma());
    assert forall|i: int| 0 <= i < names.len() implies text::trimmed(#[trigger] names[i])
        == names[i] by {
        let name = names[i];
        assert(is_use_name(name));
        assert(!text::is_white(name[0]));
        assert(!text::is_white(name[name.len() - 1]));
        text::lemma_trimmed_already(name);
    }
    assert(use_names(s) =~= names);
}

/// A name that stands for itself in a use declaration.
pub open spec fn is_use_name(name: Seq<char>) -> bool {
    &&& name.len() > 0
    &&& forall|i: int|
        0 <= i < name.len() ==> (#[trigger] name[i]) != ':' && name[i] != ',' && name[i] != '{'
            && name[i] != '}' && !text::is_white(name[i])
}

proof fn lemma_use_list(names: Seq<Seq<char>>)
    requires
        names.len() > 0,
        forall|i: int| 0 <= i < names.len() ==> is_use_name(#[trigger] names[i]),
    ensures
        ({
            let list = compose::join(names, ","@);
            &&& list.len() > 0
            &&& list[0] != '{' && list[0] != '}'
            &&& list.last() != '{' && list.last() != '}'
            &&& !list.contains(':')
        }),
    decreases names.len(),
{
    lemma_comma();
    let list = compose::join(names, ","@);
    let last = names.last();
    assert(is_use_name(names[0]));
    assert(is_use_name(names[names.len() - 1]));
    assert(last[last.len() - 1] != '{');
    if names.len() == 1 {
        assert(names[0][0] != '{');
        if list.contains(':') {
            let i = choose|i: int| 0 <= i < list.len() && list[i] == ':';
            assert(names[0][i] != ':');
        }
    } else {
        let rest = names.drop_last();
        assert forall|i: int| 0 <= i < rest.len() implies is_use_name(#[trigger] rest[i]) by {
            assert(rest[i] == names[i]);
        }
        lemma_use_list(rest);
        let head = compose::join(rest, ","@);
        assert(list[0] == head[0]);
        if list.contains(':') {
            let i = choose|i: int| 0 <= i < list.len() && list[i] == ':';
            if i < head.len() {
                assert(head[i] == ':');
                assert(head.contains(':'));
            } else if i > head.len() {
                assert(list[i] == last[i - head.len() - 1]);
                assert(last[i - head.len() - 1] != ':');
            }
        }
    }
}

} // verus!
