//! Syntax trees, and what can be read off them in any language.
use crate::text;
use crate::text::{is_listed, same, trim};
use crate::utils::posix;
use crate::utils::posix::path_extension;
use vstd::prelude::*;

verus! {

// ---------------------------------------------------------------------------
// Languages
// ---------------------------------------------------------------------------
/// The languages whose sources can be parsed.
#[derive(Debug, Clone, Copy, PartialEq, Eq, Structural)]
pub enum SourceLanguage {
    JavaScript,
    TypeScript,
    Tsx,
    Python,
    Go,
    Rust,
}

pub const SUPPORTED_LABELS: &'static str = "JavaScript, TypeScript, TSX, Python, Go, and Rust";

/// The language of a source file, by the extension of its name.
pub open spec fn language_of(path: Seq<char>) -> Option<SourceLanguage> {
    match posix::extension(path) {
        None => None,
        Some(extension) => if extension == "js"@ || extension == "mjs"@ || extension == "cjs"@
            || extension == "jsx"@ {
            Some(SourceLanguage::JavaScript)
        } else if extension == "ts"@ {
            Some(SourceLanguage::TypeScript)
        } else if extension == "tsx"@ {
            Some(SourceLanguage::Tsx)
        } else if extension == "py"@ {
            Some(SourceLanguage::Python)
        } else if extension == "go"@ {
            Some(SourceLanguage::Go)
        } else if extension == "rs"@ {
            Some(SourceLanguage::Rust)
        } else {
            None
        },
    }
}

impl SourceLanguage {
    pub open spec fn label(self) -> Seq<char> {
        match self {
            SourceLanguage::JavaScript => "javascript"@,
            SourceLanguage::TypeScript => "typescript"@,
            SourceLanguage::Tsx => "tsx"@,
            SourceLanguage::Python => "python"@,
            SourceLanguage::Go => "go"@,
            SourceLanguage::Rust => "rust"@,
        }
    }

    /// JavaScript or one of its dialects.
    pub open spec fn is_script(self) -> bool {
        self == SourceLanguage::JavaScript || self == SourceLanguage::TypeScript || self
            == SourceLanguage::Tsx
    }

    pub fn from_path(path: &str) -> (res: Option<Self>)
        ensures
            res == language_of(path@),
    {
        let extension = match path_extension(path) {
            Some(extension) => extension,
            None => {
                return None;
            },
        };
        let name = extension.as_str();
        if same(name, "js") || same(name, "mjs") || same(name, "cjs") || same(name, "jsx") {
            Some(SourceLanguage::JavaScript)
        } else if same(name, "ts") {
            Some(SourceLanguage::TypeScript)
        } else if same(name, "tsx") {
            Some(SourceLanguage::Tsx)
        } else if same(name, "py") {
            Some(SourceLanguage::Python)
        } else if same(name, "go") {
            Some(SourceLanguage::Go)
        } else if same(name, "rs") {
            Some(SourceLanguage::Rust)
        } else {
            None
        }
    }

    pub fn as_str(self) -> (res: &'static str)
        ensures
            res@ == self.label(),
    {
        match self {
            SourceLanguage::JavaScript => "javascript",
            SourceLanguage::TypeScript => "typescript",
            SourceLanguage::Tsx => "tsx",
            SourceLanguage::Python => "python",
            SourceLanguage::Go => "go",
            SourceLanguage::Rust => "rust",
        }
    }

    pub fn is_scripting(self) -> (res: bool)
        ensures
            res == self.is_script(),
    {
        match self {
            SourceLanguage::JavaScript | SourceLanguage::TypeScript | SourceLanguage::Tsx => true,
            _ => false,
        }
    }

    pub fn supported_labels() -> (res: &'static str)
        ensures
            res@ == SUPPORTED_LABELS@,
    {
        SUPPORTED_LABELS
    }
}

// ---------------------------------------------------------------------------
// Trees
// ---------------------------------------------------------------------------
/// A node of a syntax tree: its kind, its source text, the field of its parent that it fills,
/// whether the grammar gives it a name, and its children.
#[derive(Debug)]
pub struct SyntaxNode {
    pub kind: String,
    pub text: Option<String>,
    pub field: Option<String>,
    pub named: bool,
    pub children: Vec<SyntaxNode>,
}

#[verifier::ext_equal]
pub struct Tree {
    pub kind: Seq<char>,
    pub text: Option<Seq<char>>,
    pub field: Option<Seq<char>>,
    pub named: bool,
    pub children: Seq<Tree>,
}

pub open spec fn tree_model(node: SyntaxNode) -> Tree
    decreases node,
{
    Tree {
        kind: node.kind@,
        text: node.text.deep_view(),
        field: node.field.deep_view(),
        named: node.named,
        children: Seq::new(
            node.children@.len(),
            |i: int|
                if 0 <= i < node.children@.len() {
                    tree_model(node.children@[i])
                } else {
                    arbitrary()
                },
        ),
    }
}

impl View for SyntaxNode {
    type V = Tree;

    open spec fn view(&self) -> Tree {
        tree_model(*self)
    }
}

/// The model of a node holds the models of its children.
pub proof fn lemma_children(node: SyntaxNode)
    ensures
        node@.children.len() == node.children@.len(),
        forall|i: int|
            0 <= i < node.children@.len() ==> #[trigger] node@.children[i] == node.children@[i]@,
{
}

/// Why a source could not be parsed: its grammar could not be loaded, or there was no tree.
#[derive(Debug)]
pub enum SyntaxProblem {
    Grammar(String),
    NoTree,
}

#[verifier::ext_equal]
pub enum ProblemModel {
    Grammar(Seq<char>),
    NoTree,
}

impl View for SyntaxProblem {
    type V = ProblemModel;

    open spec fn view(&self) -> ProblemModel {
        match *self {
            SyntaxProblem::Grammar(error) => ProblemModel::Grammar(error@),
            SyntaxProblem::NoTree => ProblemModel::NoTree,
        }
    }
}

/// A node of a tree that `tree_sitter` has built.
#[verifier::external_type_specification]
#[verifier::external_body]
pub struct ExTreeSitterNode<'tree>(tree_sitter::Node<'tree>);

/// Takes a `tree_sitter` node apart, with the nodes below it: its kind, the source text that it
/// spans, the field under which a cursor finds it, whether it is named, and its children in
/// order.
#[verifier::external_body]
fn from_tree_sitter(node: tree_sitter::Node<'_>, field: Option<&str>, source: &str) -> SyntaxNode {
    let mut children: Vec<SyntaxNode> = Vec::new();
    let mut cursor = node.walk();
    let mut more: bool = cursor.goto_first_child();
    while more {
        children.push(from_tree_sitter(cursor.node(), cursor.field_name(), source));
        more = cursor.goto_next_sibling();
    }
    SyntaxNode {
        kind: node.kind().to_owned(),
        text: source.get(node.byte_range()).map(str::to_owned),
        field: field.map(str::to_owned),
        named: node.is_named(),
        children,
    }
}

/// The tree that `tree_sitter` builds for the source with the grammar of the language.
pub uninterp spec fn parsed_source(source: Seq<char>, language: SourceLanguage) -> Result<
    Tree,
    ProblemModel,
>;

/// `tree_sitter::Parser::parse` with the grammar that the crate of the language provides. The
/// tree depends on the source and the language alone and has a name; nothing more is claimed
/// of it.
#[verifier::external_body]
pub(crate) fn parse_source(source: &str, language: SourceLanguage) -> (res: Result<
    SyntaxNode,
    SyntaxProblem,
>)
    ensures
        parsed_source(source@, language) == match res {
            Ok(node) => Ok::<Tree, ProblemModel>(node@),
            Err(problem) => Err::<Tree, ProblemModel>(problem@),
        },
{
    let grammar: tree_sitter::Language = match language {
        SourceLanguage::JavaScript => tree_sitter_javascript::LANGUAGE.into(),
        SourceLanguage::TypeScript => tree_sitter_typescript::LANGUAGE_TYPESCRIPT.into(),
        SourceLanguage::Tsx => tree_sitter_typescript::LANGUAGE_TSX.into(),
        SourceLanguage::Python => tree_sitter_python::LANGUAGE.into(),
        SourceLanguage::Go => tree_sitter_go::LANGUAGE.into(),
        SourceLanguage::Rust => tree_sitter_rust::LANGUAGE.into(),
    };
    let mut parser = tree_sitter::Parser::new();
    parser.set_language(&grammar).map_err(|e| SyntaxProblem::Grammar(e.to_string()))?;
    let tree = parser.parse(source, None).ok_or(SyntaxProblem::NoTree)?;
    Ok(from_tree_sitter(tree.root_node(), None, source))
}

// ---------------------------------------------------------------------------
// Children
// ---------------------------------------------------------------------------
/// The position of the first child that fills the field, or the number of children.
pub open spec fn field_index(children: Seq<Tree>, field: Seq<char>) -> int
    decreases children.len(),
{
    if children.len() == 0 {
        0
    } else if children[0].field == Some(field) {
        0
    } else {
        1 + field_index(children.drop_first(), field)
    }
}

/// The child that fills the field.
pub open spec fn child_by_field(node: Tree, field: Seq<char>) -> Option<Tree> {
    let i = field_index(node.children, field);
    if 0 <= i < node.children.len() {
        Some(node.children[i])
    } else {
        None
    }
}

/// The text of the child that fills the field.
pub open spec fn field_text(node: Tree, field: Seq<char>) -> Option<Seq<char>> {
    match child_by_field(node, field) {
        Some(child) => child.text,
        None => None,
    }
}

proof fn lemma_field_index(children: Seq<Tree>, field: Seq<char>, i: int)
    requires
        0 <= i <= children.len(),
        forall|j: int| 0 <= j < i ==> (#[trigger] children[j]).field != Some(field),
        i < children.len() ==> children[i].field == Some(field),
    ensures
        field_index(children, field) == i,
    decreases children.len(),
{
    if i > 0 {
        let rest = children.drop_first();
        assert(children[0].field != Some(field));
        assert forall|j: int| 0 <= j < i - 1 implies (#[trigger] rest[j]).field != Some(field) by {
            assert(rest[j] == children[j + 1]);
        }
        assert(i < children.len() ==> rest[i - 1] == children[i]);
        lemma_field_index(rest, field, i - 1);
    }
}

/// A field is looked up by its own name: the first child that fills it is found, whatever the other
/// children are.
pub proof fn lemma_child_by_field(node: Tree, field: Seq<char>, i: int)
    requires
        0 <= i < node.children.len(),
        node.children[i].field == Some(field),
        forall|j: int| 0 <= j < i ==> (#[trigger] node.children[j]).field != Some(field),
    ensures
        child_by_field(node, field) == Some(node.children[i]),
        field_text(node, field) == node.children[i].text,
{
    lemma_field_index(node.children, field, i);
}

/// The position of a field is that of the first child that fills it.
pub proof fn lemma_field_at(node: Tree, field: Seq<char>, i: int)
    requires
        0 <= i < node.children.len(),
        node.children[i].field == Some(field),
        forall|j: int| 0 <= j < i ==> (#[trigger] node.children[j]).field != Some(field),
    ensures
        field_index(node.children, field) == i,
{
    lemma_field_index(node.children, field, i);
}

/// A field that no child fills is not found.
pub proof fn lemma_no_child_by_field(node: Tree, field: Seq<char>)
    requires
        forall|j: int|
            0 <= j < node.children.len() ==> (#[trigger] node.children[j]).field != Some(field),
    ensures
        child_by_field(node, field) is None,
        field_text(node, field) is None,
{
    lemma_field_index(node.children, field, node.children.len() as int);
}

pub fn find_field(node: &SyntaxNode, field: &str) -> (res: usize)
    ensures
        res == field_index(node@.children, field@),
        res <= node.children@.len(),
{
    let ghost all = node@.children;
    let mut i: usize = 0;
    while i < node.children.len()
        invariant
            i <= node.children.len(),
            all == node@.children,
            forall|j: int| 0 <= j < i ==> (#[trigger] all[j]).field != Some(field@),
        decreases node.children.len() - i,
    {
        assert(all[i as int] == node.children@[i as int]@);
        if let Some(name) = &node.children[i].field {
            if same(name.as_str(), field) {
                proof {
                    lemma_field_index(all, field@, i as int);
                }
                return i;
            }
        }
        i += 1;
    }
    proof {
        lemma_field_index(all, field@, i as int);
    }
    i
}

pub fn child_by_field_name<'a>(node: &'a SyntaxNode, field: &str) -> (res: Option<&'a SyntaxNode>)
    ensures
        child_by_field(node@, field@) == match res {
            Some(child) => Some(child@),
            None => None,
        },
        res matches Some(child) ==> decreases_to!(*node => *child),
{
    let i: usize = find_field(node, field);
    if i < node.children.len() {
        assert(node@.children[i as int] == node.children@[i as int]@);
        assert(decreases_to!(*node => node.children));
        assert(decreases_to!(node.children => node.children@));
        assert(decreases_to!(node.children@ => node.children@[i as int]));
        Some(&node.children[i])
    } else {
        None
    }
}

/// The source text of the node.
pub fn node_text(node: &SyntaxNode) -> (res: Option<String>)
    ensures
        res.deep_view() == node@.text,
{
    match &node.text {
        Some(text) => Some(text.clone()),
        None => None,
    }
}

pub fn text_by_field_name(node: &SyntaxNode, field: &str) -> (res: Option<String>)
    ensures
        res.deep_view() == field_text(node@, field@),
{
    match child_by_field_name(node, field) {
        Some(child) => node_text(child),
        None => None,
    }
}

/// The text of the first named child of one of the kinds that is not blank.
pub open spec fn kind_text(children: Seq<Tree>, kinds: Seq<Seq<char>>) -> Option<Seq<char>>
    decreases children.len(),
{
    if children.len() == 0 {
        None
    } else {
        match children[0].text {
            Some(text) => if children[0].named && kinds.contains(children[0].kind)
                && !text::is_blank(text) {
                Some(text::trimmed(text))
            } else {
                kind_text(children.drop_first(), kinds)
            },
            None => kind_text(children.drop_first(), kinds),
        }
    }
}

/// The text of the child that fills the field, or else of the first child of one of the kinds.
/// Blank text does not count.
pub open spec fn field_or_kind(node: Tree, field: Seq<char>, kinds: Seq<Seq<char>>) -> Option<
    Seq<char>,
> {
    match field_text(node, field) {
        Some(text) => if text::is_blank(text) {
            kind_text(node.children, kinds)
        } else {
            Some(text::trimmed(text))
        },
        None => kind_text(node.children, kinds),
    }
}

/// The text of a field that is not blank comes before that of any other child.
pub proof fn lemma_field_comes_first(node: Tree, field: Seq<char>, kinds: Seq<Seq<char>>, i: int)
    requires
        0 <= i < node.children.len(),
        node.children[i].field == Some(field),
        forall|j: int| 0 <= j < i ==> (#[trigger] node.children[j]).field != Some(field),
        node.children[i].text is Some,
        !text::is_blank(node.children[i].text->0),
    ensures
        field_or_kind(node, field, kinds) == Some(text::trimmed(node.children[i].text->0)),
{
    lemma_child_by_field(node, field, i);
}

proof fn lemma_kind_text(children: Seq<Tree>, kinds: Seq<Seq<char>>, i: int)
    requires
        0 <= i < children.len(),
        is_fallback(children[i], kinds),
        forall|j: int| 0 <= j < i ==> !is_fallback(#[trigger] children[j], kinds),
    ensures
        kind_text(children, kinds) == Some(text::trimmed(children[i].text->0)),
    decreases children.len(),
{
    if i > 0 {
        let rest = children.drop_first();
        assert(!is_fallback(children[0], kinds));
        assert forall|j: int| 0 <= j < i - 1 implies !is_fallback(#[trigger] rest[j], kinds) by {
            assert(rest[j] == children[j + 1]);
        }
        assert(rest[i - 1] == children[i]);
        lemma_kind_text(rest, kinds, i - 1);
    }
}

/// A child that can stand in for a field: it is named, of one of the kinds, and not blank.
pub open spec fn is_fallback(child: Tree, kinds: Seq<Seq<char>>) -> bool {
    &&& child.named
    &&& kinds.contains(child.kind)
    &&& child.text matches Some(written) && !text::is_blank(written)
}

/// Where no child fills the field, the first child that can stand in for it does.
pub proof fn lemma_fallback_stands_in(node: Tree, field: Seq<char>, kinds: Seq<Seq<char>>, i: int)
    requires
        forall|j: int|
            0 <= j < node.children.len() ==> (#[trigger] node.children[j]).field != Some(field),
        0 <= i < node.children.len(),
        is_fallback(node.children[i], kinds),
        forall|j: int| 0 <= j < i ==> !is_fallback(#[trigger] node.children[j], kinds),
    ensures
        field_or_kind(node, field, kinds) == Some(text::trimmed(node.children[i].text->0)),
{
    lemma_no_child_by_field(node, field);
    lemma_kind_text(node.children, kinds, i);
}

pub fn field_or_fallback(node: &SyntaxNode, field_name: &str, fallback_kinds: &[String]) -> (res:
    Option<String>)
    ensures
        res.deep_view() == field_or_kind(node@, field_name@, fallback_kinds.deep_view()),
{
    if let Some(value) = text_by_field_name(node, field_name) {
        let value: String = trim(value.as_str());
        if !value.as_str().is_empty() {
            return Some(value);
        }
    }
    let ghost all = node@.children;
    let ghost kinds = fallback_kinds.deep_view();
    let mut i: usize = 0;
    assert(all.skip(0) == all);
    while i < node.children.len()
        invariant
            i <= node.children.len(),
            all == node@.children,
            kinds == fallback_kinds.deep_view(),
            field_or_kind(node@, field_name@, kinds) == kind_text(all, kinds),
            kind_text(all, kinds) == kind_text(all.skip(i as int), kinds),
        decreases node.children.len() - i,
    {
        let child = &node.children[i];
        proof {
            assert(all.skip(i as int)[0] == child@);
            assert(all.skip(i as int).drop_first() == all.skip(i as int + 1));
        }
        if child.named && is_listed(fallback_kinds, child.kind.as_str()) {
            if let Some(value) = node_text(child) {
                let value: String = trim(value.as_str());
                if !value.as_str().is_empty() {
                    return Some(value);
                }
            }
        }
        i += 1;
    }
    None
}

// ---------------------------------------------------------------------------
// Identifiers
// ---------------------------------------------------------------------------
pub open spec fn is_identifier_kind(kind: Seq<char>) -> bool {
    kind == "identifier"@ || kind == "property_identifier"@ || kind == "type_identifier"@ || kind
        == "field_identifier"@ || kind == "shorthand_property_identifier_pattern"@
}

/// What an identifier node adds to the identifiers that were found: its text, or for a binding
/// its text without white space around it, if that is new.
pub open spec fn with_identifier(
    text: Option<Seq<char>>,
    found: Seq<Seq<char>>,
    is_binding: bool,
) -> Seq<Seq<char>> {
    match text {
        None => found,
        Some(t) => {
            let name = if is_binding {
                text::trimmed(t)
            } else {
                t
            };
            if (is_binding && name.len() == 0) || found.contains(name) {
                found
            } else {
                found.push(name)
            }
        },
    }
}

/// The identifiers that were found, and those at and below the node.
pub open spec fn identifiers(node: Tree, found: Seq<Seq<char>>, is_binding: bool) -> Seq<Seq<char>>
    decreases node,
{
    if is_identifier_kind(node.kind) {
        with_identifier(node.text, found, is_binding)
    } else {
        identifiers_below(node.children, found, is_binding)
    }
}

pub open spec fn identifiers_below(
    children: Seq<Tree>,
    found: Seq<Seq<char>>,
    is_binding: bool,
) -> Seq<Seq<char>>
    decreases children,
{
    if children.len() == 0 {
        found
    } else {
        let before = identifiers_below(children.drop_last(), found, is_binding);
        if children.last().named {
            identifiers(children.last(), before, is_binding)
        } else {
            before
        }
    }
}

/// The node is an identifier that stands for the name. A binding is named without the white space
/// around it, and has to have a name.
pub open spec fn is_named(node: Tree, is_binding: bool, name: Seq<char>) -> bool {
    &&& {
        ||| node.kind == "identifier"@
        ||| node.kind == "property_identifier"@
        ||| node.kind == "type_identifier"@
        ||| node.kind == "field_identifier"@
        ||| node.kind == "shorthand_property_identifier_pattern"@
    }
    &&& node.text matches Some(written) && if is_binding {
        name.len() > 0 && name == text::trimmed(written)
    } else {
        name == written
    }
}

/// The positions lead from the node down, through named children and no identifier, to an
/// identifier that stands for the name.
pub open spec fn leads_to(node: Tree, path: Seq<int>, is_binding: bool, name: Seq<char>) -> bool
    decreases path.len(),
{
    if path.len() == 0 {
        is_named(node, is_binding, name)
    } else {
        &&& !is_identifier_kind(node.kind)
        &&& 0 <= path[0] < node.children.len()
        &&& node.children[path[0]].named
        &&& leads_to(node.children[path[0]], path.drop_first(), is_binding, name)
    }
}

/// The names that are found below a node are those of the identifiers there, and no others; none
/// is found twice.
pub proof fn lemma_identifiers(node: Tree, found: Seq<Seq<char>>, is_binding: bool)
    ensures
        forall|name: Seq<char>| #[trigger]
            identifiers(node, found, is_binding).contains(name) <==> found.contains(name)
                || exists|path: Seq<int>| leads_to(node, path, is_binding, name),
        found.no_duplicates() ==> identifiers(node, found, is_binding).no_duplicates(),
        found.len() <= identifiers(node, found, is_binding).len(),
        identifiers(node, found, is_binding).take(found.len() as int) == found,
    decreases node,
{
    let all = identifiers(node, found, is_binding);
    if is_identifier_kind(node.kind) {
        assert(found.take(found.len() as int) =~= found);
        if all.len() > found.len() {
            assert(all.take(found.len() as int) =~= found);
            assert(all.last() == all[found.len() as int]);
        }
        assert forall|name: Seq<char>| #[trigger] all.contains(name) <==> found.contains(name)
            || exists|path: Seq<int>| leads_to(node, path, is_binding, name) by {
            if all.contains(name) && !found.contains(name) {
                let k = choose|k: int| 0 <= k < all.len() && all[k] == name;
                if k < found.len() {
                    assert(found[k] == name);
                }
                assert(leads_to(node, Seq::empty(), is_binding, name));
            }
            if found.contains(name) {
                let k = choose|k: int| 0 <= k < found.len() && found[k] == name;
                assert(all[k] == name);
            }
            if exists|path: Seq<int>| leads_to(node, path, is_binding, name) {
                let path = choose|path: Seq<int>| leads_to(node, path, is_binding, name);
                assert(path.len() == 0);
                if !found.contains(name) {
                    assert(all.last() == name);
                }
            }
        }
    } else {
        lemma_identifiers_below(node.children, found, is_binding);
        assert forall|name: Seq<char>| #[trigger] all.contains(name) <==> found.contains(name)
            || exists|path: Seq<int>| leads_to(node, path, is_binding, name) by {
            assert(identifiers_below(node.children, found, is_binding).contains(name)
                <==> all.contains(name));
            if all.contains(name) && !found.contains(name) {
                let (i, path) = choose|i: int, path: Seq<int>|
                    0 <= i < node.children.len() && node.children[i].named && leads_to(
                        node.children[i],
                        path,
                        is_binding,
                        name,
                    );
                let longer = seq![i] + path;
                assert(longer.drop_first() =~= path);
                assert(leads_to(node, longer, is_binding, name));
            }
            if exists|path: Seq<int>| leads_to(node, path, is_binding, name) {
                let path = choose|path: Seq<int>| leads_to(node, path, is_binding, name);
                assert(path.len() > 0);
                assert(leads_to(
                    node.children[path[0]],
                    path.drop_first(),
                    is_binding,
                    name,
                ));
            }
        }
    }
}

proof fn lemma_identifiers_below(children: Seq<Tree>, found: Seq<Seq<char>>, is_binding: bool)
    ensures
        forall|name: Seq<char>| #[trigger]
            identifiers_below(children, found, is_binding).contains(name) <==> found.contains(name)
                || exists|i: int, path: Seq<int>|
                0 <= i < children.len() && children[i].named && leads_to(
                    children[i],
                    path,
                    is_binding,
                    name,
                ),
        found.no_duplicates() ==> identifiers_below(children, found, is_binding).no_duplicates(),
        found.len() <= identifiers_below(children, found, is_binding).len(),
        identifiers_below(children, found, is_binding).take(found.len() as int) == found,
    decreases children,
{
    let all = identifiers_below(children, found, is_binding);
    if children.len() == 0 {
        assert(found.take(found.len() as int) =~= found);
    } else {
        let rest = children.drop_last();
        let last = children.last();
        let before = identifiers_below(rest, found, is_binding);
        lemma_identifiers_below(rest, found, is_binding);
        if last.named {
            lemma_identifiers(last, before, is_binding);
            assert(all.take(found.len() as int) =~= all.take(before.len() as int).take(
                found.len() as int,
            ));
        }
        assert forall|name: Seq<char>| #[trigger] all.contains(name) <==> found.contains(name)
            || exists|i: int, path: Seq<int>|
            0 <= i < children.len() && children[i].named && leads_to(
                children[i],
                path,
                is_binding,
                name,
            ) by {
            assert(before.contains(name) <==> before.contains(name));
            if last.named {
                assert(identifiers(last, before, is_binding).contains(name) <==> all.contains(
                    name,
                ));
            }
            if all.contains(name) && !found.contains(name) {
                if before.contains(name) {
                    let (i, path) = choose|i: int, path: Seq<int>|
                        0 <= i < rest.len() && rest[i].named && leads_to(
                            rest[i],
                            path,
                            is_binding,
                            name,
                        );
                    assert(children[i] == rest[i]);
                    assert(leads_to(children[i], path, is_binding, name));
                } else {
                    let path = choose|path: Seq<int>| leads_to(last, path, is_binding, name);
                    assert(leads_to(children[children.len() - 1], path, is_binding, name));
                }
            }
            if exists|i: int, path: Seq<int>|
                0 <= i < children.len() && children[i].named && leads_to(
                    children[i],
                    path,
                    is_binding,
                    name,
                ) {
                let (i, path) = choose|i: int, path: Seq<int>|
                    0 <= i < children.len() && children[i].named && leads_to(
                        children[i],
                        path,
                        is_binding,
                        name,
                    );
                if i < rest.len() {
                    assert(leads_to(rest[i], path, is_binding, name));
                    assert(before.contains(name));
                } else {
                    assert(leads_to(last, path, is_binding, name));
                }
            }
        }
    }
}

/// Of a list of identifiers with different names, the names are found in their order.
pub proof fn lemma_identifiers_in_order(node: Tree, names: Seq<Seq<char>>)
    requires
        !is_identifier_kind(node.kind),
        names.no_duplicates(),
        node.children.len() == names.len(),
        forall|i: int|
            0 <= i < names.len() ==> (#[trigger] node.children[i]).named && is_named(
                node.children[i],
                false,
                names[i],
            ),
    ensures
        identifiers(node, Seq::empty(), false) == names,
{
    lemma_list_in_order(node.children, names);
}

proof fn lemma_list_in_order(children: Seq<Tree>, names: Seq<Seq<char>>)
    requires
        names.no_duplicates(),
        children.len() == names.len(),
        forall|i: int|
            0 <= i < names.len() ==> (#[trigger] children[i]).named && is_named(
                children[i],
                false,
                names[i],
            ),
    ensures
        identifiers_below(children, Seq::empty(), false) == names,
    decreases children.len(),
{
    if children.len() == 0 {
        assert(names =~= Seq::empty());
    } else {
        let rest = children.drop_last();
        assert forall|i: int| 0 <= i < names.len() - 1 implies (#[trigger] rest[i]).named
            && is_named(rest[i], false, names.drop_last()[i]) by {
            assert(rest[i] == children[i]);
        }
        lemma_list_in_order(rest, names.drop_last());
        assert(children.last() == children[children.len() - 1]);
        assert(is_named(children.last(), false, names.last()));
        assert(!names.drop_last().contains(names.last()));
        let before = identifiers_below(rest, Seq::empty(), false);
        assert(before == names.drop_last());
        assert(identifiers(children.last(), before, false) == before.push(names.last()));
        assert(names.drop_last().push(names.last()) =~= names);
    }
}

fn is_identifier(kind: &str) -> (res: bool)
    ensures
        res == is_identifier_kind(kind@),
{
    same(kind, "identifier") || same(kind, "property_identifier") || same(kind, "type_identifier")
        || same(kind, "field_identifier") || same(kind, "shorthand_property_identifier_pattern")
}

fn collect_identifiers(node: &SyntaxNode, output: &mut Vec<String>, is_binding: bool)
    ensures
        final(output).deep_view() == identifiers(node@, old(output).deep_view(), is_binding),
    decreases node,
{
    let ghost found = output.deep_view();
    if is_identifier(node.kind.as_str()) {
        if let Some(text) = node_text(node) {
            let name: String = if is_binding {
                trim(text.as_str())
            } else {
                text
            };
            if !(is_binding && name.as_str().is_empty()) && !is_listed(
                output.as_slice(),
                name.as_str(),
            ) {
                output.push(name);
                assert(output.deep_view() =~= found.push(name@));
            }
        }
        return ;
    }
    let ghost all = node@.children;
    let mut i: usize = 0;
    assert(all.take(0) =~= Seq::empty());
    while i < node.children.len()
        invariant
            i <= node.children.len(),
            all == node@.children,
            output.deep_view() == identifiers_below(all.take(i as int), found, is_binding),
        decreases node.children.len() - i,
    {
        proof {
            assert(all.take(i as int + 1).drop_last() == all.take(i as int));
            assert(all.take(i as int + 1).last() == node.children@[i as int]@);
            assert(decreases_to!(*node => node.children));
            assert(decreases_to!(node.children => node.children@));
            assert(decreases_to!(node.children@ => node.children@[i as int]));
        }
        if node.children[i].named {
            collect_identifiers(&node.children[i], output, is_binding);
        }
        i += 1;
    }
    assert(all.take(all.len() as int) == all);
}

/// Adds the identifiers at and below the node that are new.
pub fn collect_identifier_texts(node: &SyntaxNode, output: &mut Vec<String>)
    ensures
        final(output).deep_view() == identifiers(node@, old(output).deep_view(), false),
{
    collect_identifiers(node, output, false);
}

/// Adds the identifiers that the node binds and that are new.
pub fn collect_binding_identifiers(node: &SyntaxNode, output: &mut Vec<String>)
    ensures
        final(output).deep_view() == identifiers(node@, old(output).deep_view(), true),
{
    collect_identifiers(node, output, true);
}

/// The names of the parameters in the node.
pub fn collect_parameter_names(node: &SyntaxNode) -> (res: Vec<String>)
    ensures
        res.deep_view() == identifiers(node@, Seq::empty(), false),
{
    let mut parameters: Vec<String> = Vec::new();
    assert(parameters.deep_view() =~= Seq::empty());
    collect_identifier_texts(node, &mut parameters);
    parameters
}

} // verus!
