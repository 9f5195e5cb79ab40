//! The functions, classes and variables of a source file.
use crate::search;
use crate::search::{has_prefix, has_text, without_suffix};
use crate::skills::graph::{
    ClassDefinition, ClassModel, FunctionModel, FunctionSignature, MethodModel, MethodSignature,
    VariableBinding, VariableModel,
};
use crate::skills::names;
use crate::skills::names::{is_exported_name, is_rust_exported, normalize_type_name};
use crate::skills::syntax;
use crate::skills::syntax::{
    child_by_field_name, collect_binding_identifiers, collect_parameter_names, field_or_fallback,
    node_text, text_by_field_name, SourceLanguage, SyntaxNode, Tree,
};
use crate::text;
use crate::text::{same, trim, trim_matches, trim_start, CharClass};
use vstd::prelude::*;

verus! {

/// The kinds as owned text.
pub fn kind_list(kinds: Vec<&'static str>) -> (res: Vec<String>)
    ensures
        res.deep_view() == Seq::new(kinds@.len(), |i: int| kinds@[i]@),
{
    let ghost wanted = Seq::new(kinds@.len(), |i: int| kinds@[i]@);
    let mut out: Vec<String> = Vec::new();
    let mut i: usize = 0;
    assert(out.deep_view() =~= wanted.take(0));
    while i < kinds.len()
        invariant
            i <= kinds.len(),
            wanted == Seq::new(kinds@.len(), |i: int| kinds@[i]@),
            out.deep_view() == wanted.take(i as int),
        decreases kinds.len() - i,
    {
        let ghost before = out.deep_view();
        out.push(kinds[i].to_owned());
        assert(out.deep_view() =~= before.push(wanted[i as int]));
        assert(wanted.take(i as int + 1) =~= wanted.take(i as int).push(wanted[i as int]));
        i += 1;
    }
    assert(wanted.take(wanted.len() as int) =~= wanted);
    out
}

// ---------------------------------------------------------------------------
// Functions and methods
// ---------------------------------------------------------------------------
/// The parameters that the node declares.
pub open spec fn parameters_of(node: Tree) -> Seq<Seq<char>> {
    match syntax::child_by_field(node, "parameters"@) {
        Some(parameters) => syntax::identifiers(parameters, Seq::empty(), false),
        None => Seq::empty(),
    }
}

pub open spec fn is_async_text(s: Seq<char>) -> bool {
    search::starts_with(text::trimmed_start(s), "async "@)
}

/// The type that the field gives, without white space around it.
pub open spec fn type_text(node: Tree, field: Seq<char>) -> Option<Seq<char>> {
    match syntax::field_text(node, field) {
        Some(t) => Some(text::trimmed(t)),
        None => None,
    }
}

/// The function that the node declares. In JavaScript and Python the caller knows whether it is
/// exported; elsewhere its name or its text says so.
pub open spec fn function_of(node: Tree, language: SourceLanguage, exported: bool) -> Option<
    FunctionModel,
> {
    match (syntax::field_text(node, "name"@), node.text) {
        (Some(name), Some(source)) => Some(
            FunctionModel {
                name,
                parameters: parameters_of(node),
                is_async: is_async_text(source),
                is_generator: language.is_script() && search::contains(source, "function*"@),
                return_type: if language == SourceLanguage::Go {
                    type_text(node, "result"@)
                } else {
                    type_text(node, "return_type"@)
                },
                exported: match language {
                    SourceLanguage::Go => names::is_exported(name),
                    SourceLanguage::Rust => names::is_public_item(source),
                    _ => exported,
                },
            },
        ),
        _ => None,
    }
}

/// The method that the node declares.
pub open spec fn method_of(node: Tree) -> Option<MethodModel> {
    let name = match syntax::field_text(node, "name"@) {
        Some(name) => Some(name),
        None => syntax::field_or_kind(
            node,
            "name"@,
            seq!["identifier"@, "property_identifier"@],
        ),
    };
    match (name, node.text) {
        (Some(name), Some(source)) => Some(
            MethodModel {
                name,
                parameters: parameters_of(node),
                is_async: is_async_text(source),
            },
        ),
        _ => None,
    }
}

/// The child at the position is the first that fills the field.
pub open spec fn fills(node: Tree, field: Seq<char>, i: int) -> bool {
    &&& 0 <= i < node.children.len()
    &&& node.children[i].field == Some(field)
    &&& forall|j: int| 0 <= j < i ==> (#[trigger] node.children[j]).field != Some(field)
}

pub open spec fn fills_nothing(node: Tree, field: Seq<char>) -> bool {
    forall|j: int|
        0 <= j < node.children.len() ==> (#[trigger] node.children[j]).field != Some(field)
}

/// The parameters are the names of the identifiers below the child that holds the parameters, each
/// once; where the identifiers are listed there, they come in their order.
pub open spec fn are_parameters(parameters: Seq<Seq<char>>, list: Tree) -> bool {
    &&& forall|name: Seq<char>| #[trigger]
        parameters.contains(name) <==> exists|path: Seq<int>|
            syntax::leads_to(list, path, false, name)
    &&& parameters.no_duplicates()
    &&& forall|names: Seq<Seq<char>>| #[trigger]
        is_listing(list, names) ==> parameters == names
}

/// The children are identifiers with these names, all different.
pub open spec fn is_listing(list: Tree, names: Seq<Seq<char>>) -> bool {
    &&& !syntax::is_identifier_kind(list.kind)
    &&& names.no_duplicates()
    &&& list.children.len() == names.len()
    &&& forall|i: int|
        0 <= i < names.len() ==> (#[trigger] list.children[i]).named && syntax::is_named(
            list.children[i],
            false,
            names[i],
        )
}

proof fn lemma_parameters(node: Tree, p: int)
    requires
        fills(node, "parameters"@, p),
    ensures
        are_parameters(parameters_of(node), node.children[p]),
{
    let list = node.children[p];
    let none = Seq::<Seq<char>>::empty();
    syntax::lemma_child_by_field(node, "parameters"@, p);
    syntax::lemma_identifiers(list, none, false);
    let parameters = parameters_of(node);
    assert forall|name: Seq<char>| #[trigger]
        parameters.contains(name) <==> exists|path: Seq<int>|
            syntax::leads_to(list, path, false, name) by {
        assert(!none.contains(name));
    }
    assert forall|names: Seq<Seq<char>>| #[trigger] is_listing(list, names) implies parameters
        == names by {
        syntax::lemma_identifiers_in_order(list, names);
    }
}

/// A function has the name that its node gives, all parameters that its node lists and no others,
/// and the result type that its node gives.
pub proof fn lemma_function_parts(
    node: Tree,
    language: SourceLanguage,
    exported: bool,
    n: int,
    p: int,
    r: int,
)
    requires
        node.text is Some,
        fills(node, "name"@, n),
        node.children[n].text is Some,
        fills(node, "parameters"@, p) || p < 0 && fills_nothing(node, "parameters"@),
        fills(node, if language == SourceLanguage::Go {
            "result"@
        } else {
            "return_type"@
        }, r) || r < 0 && fills_nothing(node, if language == SourceLanguage::Go {
            "result"@
        } else {
            "return_type"@
        }),
    ensures
        ({
            let function = function_of(node, language, exported);
            &&& function is Some
            &&& function->0.name == node.children[n].text->0
            &&& p >= 0 ==> are_parameters(function->0.parameters, node.children[p])
            &&& p < 0 ==> function->0.parameters.len() == 0
            &&& r >= 0 && node.children[r].text is Some ==> function->0.return_type == Some(
                text::trimmed(node.children[r].text->0),
            )
            &&& r < 0 ==> function->0.return_type is None
            &&& language.is_script() || language == SourceLanguage::Python
                ==> function->0.exported == exported
        }),
{
    syntax::lemma_child_by_field(node, "name"@, n);
    let field = if language == SourceLanguage::Go {
        "result"@
    } else {
        "return_type"@
    };
    if p >= 0 {
        lemma_parameters(node, p);
    } else {
        syntax::lemma_no_child_by_field(node, "parameters"@);
    }
    if r >= 0 {
        syntax::lemma_child_by_field(node, field, r);
    } else {
        syntax::lemma_no_child_by_field(node, field);
    }
}

/// A function is asynchronous exactly where its text begins with the keyword, after white space.
pub proof fn lemma_async_function(
    node: Tree,
    language: SourceLanguage,
    exported: bool,
    indent: Seq<char>,
    rest: Seq<char>,
)
    requires
        function_of(node, language, exported) is Some,
        node.text == Some(indent + rest),
        forall|i: int| 0 <= i < indent.len() ==> text::is_white(#[trigger] indent[i]),
        rest.len() > 0 && !text::is_white(rest[0]),
    ensures
        function_of(node, language, exported)->0.is_async <==> rest.len() >= 6 && rest.subrange(
            0,
            6,
        ) == seq!['a', 's', 'y', 'n', 'c', ' '],
    decreases indent.len(),
{
    reveal_strlit("async ");
    lemma_indent(indent, rest);
    assert("async "@ =~= seq!['a', 's', 'y', 'n', 'c', ' ']);
    if rest.len() >= 6 {
        assert(rest.subrange(0, 6) =~= rest.take(6));
    }
}

proof fn lemma_indent(indent: Seq<char>, rest: Seq<char>)
    requires
        forall|i: int| 0 <= i < indent.len() ==> text::is_white(#[trigger] indent[i]),
        rest.len() > 0 && !text::is_white(rest[0]),
    ensures
        text::trimmed_start(indent + rest) == rest,
    decreases indent.len(),
{
    let all = indent + rest;
    if indent.len() == 0 {
        assert(all =~= rest);
    } else {
        assert(all[0] == indent[0]);
        let less = indent.drop_first();
        assert forall|i: int| 0 <= i < less.len() implies text::is_white(#[trigger] less[i]) by {
            assert(less[i] == indent[i + 1]);
        }
        assert(all.drop_first() =~= less + rest);
        lemma_indent(less, rest);
    }
}

/// A method has the name that its node gives, and all parameters that its node lists and no
/// others.
pub proof fn lemma_method_parts(node: Tree, n: int, p: int)
    requires
        node.text is Some,
        fills(node, "name"@, n),
        node.children[n].text is Some,
        fills(node, "parameters"@, p) || p < 0 && fills_nothing(node, "parameters"@),
    ensures
        method_of(node) is Some,
        method_of(node)->0.name == node.children[n].text->0,
        p >= 0 ==> are_parameters(method_of(node)->0.parameters, node.children[p]),
        p < 0 ==> method_of(node)->0.parameters.len() == 0,
{
    syntax::lemma_child_by_field(node, "name"@, n);
    if p >= 0 {
        lemma_parameters(node, p);
    } else {
        syntax::lemma_no_child_by_field(node, "parameters"@);
    }
}

fn read_parameters(node: &SyntaxNode) -> (res: Vec<String>)
    ensures
        res.deep_view() == parameters_of(node@),
{
    match child_by_field_name(node, "parameters") {
        Some(parameters) => collect_parameter_names(parameters),
        None => {
            let none: Vec<String> = Vec::new();
            assert(none.deep_view() =~= Seq::empty());
            none
        },
    }
}

fn starts_async(source: &str) -> (res: bool)
    ensures
        res == is_async_text(source@),
{
    has_prefix(trim_start(source).as_str(), "async ")
}

fn read_type(node: &SyntaxNode, field: &str) -> (res: Option<String>)
    ensures
        res.deep_view() == type_text(node@, field@),
{
    match text_by_field_name(node, field) {
        Some(t) => Some(trim(t.as_str())),
        None => None,
    }
}

pub fn extract_function(node: &SyntaxNode, language: SourceLanguage, exported: bool) -> (res:
    Option<FunctionSignature>)
    ensures
        res.deep_view() == function_of(node@, language, exported),
{
    let name = match text_by_field_name(node, "name") {
        Some(name) => name,
        None => {
            return None;
        },
    };
    let source = match node_text(node) {
        Some(source) => source,
        None => {
            return None;
        },
    };
    let return_type: Option<String> = match language {
        SourceLanguage::Go => read_type(node, "result"),
        _ => read_type(node, "return_type"),
    };
    let is_exported: bool = match language {
        SourceLanguage::Go => is_exported_name(name.as_str()),
        SourceLanguage::Rust => is_rust_exported(source.as_str()),
        _ => exported,
    };
    Some(
        FunctionSignature {
            name,
            parameters: read_parameters(node),
            is_async: starts_async(source.as_str()),
            is_generator: language.is_scripting() && has_text(source.as_str(), "function*"),
            return_type,
            exported: is_exported,
        },
    )
}

pub fn extract_method_signature(node: &SyntaxNode) -> (res: Option<MethodSignature>)
    ensures
        res.deep_view() == method_of(node@),
{
    let found: Option<String> = match text_by_field_name(node, "name") {
        Some(name) => Some(name),
        None => {
            let kinds: Vec<String> = kind_list(vec!["identifier", "property_identifier"]);
            assert(kinds.deep_view() =~= seq!["identifier"@, "property_identifier"@]);
            field_or_fallback(node, "name", kinds.as_slice())
        },
    };
    let name = match found {
        Some(name) => name,
        None => {
            return None;
        },
    };
    let source = match node_text(node) {
        Some(source) => source,
        None => {
            return None;
        },
    };
    Some(
        MethodSignature {
            name,
            parameters: read_parameters(node),
            is_async: starts_async(source.as_str()),
        },
    )
}

// ---------------------------------------------------------------------------
// Classes
// ---------------------------------------------------------------------------
/// A child of this kind declares a method of the class that the body belongs to.
pub open spec fn is_method_kind(kind: Seq<char>, language: SourceLanguage) -> bool {
    match language {
        SourceLanguage::Python => kind == "function_definition"@ || kind
            == "async_function_definition"@,
        SourceLanguage::Rust => kind == "function_item"@,
        SourceLanguage::Go => false,
        _ => kind == "method_definition"@ || kind == "method_signature"@,
    }
}

/// The methods among the children, and in Python those behind decorators.
pub open spec fn methods_among(children: Seq<Tree>, language: SourceLanguage) -> Seq<MethodModel>
    decreases children,
{
    if children.len() == 0 {
        Seq::empty()
    } else {
        let before = methods_among(children.drop_last(), language);
        let last = children.last();
        if !last.named {
            before
        } else if is_method_kind(last.kind, language) {
            match method_of(last) {
                Some(method) => before.push(method),
                None => before,
            }
        } else if language == SourceLanguage::Python && last.kind == "decorated_definition"@ {
            before + methods_among(last.children, language)
        } else {
            before
        }
    }
}

/// The base class of a class.
pub open spec fn base_of(node: Tree, language: SourceLanguage) -> Option<Seq<char>> {
    if language.is_script() {
        syntax::field_text(node, "superclass"@)
    } else if language == SourceLanguage::Python {
        match syntax::field_text(node, "superclasses"@) {
            Some(list) => {
                let bare = text::trimmed(text::trim_by(list, text::among("()"@)));
                if bare.len() == 0 {
                    None
                } else {
                    Some(bare)
                }
            },
            None => None,
        }
    } else {
        None
    }
}

/// The methods that stand with the declaration of a class.
pub open spec fn class_methods(node: Tree, language: SourceLanguage) -> Seq<MethodModel> {
    if language == SourceLanguage::Rust {
        methods_among(node.children, language)
    } else if language == SourceLanguage::Go {
        Seq::empty()
    } else {
        match syntax::child_by_field(node, "body"@) {
            Some(body) => methods_among(body.children, language),
            None => Seq::empty(),
        }
    }
}

/// The class that the node declares.
pub open spec fn class_of(node: Tree, language: SourceLanguage, exported: bool) -> Option<
    ClassModel,
> {
    match syntax::field_text(node, "name"@) {
        None => None,
        Some(name) => Some(
            ClassModel {
                name,
                extends: base_of(node, language),
                methods: class_methods(node, language),
                exported: match language {
                    SourceLanguage::Go => names::is_exported(name),
                    SourceLanguage::Rust => node.text matches Some(source)
                        && names::is_public_item(source),
                    _ => exported,
                },
            },
        ),
    }
}

fn declares_method(kind: &str, language: SourceLanguage) -> (res: bool)
    ensures
        res == is_method_kind(kind@, language),
{
    match language {
        SourceLanguage::Python => same(kind, "function_definition") || same(
            kind,
            "async_function_definition",
        ),
        SourceLanguage::Rust => same(kind, "function_item"),
        SourceLanguage::Go => false,
        _ => same(kind, "method_definition") || same(kind, "method_signature"),
    }
}

pub fn extract_methods(node: &SyntaxNode, language: SourceLanguage) -> (res: Vec<MethodSignature>)
    ensures
        res.deep_view() == methods_among(node@.children, language),
    decreases node,
{
    let ghost all = node@.children;
    let mut methods: Vec<MethodSignature> = Vec::new();
    let mut i: usize = 0;
    assert(all.take(0) =~= Seq::empty());
    assert(methods.deep_view() =~= Seq::empty());
    while i < node.children.len()
        invariant
            i <= node.children.len(),
            all == node@.children,
            methods.deep_view() == methods_among(all.take(i as int), language),
        decreases node.children.len() - i,
    {
        let child = &node.children[i];
        proof {
            assert(all.take(i as int + 1).drop_last() == all.take(i as int));
            assert(all.take(i as int + 1).last() == child@);
            assert(decreases_to!(*node => node.children));
            assert(decreases_to!(node.children => node.children@));
            assert(decreases_to!(node.children@ => node.children@[i as int]));
        }
        let ghost before = methods.deep_view();
        if child.named {
            if declares_method(child.kind.as_str(), language) {
                if let Some(method) = extract_method_signature(child) {
                    methods.push(method);
                    assert(methods.deep_view() =~= before.push(method.deep_view()));
                }
            } else if language == SourceLanguage::Python && same(
                child.kind.as_str(),
                "decorated_definition",
            ) {
                let mut more: Vec<MethodSignature> = extract_methods(child, language);
                let ghost added = more.deep_view();
                methods.append(&mut more);
                assert(methods.deep_view() =~= before + added);
            }
        }
        i += 1;
    }
    assert(all.take(all.len() as int) == all);
    methods
}

fn read_base(node: &SyntaxNode, language: SourceLanguage) -> (res: Option<String>)
    ensures
        res.deep_view() == base_of(node@, language),
{
    if language.is_scripting() {
        return text_by_field_name(node, "superclass");
    }
    if language == SourceLanguage::Python {
        if let Some(list) = text_by_field_name(node, "superclasses") {
            let bare = trim(trim_matches(list.as_str(), CharClass::Among("()")).as_str());
            if !bare.as_str().is_empty() {
                return Some(bare);
            }
        }
    }
    None
}

pub fn extract_class(node: &SyntaxNode, language: SourceLanguage, exported: bool) -> (res: Option<
    ClassDefinition,
>)
    ensures
        res.deep_view() == class_of(node@, language, exported),
{
    let name = match text_by_field_name(node, "name") {
        Some(name) => name,
        None => {
            return None;
        },
    };
    let none: Vec<MethodSignature> = Vec::new();
    assert(none.deep_view() =~= Seq::empty());
    let methods: Vec<MethodSignature> = match language {
        SourceLanguage::Rust => extract_methods(node, language),
        SourceLanguage::Go => none,
        _ => match child_by_field_name(node, "body") {
            Some(body) => extract_methods(body, language),
            None => none,
        },
    };
    let is_exported: bool = match language {
        SourceLanguage::Go => is_exported_name(name.as_str()),
        SourceLanguage::Rust => match &node.text {
            Some(source) => is_rust_exported(source.as_str()),
            None => false,
        },
        _ => exported,
    };
    Some(
        ClassDefinition {
            name,
            extends: read_base(node, language),
            methods,
            exported: is_exported,
        },
    )
}

/// The kinds of nodes that name a type.
pub open spec fn receiver_kinds() -> Seq<Seq<char>> {
    seq![
        "type_identifier"@,
        "qualified_type"@,
        "generic_type"@,
        "pointer_type"@,
        "scoped_type_identifier"@,
        "identifier"@,
    ]
}

/// The name in the text, if there is one.
pub open spec fn named_in(value: Option<Seq<char>>) -> Option<Seq<char>> {
    match value {
        Some(t) => names::named_type(t),
        None => None,
    }
}

/// The name of the type that the node names.
pub open spec fn receiver_of(node: Tree) -> Option<Seq<char>> {
    match syntax::field_or_kind(node, "type"@, receiver_kinds()) {
        Some(t) => names::named_type(t),
        None => named_in(node.text),
    }
}

pub fn extract_receiver_type_name(node: &SyntaxNode) -> (res: Option<String>)
    ensures
        res.deep_view() == receiver_of(node@),
{
    let kinds: Vec<String> = kind_list(
        vec![
            "type_identifier",
            "qualified_type",
            "generic_type",
            "pointer_type",
            "scoped_type_identifier",
            "identifier",
        ],
    );
    assert(kinds.deep_view() =~= receiver_kinds());
    match field_or_fallback(node, "type", kinds.as_slice()) {
        Some(t) => normalize_type_name(t.as_str()),
        None => match &node.text {
            Some(t) => normalize_type_name(t.as_str()),
            None => None,
        },
    }
}

/// The class that a Go method makes known: its receiver, with the method.
pub open spec fn go_method_class(node: Tree) -> Option<ClassModel> {
    match syntax::child_by_field(node, "receiver"@) {
        None => None,
        Some(receiver) => match (receiver_of(receiver), method_of(node)) {
            (Some(name), Some(method)) => Some(
                ClassModel { name, extends: None, methods: seq![method], exported: false },
            ),
            _ => None,
        },
    }
}

pub fn extract_go_method(node: &SyntaxNode) -> (res: Option<ClassDefinition>)
    ensures
        res.deep_view() == go_method_class(node@),
{
    let receiver = match child_by_field_name(node, "receiver") {
        Some(receiver) => receiver,
        None => {
            return None;
        },
    };
    match (extract_receiver_type_name(receiver), extract_method_signature(node)) {
        (Some(name), Some(method)) => {
            let mut methods: Vec<MethodSignature> = Vec::new();
            methods.push(method);
            assert(methods.deep_view() =~= seq![method.deep_view()]);
            Some(ClassDefinition { name, extends: None, methods, exported: false })
        },
        _ => None,
    }
}

/// The struct or interface that a type specification declares.
pub open spec fn go_type(node: Tree) -> Option<ClassModel> {
    match (syntax::field_text(node, "name"@), syntax::child_by_field(node, "type"@)) {
        (Some(name), Some(body)) => if body.kind == "struct_type"@ || body.kind
            == "interface_type"@ {
            Some(
                ClassModel {
                    name,
                    extends: None,
                    methods: Seq::empty(),
                    exported: names::is_exported(name),
                },
            )
        } else {
            None
        },
        _ => None,
    }
}

/// The structs and interfaces among the children of a type declaration.
pub open spec fn go_types(children: Seq<Tree>) -> Seq<ClassModel>
    decreases children.len(),
{
    if children.len() == 0 {
        Seq::empty()
    } else {
        let before = go_types(children.drop_last());
        let last = children.last();
        if last.named && last.kind == "type_spec"@ {
            match go_type(last) {
                Some(class) => before.push(class),
                None => before,
            }
        } else {
            before
        }
    }
}

fn read_go_type(node: &SyntaxNode) -> (res: Option<ClassDefinition>)
    ensures
        res.deep_view() == go_type(node@),
{
    match (text_by_field_name(node, "name"), child_by_field_name(node, "type")) {
        (Some(name), Some(body)) => {
            if same(body.kind.as_str(), "struct_type") || same(
                body.kind.as_str(),
                "interface_type",
            ) {
                let methods: Vec<MethodSignature> = Vec::new();
                assert(methods.deep_view() =~= Seq::empty());
                let exported: bool = is_exported_name(name.as_str());
                Some(ClassDefinition { name, extends: None, methods, exported })
            } else {
                None
            }
        },
        _ => None,
    }
}

pub fn extract_go_types(node: &SyntaxNode) -> (res: Vec<ClassDefinition>)
    ensures
        res.deep_view() == go_types(node@.children),
{
    let ghost all = node@.children;
    let mut classes: Vec<ClassDefinition> = Vec::new();
    let mut i: usize = 0;
    assert(all.take(0) =~= Seq::empty());
    assert(classes.deep_view() =~= Seq::empty());
    while i < node.children.len()
        invariant
            i <= node.children.len(),
            all == node@.children,
            classes.deep_view() == go_types(all.take(i as int)),
        decreases node.children.len() - i,
    {
        let child = &node.children[i];
        proof {
            assert(all.take(i as int + 1).drop_last() == all.take(i as int));
            assert(all.take(i as int + 1).last() == child@);
        }
        if child.named && same(child.kind.as_str(), "type_spec") {
            if let Some(class) = read_go_type(child) {
                let ghost before = classes.deep_view();
                classes.push(class);
                assert(classes.deep_view() =~= before.push(class.deep_view()));
            }
        }
        i += 1;
    }
    assert(all.take(all.len() as int) == all);
    classes
}

/// The type that an impl block is for.
pub open spec fn impl_target(node: Tree) -> Option<Seq<char>> {
    let direct = match syntax::child_by_field(node, "type"@) {
        Some(child) => receiver_of(child),
        None => None,
    };
    match direct {
        Some(name) => Some(name),
        None => named_in(
            syntax::field_or_kind(
                node,
                "type"@,
                seq!["type_identifier"@, "scoped_type_identifier"@, "generic_type"@],
            ),
        ),
    }
}

/// The class that an impl block makes known.
pub open spec fn impl_class(node: Tree) -> Option<ClassModel> {
    match impl_target(node) {
        None => None,
        Some(name) => Some(
            ClassModel {
                name,
                extends: None,
                methods: methods_among(node.children, SourceLanguage::Rust),
                exported: false,
            },
        ),
    }
}

fn read_impl_target(node: &SyntaxNode) -> (res: Option<String>)
    ensures
        res.deep_view() == impl_target(node@),
{
    if let Some(child) = child_by_field_name(node, "type") {
        if let Some(name) = extract_receiver_type_name(child) {
            return Some(name);
        }
    }
    let kinds: Vec<String> = kind_list(
        vec!["type_identifier", "scoped_type_identifier", "generic_type"],
    );
    assert(kinds.deep_view() =~= seq![
        "type_identifier"@,
        "scoped_type_identifier"@,
        "generic_type"@,
    ]);
    match field_or_fallback(node, "type", kinds.as_slice()) {
        Some(t) => normalize_type_name(t.as_str()),
        None => None,
    }
}

pub fn extract_rust_impl(node: &SyntaxNode) -> (res: Option<ClassDefinition>)
    ensures
        res.deep_view() == impl_class(node@),
{
    match read_impl_target(node) {
        Some(name) => Some(
            ClassDefinition {
                name,
                extends: None,
                methods: extract_methods(node, SourceLanguage::Rust),
                exported: false,
            },
        ),
        None => None,
    }
}

// ---------------------------------------------------------------------------
// Variables
// ---------------------------------------------------------------------------
/// The names that the node binds.
pub open spec fn bound_names(node: Option<Tree>) -> Seq<Seq<char>> {
    match node {
        Some(n) => syntax::identifiers(n, Seq::empty(), true),
        None => Seq::empty(),
    }
}

pub open spec fn kind_of(node: Option<Tree>) -> Option<Seq<char>> {
    match node {
        Some(n) => Some(n.kind),
        None => None,
    }
}

/// One variable for each name.
pub open spec fn bindings(
    found: Seq<Seq<char>>,
    declaration_kind: Seq<char>,
    value_kind: Option<Seq<char>>,
    exported: bool,
) -> Seq<VariableModel> {
    found.map_values(
        |name: Seq<char>| VariableModel { name, declaration_kind, value_kind, exported },
    )
}

/// One variable for each name, exported where the name says so.
pub open spec fn go_bindings(
    found: Seq<Seq<char>>,
    declaration_kind: Seq<char>,
    value_kind: Option<Seq<char>>,
) -> Seq<VariableModel> {
    found.map_values(
        |name: Seq<char>|
            VariableModel {
                name,
                declaration_kind,
                value_kind,
                exported: names::is_exported(name),
            },
    )
}

fn read_names(node: Option<&SyntaxNode>) -> (res: Vec<String>)
    ensures
        res.deep_view() == bound_names(
            match node {
                Some(n) => Some(n@),
                None => None,
            },
        ),
{
    let mut found: Vec<String> = Vec::new();
    assert(found.deep_view() =~= Seq::empty());
    if let Some(n) = node {
        collect_binding_identifiers(n, &mut found);
    }
    found
}

fn read_kind(node: Option<&SyntaxNode>) -> (res: Option<String>)
    ensures
        res.deep_view() == kind_of(
            match node {
                Some(n) => Some(n@),
                None => None,
            },
        ),
{
    match node {
        Some(n) => Some(n.kind.clone()),
        None => None,
    }
}

fn bind_names(
    found: &Vec<String>,
    declaration_kind: &str,
    value_kind: &Option<String>,
    exported: bool,
) -> (res: Vec<VariableBinding>)
    ensures
        res.deep_view() == bindings(
            found.deep_view(),
            declaration_kind@,
            value_kind.deep_view(),
            exported,
        ),
{
    let ghost wanted = bindings(
        found.deep_view(),
        declaration_kind@,
        value_kind.deep_view(),
        exported,
    );
    let mut out: Vec<VariableBinding> = Vec::new();
    let mut i: usize = 0;
    assert(out.deep_view() =~= wanted.take(0));
    while i < found.len()
        invariant
            i <= found.len(),
            wanted == bindings(
                found.deep_view(),
                declaration_kind@,
                value_kind.deep_view(),
                exported,
            ),
            out.deep_view() == wanted.take(i as int),
        decreases found.len() - i,
    {
        let ghost before = out.deep_view();
        let binding = VariableBinding {
            name: found[i].clone(),
            declaration_kind: declaration_kind.to_owned(),
            value_kind: crate::skills::graph::copy_option(value_kind),
            exported,
        };
        assert(binding.deep_view() == wanted[i as int]);
        out.push(binding);
        assert(out.deep_view() =~= before.push(wanted[i as int]));
        assert(wanted.take(i as int + 1) =~= wanted.take(i as int).push(wanted[i as int]));
        i += 1;
    }
    assert(wanted.take(wanted.len() as int) =~= wanted);
    out
}

fn bind_go_names(found: &Vec<String>, declaration_kind: &str, value_kind: &Option<String>) -> (res:
    Vec<VariableBinding>)
    ensures
        res.deep_view() == go_bindings(
            found.deep_view(),
            declaration_kind@,
            value_kind.deep_view(),
        ),
{
    let ghost wanted = go_bindings(found.deep_view(), declaration_kind@, value_kind.deep_view());
    let mut out: Vec<VariableBinding> = Vec::new();
    let mut i: usize = 0;
    assert(out.deep_view() =~= wanted.take(0));
    while i < found.len()
        invariant
            i <= found.len(),
            wanted == go_bindings(found.deep_view(), declaration_kind@, value_kind.deep_view()),
            out.deep_view() == wanted.take(i as int),
        decreases found.len() - i,
    {
        let ghost before = out.deep_view();
        let binding = VariableBinding {
            name: found[i].clone(),
            declaration_kind: declaration_kind.to_owned(),
            value_kind: crate::skills::graph::copy_option(value_kind),
            exported: is_exported_name(found[i].as_str()),
        };
        assert(binding.deep_view() == wanted[i as int]);
        out.push(binding);
        assert(out.deep_view() =~= before.push(wanted[i as int]));
        assert(wanted.take(i as int + 1) =~= wanted.take(i as int).push(wanted[i as int]));
        i += 1;
    }
    assert(wanted.take(wanted.len() as int) =~= wanted);
    out
}

/// The keyword of a JavaScript declaration: the text of its first child, or else its kind.
pub open spec fn declaration_keyword(node: Tree) -> Seq<char> {
    if node.children.len() > 0 && node.children[0].text is Some {
        text::trimmed(node.children[0].text->0)
    } else {
        text::trimmed(node.kind)
    }
}

/// The variables of the declarators among the children.
pub open spec fn script_variables(children: Seq<Tree>, keyword: Seq<char>, exported: bool) -> Seq<
    VariableModel,
>
    decreases children.len(),
{
    if children.len() == 0 {
        Seq::empty()
    } else {
        let before = script_variables(children.drop_last(), keyword, exported);
        let last = children.last();
        if last.named && last.kind == "variable_declarator"@ {
            before + bindings(
                bound_names(syntax::child_by_field(last, "name"@)),
                keyword,
                kind_of(syntax::child_by_field(last, "value"@)),
                exported,
            )
        } else {
            before
        }
    }
}

fn read_keyword(node: &SyntaxNode) -> (res: String)
    ensures
        res@ == declaration_keyword(node@),
{
    if node.children.len() > 0 {
        assert(node@.children[0] == node.children@[0]@);
        if let Some(word) = node_text(&node.children[0]) {
            return trim(word.as_str());
        }
    }
    trim(node.kind.as_str())
}

pub fn extract_javascript_variables(node: &SyntaxNode, exported: bool) -> (res: Vec<
    VariableBinding,
>)
    ensures
        res.deep_view() == script_variables(
            node@.children,
            declaration_keyword(node@),
            exported,
        ),
{
    let keyword = read_keyword(node);
    let ghost all = node@.children;
    let mut variables: Vec<VariableBinding> = Vec::new();
    let mut i: usize = 0;
    assert(all.take(0) =~= Seq::empty());
    assert(variables.deep_view() =~= Seq::empty());
    while i < node.children.len()
        invariant
            i <= node.children.len(),
            all == node@.children,
            keyword@ == declaration_keyword(node@),
            variables.deep_view() == script_variables(all.take(i as int), keyword@, exported),
        decreases node.children.len() - i,
    {
        let child = &node.children[i];
        proof {
            assert(all.take(i as int + 1).drop_last() == all.take(i as int));
            assert(all.take(i as int + 1).last() == child@);
        }
        if child.named && same(child.kind.as_str(), "variable_declarator") {
            let found: Vec<String> = read_names(child_by_field_name(child, "name"));
            let value_kind: Option<String> = read_kind(child_by_field_name(child, "value"));
            let ghost before = variables.deep_view();
            let mut more: Vec<VariableBinding> = bind_names(
                &found,
                keyword.as_str(),
                &value_kind,
                exported,
            );
            let ghost added = more.deep_view();
            variables.append(&mut more);
            assert(variables.deep_view() =~= before + added);
        }
        i += 1;
    }
    assert(all.take(all.len() as int) == all);
    variables
}

/// The first named child.
pub open spec fn first_named(children: Seq<Tree>) -> Option<Tree>
    decreases children.len(),
{
    if children.len() == 0 {
        None
    } else if children[0].named {
        Some(children[0])
    } else {
        first_named(children.drop_first())
    }
}

/// The last named child.
pub open spec fn last_named(children: Seq<Tree>) -> Option<Tree>
    decreases children.len(),
{
    if children.len() == 0 {
        None
    } else if children.last().named {
        Some(children.last())
    } else {
        last_named(children.drop_last())
    }
}

fn find_first_named<'a>(node: &'a SyntaxNode) -> (res: Option<&'a SyntaxNode>)
    ensures
        first_named(node@.children) == match res {
            Some(child) => Some(child@),
            None => None,
        },
{
    let ghost all = node@.children;
    let mut i: usize = 0;
    assert(all.skip(0) == all);
    while i < node.children.len()
        invariant
            i <= node.children.len(),
            all == node@.children,
            first_named(all) == first_named(all.skip(i as int)),
        decreases node.children.len() - i,
    {
        proof {
            assert(all.skip(i as int)[0] == node.children@[i as int]@);
            assert(all.skip(i as int).drop_first() == all.skip(i as int + 1));
        }
        if node.children[i].named {
            return Some(&node.children[i]);
        }
        i += 1;
    }
    None
}

fn find_last_named<'a>(node: &'a SyntaxNode) -> (res: Option<&'a SyntaxNode>)
    ensures
        last_named(node@.children) == match res {
            Some(child) => Some(child@),
            None => None,
        },
{
    let ghost all = node@.children;
    let mut i: usize = node.children.len();
    assert(all.take(i as int) == all);
    while i > 0
        invariant
            i <= node.children.len(),
            all == node@.children,
            last_named(all) == last_named(all.take(i as int)),
        decreases i,
    {
        proof {
            assert(all.take(i as int).last() == node.children@[i - 1]@);
            assert(all.take(i as int).drop_last() == all.take(i as int - 1));
        }
        if node.children[i - 1].named {
            return Some(&node.children[i - 1]);
        }
        i -= 1;
    }
    None
}

pub open spec fn either(first: Option<Tree>, second: Option<Tree>) -> Option<Tree> {
    match first {
        Some(node) => Some(node),
        None => second,
    }
}

/// The variables of a Python assignment.
pub open spec fn python_variables(node: Tree, exported: bool) -> Seq<VariableModel> {
    let target = either(
        either(syntax::child_by_field(node, "left"@), syntax::child_by_field(node, "name"@)),
        first_named(node.children),
    );
    let value = either(
        either(syntax::child_by_field(node, "right"@), syntax::child_by_field(node, "value"@)),
        last_named(node.children),
    );
    bindings(bound_names(target), "assignment"@, kind_of(value), exported)
}

pub fn extract_python_variables(node: &SyntaxNode, exported: bool) -> (res: Vec<VariableBinding>)
    ensures
        res.deep_view() == python_variables(node@, exported),
{
    let target: Option<&SyntaxNode> = match child_by_field_name(node, "left") {
        Some(left) => Some(left),
        None => match child_by_field_name(node, "name") {
            Some(name) => Some(name),
            None => find_first_named(node),
        },
    };
    let value: Option<&SyntaxNode> = match child_by_field_name(node, "right") {
        Some(right) => Some(right),
        None => match child_by_field_name(node, "value") {
            Some(value) => Some(value),
            None => find_last_named(node),
        },
    };
    let found: Vec<String> = read_names(target);
    let value_kind: Option<String> = read_kind(value);
    bind_names(&found, "assignment", &value_kind, exported)
}

/// The first named child that is an expression.
pub open spec fn first_expression(children: Seq<Tree>) -> Option<Tree>
    decreases children.len(),
{
    if children.len() == 0 {
        None
    } else if children[0].named && search::ends_with(children[0].kind, "expression"@) {
        Some(children[0])
    } else {
        first_expression(children.drop_first())
    }
}

fn find_first_expression<'a>(node: &'a SyntaxNode) -> (res: Option<&'a SyntaxNode>)
    ensures
        first_expression(node@.children) == match res {
            Some(child) => Some(child@),
            None => None,
        },
{
    let ghost all = node@.children;
    let mut i: usize = 0;
    assert(all.skip(0) == all);
    while i < node.children.len()
        invariant
            i <= node.children.len(),
            all == node@.children,
            first_expression(all) == first_expression(all.skip(i as int)),
        decreases node.children.len() - i,
    {
        let child = &node.children[i];
        proof {
            assert(all.skip(i as int)[0] == child@);
            assert(all.skip(i as int).drop_first() == all.skip(i as int + 1));
        }
        if child.named && without_suffix(child.kind.as_str(), "expression").is_some() {
            return Some(child);
        }
        i += 1;
    }
    None
}

/// The variables of a Go specification.
pub open spec fn go_spec_variables(node: Tree, keyword: Seq<char>) -> Seq<VariableModel> {
    go_bindings(
        bound_names(either(syntax::child_by_field(node, "name"@), Some(node))),
        keyword,
        kind_of(either(syntax::child_by_field(node, "value"@), first_expression(node.children))),
    )
}

/// The variables of the specifications among the children.
pub open spec fn go_variables(children: Seq<Tree>, keyword: Seq<char>) -> Seq<VariableModel>
    decreases children.len(),
{
    if children.len() == 0 {
        Seq::empty()
    } else {
        let before = go_variables(children.drop_last(), keyword);
        let last = children.last();
        if last.named && (last.kind == "var_spec"@ || last.kind == "const_spec"@) {
            before + go_spec_variables(last, keyword)
        } else {
            before
        }
    }
}

pub open spec fn go_keyword(kind: Seq<char>) -> Seq<char> {
    if kind == "const_declaration"@ {
        "const"@
    } else {
        "var"@
    }
}

pub fn extract_go_variables(node: &SyntaxNode) -> (res: Vec<VariableBinding>)
    ensures
        res.deep_view() == go_variables(node@.children, go_keyword(node@.kind)),
{
    let keyword: &'static str = if same(node.kind.as_str(), "const_declaration") {
        "const"
    } else {
        "var"
    };
    let ghost all = node@.children;
    let mut variables: Vec<VariableBinding> = Vec::new();
    let mut i: usize = 0;
    assert(all.take(0) =~= Seq::empty());
    assert(variables.deep_view() =~= Seq::empty());
    while i < node.children.len()
        invariant
            i <= node.children.len(),
            all == node@.children,
            variables.deep_view() == go_variables(all.take(i as int), keyword@),
        decreases node.children.len() - i,
    {
        let child = &node.children[i];
        proof {
            assert(all.take(i as int + 1).drop_last() == all.take(i as int));
            assert(all.take(i as int + 1).last() == child@);
        }
        if child.named && (same(child.kind.as_str(), "var_spec") || same(
            child.kind.as_str(),
            "const_spec",
        )) {
            let target: &SyntaxNode = match child_by_field_name(child, "name") {
                Some(name) => name,
                None => child,
            };
            let value: Option<&SyntaxNode> = match child_by_field_name(child, "value") {
                Some(value) => Some(value),
                None => find_first_expression(child),
            };
            let found: Vec<String> = read_names(Some(target));
            let value_kind: Option<String> = read_kind(value);
            let ghost before = variables.deep_view();
            let mut more: Vec<VariableBinding> = bind_go_names(&found, keyword, &value_kind);
            let ghost added = more.deep_view();
            variables.append(&mut more);
            assert(variables.deep_view() =~= before + added);
        }
        i += 1;
    }
    assert(all.take(all.len() as int) == all);
    variables
}

/// The variables of a Rust constant or static.
pub open spec fn rust_variables(node: Tree) -> Seq<VariableModel> {
    bindings(
        bound_names(syntax::child_by_field(node, "name"@)),
        if node.kind == "static_item"@ {
            "static"@
        } else {
            "const"@
        },
        kind_of(syntax::child_by_field(node, "value"@)),
        node.text matches Some(source) && names::is_public_item(source),
    )
}

pub fn extract_rust_variables(node: &SyntaxNode) -> (res: Vec<VariableBinding>)
    ensures
        res.deep_view() == rust_variables(node@),
{
    let keyword: &'static str = if same(node.kind.as_str(), "static_item") {
        "static"
    } else {
        "const"
    };
    let exported: bool = match &node.text {
        Some(source) => is_rust_exported(source.as_str()),
        None => false,
    };
    let found: Vec<String> = read_names(child_by_field_name(node, "name"));
    let value_kind: Option<String> = read_kind(child_by_field_name(node, "value"));
    bind_names(&found, keyword, &value_kind, exported)
}

/// The variables that a declaration of the language binds.
pub open spec fn variables_of(node: Tree, language: SourceLanguage, exported: bool) -> Seq<
    VariableModel,
> {
    match language {
        SourceLanguage::Python => python_variables(node, exported),
        SourceLanguage::Go => go_variables(node.children, go_keyword(node.kind)),
        SourceLanguage::Rust => rust_variables(node),
        _ => script_variables(node.children, declaration_keyword(node), exported),
    }
}

pub fn extract_variables(node: &SyntaxNode, language: SourceLanguage, exported: bool) -> (res: Vec<
    VariableBinding,
>)
    ensures
        res.deep_view() == variables_of(node@, language, exported),
{
    match language {
        SourceLanguage::Python => extract_python_variables(node, exported),
        SourceLanguage::Go => extract_go_variables(node),
        SourceLanguage::Rust => extract_rust_variables(node),
        _ => extract_javascript_variables(node, exported),
    }
}

// ---------------------------------------------------------------------------
// Laws of classes and variables
// ---------------------------------------------------------------------------
proof fn lemma_filled(node: Tree, field: Seq<char>) -> (n: int)
    ensures
        fills(node, field, n) || n < 0 && fills_nothing(node, field),
        syntax::child_by_field(node, field) == if n >= 0 {
            Some(node.children[n])
        } else {
            None
        },
{
    if exists|n: int| 0 <= n < node.children.len() && (#[trigger] node.children[n]).field == Some(
        field,
    ) {
        let m = choose|n: int|
            0 <= n < node.children.len() && (#[trigger] node.children[n]).field == Some(field);
        let n = lemma_first_filled(node, field, m);
        syntax::lemma_child_by_field(node, field, n);
        n
    } else {
        syntax::lemma_no_child_by_field(node, field);
        -1
    }
}

proof fn lemma_first_filled(node: Tree, field: Seq<char>, m: int) -> (n: int)
    requires
        0 <= m < node.children.len(),
        node.children[m].field == Some(field),
    ensures
        fills(node, field, n),
    decreases m,
{
    if exists|j: int| 0 <= j < m && (#[trigger] node.children[j]).field == Some(field) {
        let j = choose|j: int| 0 <= j < m && (#[trigger] node.children[j]).field == Some(field);
        lemma_first_filled(node, field, j)
    } else {
        m
    }
}

/// The methods of two lists of children, one behind the other, are those of the one and those of
/// the other.
pub proof fn lemma_methods_of_parts(a: Seq<Tree>, b: Seq<Tree>, language: SourceLanguage)
    ensures
        methods_among(a + b, language) == methods_among(a, language) + methods_among(b, language),
    decreases b.len(),
{
    if b.len() == 0 {
        assert(a + b =~= a);
    } else {
        lemma_methods_of_parts(a, b.drop_last(), language);
        assert((a + b).drop_last() =~= a + b.drop_last());
        assert((a + b).last() == b.last());
    }
}

/// A child declares a method by its kind, and in Python a decorated definition declares those
/// that it holds; no other child declares one.
pub proof fn lemma_methods_of_child(child: Tree, language: SourceLanguage)
    ensures
        ({
            let methods = methods_among(seq![child], language);
            let is_method = child.named && match language {
                SourceLanguage::Python => child.kind == "function_definition"@ || child.kind
                    == "async_function_definition"@,
                SourceLanguage::Rust => child.kind == "function_item"@,
                SourceLanguage::Go => false,
                _ => child.kind == "method_definition"@ || child.kind == "method_signature"@,
            };
            let is_decorated = child.named && language == SourceLanguage::Python && child.kind
                == "decorated_definition"@;
            &&& is_method && method_of(child) is Some ==> methods == seq![method_of(child)->0]
            &&& is_method && method_of(child) is None ==> methods.len() == 0
            &&& is_decorated ==> methods == methods_among(child.children, language)
            &&& !is_method && !is_decorated ==> methods.len() == 0
        }),
{
    reveal_strlit("decorated_definition");
    reveal_strlit("function_definition");
    reveal_strlit("async_function_definition");
    assert(seq![child].drop_last() =~= Seq::<Tree>::empty());
    let none = methods_among(Seq::<Tree>::empty(), language);
    assert(none =~= Seq::empty());
    assert(child.kind == "decorated_definition"@ ==> child.kind.len() == 20);
    assert(child.kind == "function_definition"@ ==> child.kind.len() == 19);
    assert(child.kind == "async_function_definition"@ ==> child.kind.len() == 25);
    assert(none + methods_among(child.children, language) =~= methods_among(
        child.children,
        language,
    ));
    if method_of(child) is Some {
        assert(none.push(method_of(child)->0) =~= seq![method_of(child)->0]);
    }
}

/// A class has the name and the base that its node gives, and the methods that its body declares;
/// in Rust they stand with the node itself.
pub proof fn lemma_class_parts(
    node: Tree,
    language: SourceLanguage,
    exported: bool,
    n: int,
    b: int,
)
    requires
        fills(node, "name"@, n),
        node.children[n].text is Some,
        fills(node, "body"@, b) || b < 0 && fills_nothing(node, "body"@),
    ensures
        ({
            let class = class_of(node, language, exported);
            &&& class is Some
            &&& class->0.name == node.children[n].text->0
            &&& language == SourceLanguage::Rust ==> class->0.methods == methods_among(
                node.children,
                language,
            )
            &&& language.is_script() || language == SourceLanguage::Python ==> {
                &&& class->0.exported == exported
                &&& b >= 0 ==> class->0.methods == methods_among(
                    node.children[b].children,
                    language,
                )
                &&& b < 0 ==> class->0.methods.len() == 0
            }
            &&& language.is_script() ==> forall|e: int|
                fills(node, "superclass"@, e) ==> class->0.extends == node.children[e].text
            &&& language.is_script() && fills_nothing(node, "superclass"@)
                ==> class->0.extends is None
            &&& language == SourceLanguage::Python && fills_nothing(node, "superclasses"@)
                ==> class->0.extends is None
        }),
{
    syntax::lemma_child_by_field(node, "name"@, n);
    if b >= 0 {
        syntax::lemma_child_by_field(node, "body"@, b);
    } else {
        syntax::lemma_no_child_by_field(node, "body"@);
    }
    assert forall|e: int| fills(node, "superclass"@, e) implies syntax::field_text(
        node,
        "superclass"@,
    ) == node.children[e].text by {
        syntax::lemma_child_by_field(node, "superclass"@, e);
    }
    if fills_nothing(node, "superclass"@) {
        syntax::lemma_no_child_by_field(node, "superclass"@);
    }
    if fills_nothing(node, "superclasses"@) {
        syntax::lemma_no_child_by_field(node, "superclasses"@);
    }
}

/// The types of two lists of children, one behind the other, are those of the one and those of
/// the other.
pub proof fn lemma_go_types_of_parts(a: Seq<Tree>, b: Seq<Tree>)
    ensures
        go_types(a + b) == go_types(a) + go_types(b),
    decreases b.len(),
{
    if b.len() == 0 {
        assert(a + b =~= a);
    } else {
        lemma_go_types_of_parts(a, b.drop_last());
        assert((a + b).drop_last() =~= a + b.drop_last());
        assert((a + b).last() == b.last());
    }
}

/// A named type specification with the body of a struct or an interface declares a class of its
/// name; a child that is no such specification declares none.
pub proof fn lemma_go_types_of_child(child: Tree, n: int, t: int)
    requires
        fills(child, "name"@, n),
        child.children[n].text is Some,
        fills(child, "type"@, t),
    ensures
        ({
            let types = go_types(seq![child]);
            let body = child.children[t].kind;
            if child.named && child.kind == "type_spec"@ && (body == "struct_type"@ || body
                == "interface_type"@) {
                &&& types.len() == 1
                &&& types[0].name == child.children[n].text->0
                &&& types[0].extends is None
                &&& types[0].methods.len() == 0
            } else {
                types.len() == 0
            }
        }),
{
    syntax::lemma_child_by_field(child, "name"@, n);
    syntax::lemma_child_by_field(child, "type"@, t);
    assert(seq![child].drop_last() =~= Seq::<Tree>::empty());
    assert(go_types(Seq::<Tree>::empty()) =~= Seq::empty());
}

/// The names that a node binds below itself, each with what the declaration says of it.
pub open spec fn is_bound(target: Tree, path: Seq<int>, variable: VariableModel) -> bool {
    syntax::leads_to(target, path, true, variable.name)
}

/// The variable has the kind of the value that the node gives it, if it gives it one.
pub open spec fn has_value_of(variable: VariableModel, node: Tree) -> bool {
    &&& fills_nothing(node, "value"@) ==> variable.value_kind is None
    &&& forall|m: int|
        fills(node, "value"@, m) ==> variable.value_kind == Some(node.children[m].kind)
}

proof fn lemma_value_of(variable: VariableModel, node: Tree)
    ensures
        has_value_of(variable, node) <==> variable.value_kind == kind_of(
            syntax::child_by_field(node, "value"@),
        ),
{
    let n = lemma_filled(node, "value"@);
    if n >= 0 {
        assert forall|m: int| fills(node, "value"@, m) implies m == n by {
            if m < n {
                assert(node.children[m].field != Some("value"@));
            }
            if n < m {
                assert(node.children[n].field != Some("value"@));
            }
        }
        assert(fills(node, "value"@, n));
        assert(!fills_nothing(node, "value"@)) by {
            assert(node.children[n].field == Some("value"@));
        }
    }
}

proof fn lemma_bindings(
    target: Tree,
    declaration_kind: Seq<char>,
    value_kind: Option<Seq<char>>,
    exported: bool,
)
    ensures
        forall|variable: VariableModel| #[trigger]
            bindings(bound_names(Some(target)), declaration_kind, value_kind, exported).contains(
                variable,
            ) <==> {
                &&& exists|path: Seq<int>| is_bound(target, path, variable)
                &&& variable.declaration_kind == declaration_kind
                &&& variable.value_kind == value_kind
                &&& variable.exported == exported
            },
{
    let found = bound_names(Some(target));
    let none = Seq::<Seq<char>>::empty();
    let all = bindings(found, declaration_kind, value_kind, exported);
    syntax::lemma_identifiers(target, none, true);
    assert forall|variable: VariableModel| #[trigger] all.contains(variable) <==> {
        &&& exists|path: Seq<int>| is_bound(target, path, variable)
        &&& variable.declaration_kind == declaration_kind
        &&& variable.value_kind == value_kind
        &&& variable.exported == exported
    } by {
        assert(!none.contains(variable.name));
        if all.contains(variable) {
            let k = choose|k: int| 0 <= k < all.len() && all[k] == variable;
            assert(found[k] == variable.name);
            assert(found.contains(variable.name));
            let path = choose|path: Seq<int>|
                syntax::leads_to(target, path, true, variable.name);
            assert(is_bound(target, path, variable));
        }
        if {
            &&& exists|path: Seq<int>| is_bound(target, path, variable)
            &&& variable.declaration_kind == declaration_kind
            &&& variable.value_kind == value_kind
            &&& variable.exported == exported
        } {
            let path = choose|path: Seq<int>| is_bound(target, path, variable);
            assert(syntax::leads_to(target, path, true, variable.name));
            assert(found.contains(variable.name));
            let k = choose|k: int| 0 <= k < found.len() && found[k] == variable.name;
            assert(all[k] == variable);
        }
    }
}

/// The variables of two lists of children, one behind the other, are those of the one and those
/// of the other.
pub proof fn lemma_script_variables_of_parts(
    a: Seq<Tree>,
    b: Seq<Tree>,
    keyword: Seq<char>,
    exported: bool,
)
    ensures
        script_variables(a + b, keyword, exported) == script_variables(a, keyword, exported)
            + script_variables(b, keyword, exported),
    decreases b.len(),
{
    if b.len() == 0 {
        assert(a + b =~= a);
    } else {
        lemma_script_variables_of_parts(a, b.drop_last(), keyword, exported);
        assert((a + b).drop_last() =~= a + b.drop_last());
        assert((a + b).last() == b.last());
    }
}

/// A declarator declares the names that its name binds, with its keyword and its value, and no
/// others; other children declare nothing.
pub proof fn lemma_script_variables_of_child(
    child: Tree,
    keyword: Seq<char>,
    exported: bool,
    n: int,
)
    requires
        fills(child, "name"@, n),
    ensures
        child.named && child.kind == "variable_declarator"@ ==> forall|
            variable: VariableModel,
        | #[trigger]
            script_variables(seq![child], keyword, exported).contains(variable) <==> {
                &&& exists|path: Seq<int>| is_bound(child.children[n], path, variable)
                &&& variable.declaration_kind == keyword
                &&& has_value_of(variable, child)
                &&& variable.exported == exported
            },
        !child.named || child.kind != "variable_declarator"@ ==> script_variables(
            seq![child],
            keyword,
            exported,
        ).len() == 0,
{
    let value_kind = kind_of(syntax::child_by_field(child, "value"@));
    let all = script_variables(seq![child], keyword, exported);
    syntax::lemma_child_by_field(child, "name"@, n);
    lemma_bindings(child.children[n], keyword, value_kind, exported);
    assert(seq![child].drop_last() =~= Seq::<Tree>::empty());
    assert(script_variables(Seq::<Tree>::empty(), keyword, exported) =~= Seq::empty());
    if child.named && child.kind == "variable_declarator"@ {
        assert(all =~= bindings(
            bound_names(Some(child.children[n])),
            keyword,
            value_kind,
            exported,
        ));
        assert forall|variable: VariableModel| #[trigger] all.contains(variable) <==> {
            &&& exists|path: Seq<int>| is_bound(child.children[n], path, variable)
            &&& variable.declaration_kind == keyword
            &&& has_value_of(variable, child)
            &&& variable.exported == exported
        } by {
            lemma_value_of(variable, child);
        }
    }
}

/// An assignment binds the names on its left, each to the kind of what stands on its right.
pub proof fn lemma_python_variables(node: Tree, exported: bool, l: int, r: int)
    requires
        fills(node, "left"@, l),
        fills(node, "right"@, r),
    ensures
        forall|variable: VariableModel| #[trigger]
            python_variables(node, exported).contains(variable) <==> {
                &&& exists|path: Seq<int>| is_bound(node.children[l], path, variable)
                &&& variable.declaration_kind == "assignment"@
                &&& variable.value_kind == Some(node.children[r].kind)
                &&& variable.exported == exported
            },
{
    syntax::lemma_child_by_field(node, "left"@, l);
    syntax::lemma_child_by_field(node, "right"@, r);
    lemma_bindings(
        node.children[l],
        "assignment"@,
        Some(node.children[r].kind),
        exported,
    );
}

/// A constant or a static binds its name to the kind of its value.
pub proof fn lemma_rust_variables(node: Tree, n: int)
    requires
        fills(node, "name"@, n),
        node.kind == "const_item"@ || node.kind == "static_item"@,
    ensures
        forall|variable: VariableModel| #[trigger]
            rust_variables(node).contains(variable) ==> {
                &&& exists|path: Seq<int>| is_bound(node.children[n], path, variable)
                &&& node.kind == "const_item"@ ==> variable.declaration_kind == "const"@
                &&& node.kind == "static_item"@ ==> variable.declaration_kind == "static"@
                &&& has_value_of(variable, node)
            },
        forall|name: Seq<char>, path: Seq<int>| #[trigger]
            syntax::leads_to(node.children[n], path, true, name) ==> exists|i: int|
                0 <= i < rust_variables(node).len() && (#[trigger] rust_variables(node)[i]).name
                    == name,
{
    reveal_strlit("const_item");
    reveal_strlit("static_item");
    let keyword = if node.kind == "static_item"@ {
        "static"@
    } else {
        "const"@
    };
    let value_kind = kind_of(syntax::child_by_field(node, "value"@));
    let exported = node.text matches Some(source) && names::is_public_item(source);
    let all = rust_variables(node);
    syntax::lemma_child_by_field(node, "name"@, n);
    lemma_bindings(node.children[n], keyword, value_kind, exported);
    assert(all == bindings(
        bound_names(Some(node.children[n])),
        keyword,
        value_kind,
        exported,
    ));
    assert(node.kind == "const_item"@ ==> node.kind.len() == 10);
    assert(node.kind == "static_item"@ ==> node.kind.len() == 11);
    assert forall|variable: VariableModel| #[trigger] all.contains(variable) implies has_value_of(
        variable,
        node,
    ) by {
        lemma_value_of(variable, node);
    }
    assert forall|name: Seq<char>, path: Seq<int>| #[trigger]
        syntax::leads_to(node.children[n], path, true, name) implies exists|i: int|
        0 <= i < all.len() && (#[trigger] all[i]).name == name by {
        let variable = VariableModel { name, declaration_kind: keyword, value_kind, exported };
        assert(is_bound(node.children[n], path, variable));
        assert(all.contains(variable));
        let i = choose|i: int| 0 <= i < all.len() && all[i] == variable;
        assert(all[i].name == name);
    }
}

/// The variables of two lists of children, one behind the other, are those of the one and those
/// of the other.
pub proof fn lemma_go_variables_of_parts(a: Seq<Tree>, b: Seq<Tree>, keyword: Seq<char>)
    ensures
        go_variables(a + b, keyword) == go_variables(a, keyword) + go_variables(b, keyword),
    decreases b.len(),
{
    if b.len() == 0 {
        assert(a + b =~= a);
    } else {
        lemma_go_variables_of_parts(a, b.drop_last(), keyword);
        assert((a + b).drop_last() =~= a + b.drop_last());
        assert((a + b).last() == b.last());
    }
}

/// A specification declares exactly the names that its name binds, with the keyword; other
/// children declare nothing.
pub proof fn lemma_go_variables_of_child(child: Tree, keyword: Seq<char>, n: int)
    requires
        fills(child, "name"@, n),
    ensures
        ({
            let variables = go_variables(seq![child], keyword);
            if child.named && (child.kind == "var_spec"@ || child.kind == "const_spec"@) {
                &&& forall|i: int|
                    0 <= i < variables.len() ==> {
                        &&& (#[trigger] variables[i]).declaration_kind == keyword
                        &&& exists|path: Seq<int>| is_bound(child.children[n], path, variables[i])
                        &&& forall|m: int|
                            fills(child, "value"@, m) ==> variables[i].value_kind == Some(
                                child.children[m].kind,
                            )
                    }
                &&& forall|name: Seq<char>, path: Seq<int>| #[trigger]
                    syntax::leads_to(child.children[n], path, true, name) ==> exists|i: int|
                        0 <= i < variables.len() && (#[trigger] variables[i]).name == name
            } else {
                variables.len() == 0
            }
        }),
{
    let target = child.children[n];
    let found = bound_names(Some(target));
    let none = Seq::<Seq<char>>::empty();
    let variables = go_variables(seq![child], keyword);
    syntax::lemma_child_by_field(child, "name"@, n);
    syntax::lemma_identifiers(target, none, true);
    assert(seq![child].drop_last() =~= Seq::<Tree>::empty());
    assert(go_variables(Seq::<Tree>::empty(), keyword) =~= Seq::empty());
    if child.named && (child.kind == "var_spec"@ || child.kind == "const_spec"@) {
        assert(variables =~= go_spec_variables(child, keyword));
        assert forall|i: int| 0 <= i < variables.len() implies {
            &&& (#[trigger] variables[i]).declaration_kind == keyword
            &&& exists|path: Seq<int>| is_bound(target, path, variables[i])
            &&& forall|m: int|
                fills(child, "value"@, m) ==> variables[i].value_kind == Some(
                    child.children[m].kind,
                )
        } by {
            assert(variables[i].name == found[i]);
            assert(found.contains(found[i]));
            assert(!none.contains(found[i]));
            let path = choose|path: Seq<int>| syntax::leads_to(target, path, true, found[i]);
            assert(is_bound(target, path, variables[i]));
            assert forall|m: int| fills(child, "value"@, m) implies variables[i].value_kind
                == Some(child.children[m].kind) by {
                syntax::lemma_child_by_field(child, "value"@, m);
            }
        }
        assert forall|name: Seq<char>, path: Seq<int>| #[trigger]
            syntax::leads_to(target, path, true, name) implies exists|i: int|
            0 <= i < variables.len() && (#[trigger] variables[i]).name == name by {
            assert(found.contains(name));
            let i = choose|i: int| 0 <= i < found.len() && found[i] == name;
            assert(variables[i].name == name);
        }
    }
}

/// In Rust a function is exported exactly where its text begins with the keyword, after white
/// space; a script has a generator exactly where its text says so.
pub proof fn lemma_exported_function(
    node: Tree,
    exported: bool,
    indent: Seq<char>,
    rest: Seq<char>,
)
    requires
        function_of(node, SourceLanguage::Rust, exported) is Some,
        node.text == Some(indent + rest),
        forall|i: int| 0 <= i < indent.len() ==> text::is_white(#[trigger] indent[i]),
        rest.len() > 0 && !text::is_white(rest[0]),
    ensures
        function_of(node, SourceLanguage::Rust, exported)->0.exported <==> rest.len() >= 4
            && rest.subrange(0, 4) == seq!['p', 'u', 'b', ' '],
        !function_of(node, SourceLanguage::Rust, exported)->0.is_generator,
        function_of(node, SourceLanguage::JavaScript, exported)->0.is_generator
            <==> search::contains(indent + rest, "function*"@),
{
    reveal_strlit("pub ");
    lemma_indent(indent, rest);
    assert("pub "@ =~= seq!['p', 'u', 'b', ' ']);
    if rest.len() >= 4 {
        assert(rest.subrange(0, 4) =~= rest.take(4));
    }
}

/// A Python class has the bases that stand in the parentheses behind its name.
pub proof fn lemma_python_base(node: Tree, base: Seq<char>, e: int)
    requires
        fills(node, "superclasses"@, e),
        node.children[e].text == Some(seq!['('] + base + seq![')']),
        base.len() > 0,
        !text::is_white(base[0]) && base[0] != '(' && base[0] != ')',
        !text::is_white(base.last()) && base.last() != '(' && base.last() != ')',
    ensures
        base_of(node, SourceLanguage::Python) == Some(base),
{
    reveal_strlit("()");
    syntax::lemma_child_by_field(node, "superclasses"@, e);
    let s = seq!['('] + base + seq![')'];
    let f = text::among("()"@);
    assert("()"@[0] == '(' && "()"@[1] == ')');
    assert(f('(') && f(')'));
    assert forall|c: char| #[trigger] f(c) implies c == '(' || c == ')' by {
        let i = choose|i: int| 0 <= i < "()"@.len() && "()"@[i] == c;
        assert(i == 0 || i == 1);
    }
    assert(s.drop_first() =~= base + seq![')']);
    assert((base + seq![')'])[0] == base[0]);
    assert(text::trim_start_by(base + seq![')'], f) == base + seq![')']);
    assert(text::trim_start_by(s, f) == base + seq![')']);
    assert((base + seq![')']).drop_last() =~= base);
    assert(text::trim_end_by(base, f) == base);
    assert(text::trim_by(s, f) == base);
    text::lemma_trimmed_already(base);
}

/// A Go method belongs to the type that its receiver names.
pub proof fn lemma_go_method(node: Tree, r: int, t: int, name: Seq<char>)
    requires
        fills(node, "receiver"@, r),
        fills(node.children[r], "type"@, t),
        node.children[r].children[t].text == Some(name) || node.children[r].children[t].text
            == Some("*"@ + name),
        names::is_type_name(name),
        method_of(node) is Some,
    ensures
        go_method_class(node) is Some,
        go_method_class(node)->0.name == name,
        go_method_class(node)->0.methods == seq![method_of(node)->0],
        go_method_class(node)->0.extends is None,
{
    reveal_strlit("*");
    let receiver = node.children[r];
    let written = receiver.children[t].text->0;
    syntax::lemma_child_by_field(node, "receiver"@, r);
    names::lemma_type_name(name);
    assert(text::is_alphanumeric(name[0]) || name[0] == '_');
    assert(text::is_alphanumeric(name[name.len() - 1]) || name[name.len() - 1] == '_');
    assert(written[0] == name[0] || written[0] == '*');
    assert(written.last() == name.last());
    text::lemma_trimmed_already(written);
    syntax::lemma_field_comes_first(receiver, "type"@, receiver_kinds(), t);
}

/// An impl block adds the methods that stand in it to the type that it is for.
pub proof fn lemma_impl_block(node: Tree, name: Seq<char>)
    requires
        impl_target(node) == Some(name),
    ensures
        impl_class(node) is Some,
        impl_class(node)->0.name == name,
        impl_class(node)->0.methods == methods_among(node.children, SourceLanguage::Rust),
        impl_class(node)->0.extends is None,
        !impl_class(node)->0.exported,
{
}

/// The variables of a declaration are those of its declarators, with its own keyword.
pub proof fn lemma_variables_of(node: Tree, exported: bool)
    requires
        node.children.len() > 0,
        node.children[0].text is Some,
    ensures
        variables_of(node, SourceLanguage::JavaScript, exported) == script_variables(
            node.children,
            text::trimmed(node.children[0].text->0),
            exported,
        ),
        node.kind == "const_declaration"@ ==> variables_of(node, SourceLanguage::Go, exported)
            == go_variables(node.children, "const"@),
        node.kind == "var_declaration"@ ==> variables_of(node, SourceLanguage::Go, exported)
            == go_variables(node.children, "var"@),
{
    reveal_strlit("const_declaration");
    reveal_strlit("var_declaration");
    assert("const_declaration"@.len() == 17 && "var_declaration"@.len() == 15);
}

} // verus!
