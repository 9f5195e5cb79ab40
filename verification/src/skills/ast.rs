//! Summaries of source files, built from their syntax trees.
use crate::failure;
use crate::failure::Failure;
use crate::skills::branches;
use crate::skills::branches::collect_branches;
use crate::skills::declarations;
use crate::skills::declarations::{
    extract_class, extract_function, extract_go_method, extract_go_types, extract_rust_impl,
    extract_variables,
};
use crate::skills::file_io;
use crate::skills::file_io::{FileIOSkill, ReadFile, ReadModel, Skill};
use crate::skills::graph;
use crate::skills::graph::{
    finalize_summary, upsert_class_definition, BranchDescriptor, BranchModel, ClassDefinition,
    ClassModel, DependencyGraph, FileDependencyNode, FileModel, FunctionModel, GraphModel,
    ImportEdge, ImportModel, MethodModel, VariableBinding, VariableModel,
};
use crate::skills::imports;
use crate::skills::imports::extract_imports;
use crate::skills::syntax;
use crate::skills::syntax::{
    parse_source, ProblemModel, SourceLanguage, SyntaxNode, SyntaxProblem, Tree, SUPPORTED_LABELS,
};
use crate::text::same;
use crate::utils::path;
use vstd::prelude::*;

verus! {

/// Parses source files.
#[derive(Debug, Default, Clone, Copy)]
pub struct ASTParsingSkill;

impl Skill for ASTParsingSkill {
    open spec fn label(&self) -> Seq<char> {
        "ast_parsing"@
    }

    fn name(&self) -> (res: &str) {
        "ast_parsing"
    }
}

// ---------------------------------------------------------------------------
// Declarations at the top level
// ---------------------------------------------------------------------------
/// What a node of a file is read as.
#[derive(Clone, Copy, PartialEq, Eq, Structural)]
pub enum NodeRole {
    Import,
    Function,
    Class,
    Variables,
    Wrapper,
    GoMethod,
    GoTypes,
    Impl,
    Other,
}

/// What a node of the kind is read as in the language.
pub open spec fn role_of(kind: Seq<char>, language: SourceLanguage) -> NodeRole {
    match language {
        SourceLanguage::Python => if kind == "import_statement"@ || kind
            == "import_from_statement"@ {
            NodeRole::Import
        } else if kind == "function_definition"@ || kind == "async_function_definition"@ {
            NodeRole::Function
        } else if kind == "class_definition"@ {
            NodeRole::Class
        } else if kind == "assignment"@ || kind == "augmented_assignment"@ || kind
            == "annotated_assignment"@ {
            NodeRole::Variables
        } else if kind == "decorated_definition"@ || kind == "expression_statement"@ {
            NodeRole::Wrapper
        } else {
            NodeRole::Other
        },
        SourceLanguage::Go => if kind == "import_declaration"@ {
            NodeRole::Import
        } else if kind == "function_declaration"@ {
            NodeRole::Function
        } else if kind == "method_declaration"@ {
            NodeRole::GoMethod
        } else if kind == "type_declaration"@ {
            NodeRole::GoTypes
        } else if kind == "var_declaration"@ || kind == "const_declaration"@ {
            NodeRole::Variables
        } else {
            NodeRole::Other
        },
        SourceLanguage::Rust => if kind == "use_declaration"@ {
            NodeRole::Import
        } else if kind == "function_item"@ {
            NodeRole::Function
        } else if kind == "struct_item"@ || kind == "enum_item"@ || kind == "trait_item"@ {
            NodeRole::Class
        } else if kind == "impl_item"@ {
            NodeRole::Impl
        } else if kind == "const_item"@ || kind == "static_item"@ {
            NodeRole::Variables
        } else {
            NodeRole::Other
        },
        _ => if kind == "import_statement"@ {
            NodeRole::Import
        } else if kind == "function_declaration"@ {
            NodeRole::Function
        } else if kind == "class_declaration"@ {
            NodeRole::Class
        } else if kind == "lexical_declaration"@ || kind == "variable_declaration"@ {
            NodeRole::Variables
        } else if kind == "export_statement"@ {
            NodeRole::Wrapper
        } else {
            NodeRole::Other
        },
    }
}

/// What a wrapper holds is exported if the wrapper exports it or is itself exported.
pub open spec fn exported_inside(language: SourceLanguage, exported: bool) -> bool {
    language.is_script() || exported
}

pub open spec fn with_function(file: FileModel, function: Option<FunctionModel>) -> FileModel {
    match function {
        Some(f) => FileModel { functions: file.functions.push(f), ..file },
        None => file,
    }
}

pub open spec fn with_class_of(file: FileModel, class: Option<ClassModel>) -> FileModel {
    match class {
        Some(c) => FileModel { classes: graph::with_class(file.classes, c), ..file },
        None => file,
    }
}

/// The classes with the others added one after the other.
pub open spec fn with_classes(classes: Seq<ClassModel>, more: Seq<ClassModel>) -> Seq<ClassModel>
    decreases more.len(),
{
    if more.len() == 0 {
        classes
    } else {
        graph::with_class(with_classes(classes, more.drop_last()), more.last())
    }
}

/// The summary with what the node declares.
pub open spec fn with_node(
    file: FileModel,
    node: Tree,
    exported: bool,
    language: SourceLanguage,
) -> FileModel
    decreases node,
{
    match role_of(node.kind, language) {
        NodeRole::Import => FileModel {
            imports: file.imports + imports::imports_of(node, language),
            ..file
        },
        NodeRole::Function => with_function(
            file,
            declarations::function_of(node, language, exported),
        ),
        NodeRole::Class => with_class_of(file, declarations::class_of(node, language, exported)),
        NodeRole::Variables => FileModel {
            variables: file.variables + declarations::variables_of(node, language, exported),
            ..file
        },
        NodeRole::GoMethod => with_class_of(file, declarations::go_method_class(node)),
        NodeRole::GoTypes => FileModel {
            classes: with_classes(file.classes, declarations::go_types(node.children)),
            ..file
        },
        NodeRole::Impl => with_class_of(file, declarations::impl_class(node)),
        NodeRole::Wrapper => with_nodes(
            file,
            node.children,
            exported_inside(language, exported),
            language,
        ),
        NodeRole::Other => file,
    }
}

/// The summary with what the named nodes declare, one after the other.
pub open spec fn with_nodes(
    file: FileModel,
    nodes: Seq<Tree>,
    exported: bool,
    language: SourceLanguage,
) -> FileModel
    decreases nodes,
{
    if nodes.len() == 0 {
        file
    } else {
        let before = with_nodes(file, nodes.drop_last(), exported, language);
        if nodes.last().named {
            with_node(before, nodes.last(), exported, language)
        } else {
            before
        }
    }
}

/// The summary of a file with the syntax tree.
pub open spec fn summary_of(
    root_path: Seq<char>,
    file_path: Seq<char>,
    tree: Tree,
    language: SourceLanguage,
) -> FileModel {
    let start = FileModel {
        path: path::relative_to(root_path, file_path),
        language: language.label(),
        ..FileModel::blank()
    };
    let declared = with_nodes(start, tree.children, false, language);
    graph::tidy_file(FileModel { branches: branches::branches(tree, language), ..declared })
}

/// The summary of a source file, or why it could not be parsed.
pub open spec fn parsed_file(
    root_path: Seq<char>,
    file_path: Seq<char>,
    source: Seq<char>,
    language: SourceLanguage,
) -> Result<FileModel, Seq<Seq<char>>> {
    match syntax::parsed_source(source, language) {
        Ok(tree) => Ok(summary_of(root_path, file_path, tree, language)),
        Err(ProblemModel::Grammar(error)) => Err(
            failure::in_context(
                "failed to load "@ + language.label() + " parser"@,
                failure::plain(error),
            ),
        ),
        Err(ProblemModel::NoTree) => Err(failure::plain("failed to parse "@ + file_path)),
    }
}

fn node_role(kind: &str, language: SourceLanguage) -> (res: NodeRole)
    ensures
        res == role_of(kind@, language),
{
    match language {
        SourceLanguage::Python => if same(kind, "import_statement") || same(
            kind,
            "import_from_statement",
        ) {
            NodeRole::Import
        } else if same(kind, "function_definition") || same(kind, "async_function_definition") {
            NodeRole::Function
        } else if same(kind, "class_definition") {
            NodeRole::Class
        } else if same(kind, "assignment") || same(kind, "augmented_assignment") || same(
            kind,
            "annotated_assignment",
        ) {
            NodeRole::Variables
        } else if same(kind, "decorated_definition") || same(kind, "expression_statement") {
            NodeRole::Wrapper
        } else {
            NodeRole::Other
        },
        SourceLanguage::Go => if same(kind, "import_declaration") {
            NodeRole::Import
        } else if same(kind, "function_declaration") {
            NodeRole::Function
        } else if same(kind, "method_declaration") {
            NodeRole::GoMethod
        } else if same(kind, "type_declaration") {
            NodeRole::GoTypes
        } else if same(kind, "var_declaration") || same(kind, "const_declaration") {
            NodeRole::Variables
        } else {
            NodeRole::Other
        },
        SourceLanguage::Rust => if same(kind, "use_declaration") {
            NodeRole::Import
        } else if same(kind, "function_item") {
            NodeRole::Function
        } else if same(kind, "struct_item") || same(kind, "enum_item") || same(
            kind,
            "trait_item",
        ) {
            NodeRole::Class
        } else if same(kind, "impl_item") {
            NodeRole::Impl
        } else if same(kind, "const_item") || same(kind, "static_item") {
            NodeRole::Variables
        } else {
            NodeRole::Other
        },
        _ => if same(kind, "import_statement") {
            NodeRole::Import
        } else if same(kind, "function_declaration") {
            NodeRole::Function
        } else if same(kind, "class_declaration") {
            NodeRole::Class
        } else if same(kind, "lexical_declaration") || same(kind, "variable_declaration") {
            NodeRole::Variables
        } else if same(kind, "export_statement") {
            NodeRole::Wrapper
        } else {
            NodeRole::Other
        },
    }
}

impl ASTParsingSkill {
    fn add_class(summary: &mut FileDependencyNode, class: Option<ClassDefinition>)
        ensures
            final(summary).deep_view() == with_class_of(
                old(summary).deep_view(),
                class.deep_view(),
            ),
    {
        if let Some(class_definition) = class {
            upsert_class_definition(&mut summary.classes, class_definition);
        }
    }

    fn add_go_types(summary: &mut FileDependencyNode, node: &SyntaxNode)
        ensures
            final(summary).deep_view() == (FileModel {
                classes: with_classes(
                    old(summary).deep_view().classes,
                    declarations::go_types(node@.children),
                ),
                ..old(summary).deep_view()
            }),
    {
        let ghost before = summary.deep_view();
        let found: Vec<ClassDefinition> = extract_go_types(node);
        let ghost all = found.deep_view();
        let mut i: usize = 0;
        assert(all.take(0) =~= Seq::empty());
        while i < found.len()
            invariant
                i <= found.len(),
                all == found.deep_view(),
                summary.deep_view() == (FileModel {
                    classes: with_classes(before.classes, all.take(i as int)),
                    ..before
                }),
            decreases found.len() - i,
        {
            proof {
                assert(all.take(i as int + 1).drop_last() == all.take(i as int));
                assert(all.take(i as int + 1).last() == found@[i as int].deep_view());
            }
            upsert_class_definition(&mut summary.classes, found[i].clone());
            i += 1;
        }
        assert(all.take(all.len() as int) == all);
    }

    /// Adds what the node declares to the summary.
    pub fn process_top_level_node(
        node: &SyntaxNode,
        exported: bool,
        language: SourceLanguage,
        summary: &mut FileDependencyNode,
    )
        ensures
            final(summary).deep_view() == with_node(
                old(summary).deep_view(),
                node@,
                exported,
                language,
            ),
        decreases node, 1nat,
    {
        let ghost before = summary.deep_view();
        match node_role(node.kind.as_str(), language) {
            NodeRole::Import => {
                let mut more: Vec<ImportEdge> = extract_imports(node, language);
                let ghost added = more.deep_view();
                summary.imports.append(&mut more);
                assert(summary.imports.deep_view() =~= before.imports + added);
            },
            NodeRole::Function => {
                if let Some(signature) = extract_function(node, language, exported) {
                    summary.functions.push(signature);
                    assert(summary.functions.deep_view() =~= before.functions.push(
                        signature.deep_view(),
                    ));
                }
            },
            NodeRole::Class => {
                Self::add_class(summary, extract_class(node, language, exported));
            },
            NodeRole::Variables => {
                let mut more: Vec<VariableBinding> = extract_variables(node, language, exported);
                let ghost added = more.deep_view();
                summary.variables.append(&mut more);
                assert(summary.variables.deep_view() =~= before.variables + added);
            },
            NodeRole::GoMethod => {
                Self::add_class(summary, extract_go_method(node));
            },
            NodeRole::GoTypes => {
                Self::add_go_types(summary, node);
            },
            NodeRole::Impl => {
                Self::add_class(summary, extract_rust_impl(node));
            },
            NodeRole::Wrapper => {
                Self::process_children(
                    node,
                    language.is_scripting() || exported,
                    language,
                    summary,
                );
            },
            NodeRole::Other => {},
        }
    }

    fn process_children(
        node: &SyntaxNode,
        exported: bool,
        language: SourceLanguage,
        summary: &mut FileDependencyNode,
    )
        ensures
            final(summary).deep_view() == with_nodes(
                old(summary).deep_view(),
                node@.children,
                exported,
                language,
            ),
        decreases node, 0nat,
    {
        let ghost before = summary.deep_view();
        let ghost all = node@.children;
        let mut i: usize = 0;
        assert(all.take(0) =~= Seq::empty());
        while i < node.children.len()
            invariant
                i <= node.children.len(),
                all == node@.children,
                summary.deep_view() == with_nodes(before, all.take(i as int), exported, language),
            decreases node.children.len() - i,
        {
            proof {
                assert(all.take(i as int + 1).drop_last() == all.take(i as int));
                assert(all.take(i as int + 1).last() == node.children@[i as int]@);
                assert(decreases_to!(*node => node.children));
                assert(decreases_to!(node.children => node.children@));
                assert(decreases_to!(node.children@ => node.children@[i as int]));
            }
            if node.children[i].named {
                Self::process_top_level_node(&node.children[i], exported, language, summary);
            }
            i += 1;
        }
        assert(all.take(all.len() as int) == all);
    }

    /// The summary of a file with the syntax tree.
    pub fn summarize(
        root_path: &str,
        file_path: &str,
        tree: &SyntaxNode,
        language: SourceLanguage,
    ) -> (res: FileDependencyNode)
        ensures
            res.deep_view() == summary_of(root_path@, file_path@, tree@, language),
    {
        let mut summary = FileDependencyNode::default();
        summary.path = FileIOSkill::normalize_path(root_path, file_path);
        summary.language = language.as_str().to_owned();
        Self::process_children(tree, false, language, &mut summary);
        let mut found: Vec<BranchDescriptor> = Vec::new();
        assert(found.deep_view() =~= Seq::empty());
        collect_branches(tree, language, &mut found);
        assert(Seq::empty() + branches::branches(tree@, language) =~= branches::branches(
            tree@,
            language,
        ));
        summary.branches = found;
        finalize_summary(summary)
    }

    /// Parses a source file and summarizes it.
    pub fn parse_file(root_path: &str, file_path: &str, source: &str, language: SourceLanguage) -> (res:
        Result<FileDependencyNode, Failure>)
        ensures
            parsed_file(root_path@, file_path@, source@, language) == match res {
                Ok(file) => Ok::<FileModel, Seq<Seq<char>>>(file.deep_view()),
                Err(error) => Err::<FileModel, Seq<Seq<char>>>(error@),
            },
    {
        match parse_source(source, language) {
            Ok(tree) => Ok(Self::summarize(root_path, file_path, &tree, language)),
            Err(SyntaxProblem::Grammar(error)) => {
                let mut message = "failed to load ".to_owned();
                message.append(language.as_str());
                message.append(" parser");
                Err(Failure::new(error).context(message))
            },
            Err(SyntaxProblem::NoTree) => {
                let mut message = "failed to parse ".to_owned();
                message.append(file_path);
                Err(Failure::new(message))
            },
        }
    }
}

// ---------------------------------------------------------------------------
// Code bases
// ---------------------------------------------------------------------------
/// The summaries of the files that are source text of a known language, or why the first one
/// could not be parsed.
pub open spec fn parsed_files(root_path: Seq<char>, files: Seq<ReadModel>) -> Result<
    Seq<FileModel>,
    Seq<Seq<char>>,
>
    decreases files.len(),
{
    if files.len() == 0 {
        Ok(Seq::empty())
    } else {
        match parsed_files(root_path, files.drop_last()) {
            Err(error) => Err(error),
            Ok(done) => match (
                syntax::language_of(files.last().path),
                file_io::text_in(files.last().bytes),
            ) {
                (Some(language), Some(source)) => match parsed_file(
                    root_path,
                    files.last().path,
                    source,
                    language,
                ) {
                    Ok(file) => Ok(done.push(file)),
                    Err(error) => Err(error),
                },
                _ => Ok(done),
            },
        }
    }
}

proof fn lemma_parse_error(root_path: Seq<char>, files: Seq<ReadModel>, i: int)
    requires
        0 <= i <= files.len(),
        parsed_files(root_path, files.take(i)) is Err,
    ensures
        parsed_files(root_path, files) == parsed_files(root_path, files.take(i)),
    decreases files.len() - i,
{
    if i < files.len() {
        assert(files.take(i + 1).drop_last() == files.take(i));
        lemma_parse_error(root_path, files, i + 1);
    } else {
        assert(files.take(i) == files);
    }
}

/// The message for a file of a language that cannot be parsed.
pub open spec fn unsupported_message(relative_path: Seq<char>) -> Seq<char> {
    "ASTParsingSkill does not support `"@ + relative_path + "`. Supported languages are "@
        + SUPPORTED_LABELS@
}

/// The graph of the files, which must not be empty.
pub open spec fn graph_of(root_path: Seq<char>, files: Seq<FileModel>) -> Result<
    GraphModel,
    Seq<Seq<char>>,
> {
    if files.len() == 0 {
        Err(
            failure::plain(
                "no supported source files ("@ + SUPPORTED_LABELS@
                    + ") found in legacy directory "@ + root_path,
            ),
        )
    } else {
        Ok(GraphModel { files })
    }
}

impl ASTParsingSkill {
    /// A selected file has to be of a language that can be parsed.
    pub fn check_supported(full_path: &str, relative_path: &str) -> (res: Result<(), Failure>)
        ensures
            if syntax::language_of(full_path@) is Some {
                res is Ok
            } else {
                res matches Err(error) && error@ == failure::plain(
                    unsupported_message(relative_path@),
                )
            },
    {
        match SourceLanguage::from_path(full_path) {
            Some(_) => Ok(()),
            None => {
                let mut message = "ASTParsingSkill does not support `".to_owned();
                message.append(relative_path);
                message.append("`. Supported languages are ");
                message.append(SourceLanguage::supported_labels());
                Err(Failure::new(message))
            },
        }
    }

    /// Summarizes the files that are source text of a known language.
    pub fn parse_files(root_path: &str, files: &Vec<ReadFile>) -> (res: Result<
        Vec<FileDependencyNode>,
        Failure,
    >)
        ensures
            parsed_files(root_path@, files.deep_view()) == match res {
                Ok(done) => Ok::<Seq<FileModel>, Seq<Seq<char>>>(done.deep_view()),
                Err(error) => Err::<Seq<FileModel>, Seq<Seq<char>>>(error@),
            },
    {
        let ghost all = files.deep_view();
        let mut done: Vec<FileDependencyNode> = Vec::new();
        let mut i: usize = 0;
        assert(all.take(0) =~= Seq::empty());
        assert(done.deep_view() =~= Seq::empty());
        while i < files.len()
            invariant
                i <= files.len(),
                all == files.deep_view(),
                parsed_files(root_path@, all.take(i as int)) == Ok::<
                    Seq<FileModel>,
                    Seq<Seq<char>>,
                >(done.deep_view()),
            decreases files.len() - i,
        {
            proof {
                assert(all.take(i as int + 1).drop_last() == all.take(i as int));
                assert(all.take(i as int + 1).last() == files@[i as int].deep_view());
            }
            let ghost before = done.deep_view();
            if let Some(language) = SourceLanguage::from_path(files[i].path.as_str()) {
                if let Some(source) = FileIOSkill::read_text_file(&files[i].bytes) {
                    match Self::parse_file(
                        root_path,
                        files[i].path.as_str(),
                        source.as_str(),
                        language,
                    ) {
                        Ok(file) => {
                            done.push(file);
                            assert(done.deep_view() =~= before.push(file.deep_view()));
                        },
                        Err(error) => {
                            proof {
                                lemma_parse_error(root_path@, all, i as int + 1);
                            }
                            return Err(error);
                        },
                    }
                }
            }
            i += 1;
        }
        assert(all.take(all.len() as int) == all);
        Ok(done)
    }

    /// The graph of a code base with the files.
    pub fn build_graph(root_path: &str, files: Vec<FileDependencyNode>) -> (res: Result<
        DependencyGraph,
        Failure,
    >)
        ensures
            graph_of(root_path@, files.deep_view()) == match res {
                Ok(found) => Ok::<GraphModel, Seq<Seq<char>>>(found.deep_view()),
                Err(error) => Err::<GraphModel, Seq<Seq<char>>>(error@),
            },
    {
        assert(files.deep_view().len() == files@.len());
        if files.len() == 0 {
            let mut message = "no supported source files (".to_owned();
            message.append(SourceLanguage::supported_labels());
            message.append(") found in legacy directory ");
            message.append(root_path);
            return Err(Failure::new(message));
        }
        Ok(DependencyGraph { files })
    }
}

/// Takes what came of reading a dependency graph from JSON: the graph, or the error with what
/// it is about.
pub fn parse_dependency_graph_json(outcome: Result<DependencyGraph, String>) -> (res: Result<
    DependencyGraph,
    Failure,
>)
    ensures
        match (outcome, res) {
            (Ok(found), Ok(given)) => given == found,
            (Err(cause), Err(error)) => error@ == failure::in_context(
                "failed to deserialize dependency graph JSON"@,
                failure::plain(cause@),
            ),
            _ => false,
        },
{
    match outcome {
        Ok(found) => Ok(found),
        Err(cause) => Err(
            Failure::new(cause).context("failed to deserialize dependency graph JSON".to_owned()),
        ),
    }
}

// ---------------------------------------------------------------------------
// Laws
// ---------------------------------------------------------------------------
/// Something that a summary can tell of a file.
pub enum Fact {
    Import(ImportModel),
    Function(FunctionModel),
    Variable(VariableModel),
    Class(Seq<char>),
    Method(Seq<char>, MethodModel),
}

/// The summary tells it.
pub open spec fn is_told(file: FileModel, fact: Fact) -> bool {
    match fact {
        Fact::Import(import) => file.imports.contains(import),
        Fact::Function(function) => file.functions.contains(function),
        Fact::Variable(variable) => file.variables.contains(variable),
        Fact::Class(name) => graph::has_class(file.classes, name),
        Fact::Method(name, method) => graph::has_method(file.classes, name, method),
    }
}

/// The node declares the class, or a part of it.
pub open spec fn declares_class(
    node: Tree,
    language: SourceLanguage,
    exported: bool,
    class: ClassModel,
) -> bool {
    match language {
        SourceLanguage::Python => node.kind == "class_definition"@ && declarations::class_of(
            node,
            language,
            exported,
        ) == Some(class),
        SourceLanguage::Go => {
            ||| node.kind == "method_declaration"@ && declarations::go_method_class(node) == Some(
                class,
            )
            ||| node.kind == "type_declaration"@ && declarations::go_types(
                node.children,
            ).contains(class)
        },
        SourceLanguage::Rust => {
            ||| (node.kind == "struct_item"@ || node.kind == "enum_item"@ || node.kind
                == "trait_item"@) && declarations::class_of(node, language, exported) == Some(class)
            ||| node.kind == "impl_item"@ && declarations::impl_class(node) == Some(class)
        },
        _ => node.kind == "class_declaration"@ && declarations::class_of(node, language, exported)
            == Some(class),
    }
}

/// The node itself declares it.
pub open spec fn declares(
    node: Tree,
    language: SourceLanguage,
    exported: bool,
    fact: Fact,
) -> bool {
    match fact {
        Fact::Import(import) => imports::imports_of(node, language).contains(import)
            && match language {
            SourceLanguage::Python => node.kind == "import_statement"@ || node.kind
                == "import_from_statement"@,
            SourceLanguage::Go => node.kind == "import_declaration"@,
            SourceLanguage::Rust => node.kind == "use_declaration"@,
            _ => node.kind == "import_statement"@,
        },
        Fact::Function(function) => declarations::function_of(node, language, exported) == Some(
            function,
        ) && match language {
            SourceLanguage::Python => node.kind == "function_definition"@ || node.kind
                == "async_function_definition"@,
            SourceLanguage::Rust => node.kind == "function_item"@,
            _ => node.kind == "function_declaration"@,
        },
        Fact::Variable(variable) => declarations::variables_of(
            node,
            language,
            exported,
        ).contains(variable) && match language {
            SourceLanguage::Python => node.kind == "assignment"@ || node.kind
                == "augmented_assignment"@ || node.kind == "annotated_assignment"@,
            SourceLanguage::Go => node.kind == "var_declaration"@ || node.kind
                == "const_declaration"@,
            SourceLanguage::Rust => node.kind == "const_item"@ || node.kind == "static_item"@,
            _ => node.kind == "lexical_declaration"@ || node.kind == "variable_declaration"@,
        },
        Fact::Class(name) => exists|class: ClassModel| #[trigger]
            declares_class(node, language, exported, class) && class.name == name,
        Fact::Method(name, method) => exists|class: ClassModel| #[trigger]
            declares_class(node, language, exported, class) && class.name == name
                && class.methods.contains(method),
    }
}

/// The node only holds declarations: it decorates them, exports them or makes a statement of them.
pub open spec fn holds_declarations(kind: Seq<char>, language: SourceLanguage) -> bool {
    match language {
        SourceLanguage::Python => kind == "decorated_definition"@ || kind
            == "expression_statement"@,
        SourceLanguage::Go => false,
        SourceLanguage::Rust => false,
        _ => kind == "export_statement"@,
    }
}

/// The positions lead from the list, through named nodes that only hold declarations, to a node
/// that declares it. Scripts export what stands in such a node.
pub open spec fn leads_to_fact(
    nodes: Seq<Tree>,
    path: Seq<int>,
    language: SourceLanguage,
    exported: bool,
    fact: Fact,
) -> bool
    decreases path.len(),
{
    &&& path.len() > 0
    &&& 0 <= path[0] < nodes.len()
    &&& nodes[path[0]].named
    &&& if path.len() == 1 {
        declares(nodes[path[0]], language, exported, fact)
    } else {
        &&& holds_declarations(nodes[path[0]].kind, language)
        &&& leads_to_fact(
            nodes[path[0]].children,
            path.drop_first(),
            language,
            exported || language.is_script(),
            fact,
        )
    }
}

/// The summary of a file tells exactly of the imports, functions, variables, classes and methods
/// that its tree declares at the top level, of the branches of the whole tree, and of nothing
/// else.
pub proof fn lemma_summary(
    root_path: Seq<char>,
    file_path: Seq<char>,
    tree: Tree,
    language: SourceLanguage,
)
    ensures
        ({
            let file = summary_of(root_path, file_path, tree, language);
            &&& file.path == path::relative_to(root_path, file_path)
            &&& file.language == language.label()
            &&& forall|fact: Fact| #[trigger]
                is_told(file, fact) <==> exists|path: Seq<int>|
                    leads_to_fact(tree.children, path, language, false, fact)
            &&& forall|branch: BranchModel| #[trigger]
                file.branches.contains(branch) <==> branches::branches(tree, language).contains(
                    branch,
                )
        }),
{
    let start = FileModel {
        path: path::relative_to(root_path, file_path),
        language: language.label(),
        ..FileModel::blank()
    };
    let declared = with_nodes(start, tree.children, false, language);
    let untidy = FileModel { branches: branches::branches(tree, language), ..declared };
    let file = summary_of(root_path, file_path, tree, language);
    graph::lemma_tidy_file(untidy);
    lemma_kept(start, tree.children, false, language);
    assert forall|fact: Fact| #[trigger]
        is_told(file, fact) <==> exists|path: Seq<int>|
            leads_to_fact(tree.children, path, language, false, fact) by {
        assert(!is_told(start, fact));
        lemma_told(start, tree.children, false, language, fact);
        assert(is_told(file, fact) <==> is_told(untidy, fact));
        assert(is_told(untidy, fact) <==> is_told(declared, fact));
    }
}

proof fn lemma_kept(
    file: FileModel,
    nodes: Seq<Tree>,
    exported: bool,
    language: SourceLanguage,
)
    ensures
        with_nodes(file, nodes, exported, language).path == file.path,
        with_nodes(file, nodes, exported, language).language == file.language,
    decreases nodes,
{
    if nodes.len() > 0 {
        lemma_kept(file, nodes.drop_last(), exported, language);
        let before = with_nodes(file, nodes.drop_last(), exported, language);
        let node = nodes.last();
        if node.named && role_of(node.kind, language) == NodeRole::Wrapper {
            let inside = exported_inside(language, exported);
            lemma_kept(before, node.children, inside, language);
            assert(with_node(before, node, exported, language) == with_nodes(
                before,
                node.children,
                inside,
                language,
            ));
        } else if node.named {
            let after = with_node(before, node, exported, language);
            assert(after.path == before.path && after.language == before.language);
        }
    }
}

proof fn lemma_told(
    file: FileModel,
    nodes: Seq<Tree>,
    exported: bool,
    language: SourceLanguage,
    fact: Fact,
)
    ensures
        is_told(with_nodes(file, nodes, exported, language), fact) <==> is_told(file, fact)
            || exists|path: Seq<int>| leads_to_fact(nodes, path, language, exported, fact),
    decreases nodes,
{
    let all = with_nodes(file, nodes, exported, language);
    if nodes.len() > 0 {
        let rest = nodes.drop_last();
        let node = nodes.last();
        let n = nodes.len() - 1;
        let before = with_nodes(file, rest, exported, language);
        lemma_told(file, rest, exported, language, fact);
        let inside = exported || language.is_script();
        if node.named {
            lemma_roles(node.kind, language);
            if role_of(node.kind, language) == NodeRole::Wrapper {
                assert(inside == exported_inside(language, exported));
                lemma_told(before, node.children, inside, language, fact);
                assert(with_node(before, node, exported, language) == with_nodes(
                    before,
                    node.children,
                    inside,
                    language,
                ));
            } else {
                lemma_declared(before, node, exported, language, fact);
            }
            lemma_wrapper_declares_nothing(node, exported, language, fact);
        }
        if exists|path: Seq<int>| leads_to_fact(rest, path, language, exported, fact) {
            let path = choose|path: Seq<int>|
                leads_to_fact(rest, path, language, exported, fact);
            assert(nodes[path[0]] == rest[path[0]]);
            assert(leads_to_fact(nodes, path, language, exported, fact));
        }
        if is_told(all, fact) && !is_told(before, fact) {
            assert(node.named);
            if role_of(node.kind, language) == NodeRole::Wrapper {
                let path = choose|path: Seq<int>|
                    leads_to_fact(node.children, path, language, inside, fact);
                let longer = seq![n] + path;
                assert(longer.drop_first() =~= path);
                assert(leads_to_fact(nodes, longer, language, exported, fact));
            } else {
                assert(leads_to_fact(nodes, seq![n], language, exported, fact));
            }
        }
        if exists|path: Seq<int>| leads_to_fact(nodes, path, language, exported, fact) {
            let path = choose|path: Seq<int>|
                leads_to_fact(nodes, path, language, exported, fact);
            if path[0] < n {
                assert(nodes[path[0]] == rest[path[0]]);
                assert(leads_to_fact(rest, path, language, exported, fact));
                assert(is_told(before, fact));
            } else {
                assert(nodes[path[0]] == node);
                if path.len() > 1 {
                    assert(leads_to_fact(
                        node.children,
                        path.drop_first(),
                        language,
                        inside,
                        fact,
                    ));
                }
            }
            assert(is_told(all, fact)) by {
                if node.named && role_of(node.kind, language) != NodeRole::Wrapper {
                    lemma_declared(before, node, exported, language, fact);
                }
            }
        }
    }
}

proof fn lemma_wrapper_declares_nothing(
    node: Tree,
    exported: bool,
    language: SourceLanguage,
    fact: Fact,
)
    ensures
        role_of(node.kind, language) == NodeRole::Wrapper ==> !declares(
            node,
            language,
            exported,
            fact,
        ),
{
    lemma_roles(node.kind, language);
}

proof fn lemma_declared(
    file: FileModel,
    node: Tree,
    exported: bool,
    language: SourceLanguage,
    fact: Fact,
)
    requires
        role_of(node.kind, language) != NodeRole::Wrapper,
    ensures
        is_told(with_node(file, node, exported, language), fact) <==> is_told(file, fact)
            || declares(node, language, exported, fact),
{
    let all = with_node(file, node, exported, language);
    lemma_roles(node.kind, language);
    match role_of(node.kind, language) {
        NodeRole::Import => {
            let more = imports::imports_of(node, language);
            if let Fact::Import(import) = fact {
                lemma_in_parts(file.imports, more, import);
            }
        },
        NodeRole::Function => {
            if let Some(f) = declarations::function_of(node, language, exported) {
                if let Fact::Function(function) = fact {
                    assert(file.functions.push(f) =~= file.functions + seq![f]);
                    lemma_in_parts(file.functions, seq![f], function);
                    assert(seq![f].contains(function) <==> f == function) by {
                        assert(seq![f][0] == f);
                    }
                }
            }
        },
        NodeRole::Variables => {
            let more = declarations::variables_of(node, language, exported);
            if let Fact::Variable(variable) = fact {
                lemma_in_parts(file.variables, more, variable);
            }
        },
        NodeRole::Class => {
            lemma_class_told(
                file,
                node,
                exported,
                language,
                declarations::class_of(node, language, exported),
                fact,
            );
        },
        NodeRole::GoMethod => {
            lemma_class_told(
                file,
                node,
                exported,
                language,
                declarations::go_method_class(node),
                fact,
            );
        },
        NodeRole::Impl => {
            lemma_class_told(
                file,
                node,
                exported,
                language,
                declarations::impl_class(node),
                fact,
            );
        },
        NodeRole::GoTypes => {
            let more = declarations::go_types(node.children);
            match fact {
                Fact::Class(name) => {
                    lemma_with_classes(file.classes, more, name, MethodModel::blank());
                    if exists|k: int| 0 <= k < more.len() && (#[trigger] more[k]).name == name {
                        let k = choose|k: int|
                            0 <= k < more.len() && (#[trigger] more[k]).name == name;
                        assert(more.contains(more[k]));
                        assert(declares_class(node, language, exported, more[k]));
                    }
                    if declares(node, language, exported, fact) {
                        let class = choose|class: ClassModel| #[trigger]
                            declares_class(node, language, exported, class) && class.name == name;
                        assert(more.contains(class));
                        let k = choose|k: int| 0 <= k < more.len() && more[k] == class;
                        assert(more[k].name == name);
                    }
                },
                Fact::Method(name, method) => {
                    lemma_with_classes(file.classes, more, name, method);
                    if exists|k: int|
                        0 <= k < more.len() && (#[trigger] more[k]).name == name
                            && more[k].methods.contains(method) {
                        let k = choose|k: int|
                            0 <= k < more.len() && (#[trigger] more[k]).name == name
                                && more[k].methods.contains(method);
                        assert(more.contains(more[k]));
                        assert(declares_class(node, language, exported, more[k]));
                    }
                    if declares(node, language, exported, fact) {
                        let class = choose|class: ClassModel| #[trigger]
                            declares_class(node, language, exported, class) && class.name == name
                                && class.methods.contains(method);
                        assert(more.contains(class));
                        let k = choose|k: int| 0 <= k < more.len() && more[k] == class;
                        assert(more[k].name == name && more[k].methods.contains(method));
                    }
                },
                _ => {},
            }
        },
        _ => {},
    }
}

proof fn lemma_in_parts<A>(a: Seq<A>, b: Seq<A>, x: A)
    ensures
        (a + b).contains(x) <==> a.contains(x) || b.contains(x),
{
    if a.contains(x) {
        let k = choose|k: int| 0 <= k < a.len() && a[k] == x;
        assert((a + b)[k] == x);
    }
    if b.contains(x) {
        let k = choose|k: int| 0 <= k < b.len() && b[k] == x;
        assert((a + b)[k + a.len()] == x);
    }
    if (a + b).contains(x) {
        let k = choose|k: int| 0 <= k < (a + b).len() && (a + b)[k] == x;
        if k < a.len() {
            assert(a[k] == x);
        } else {
            assert(b[k - a.len()] == x);
        }
    }
}

proof fn lemma_class_told(
    file: FileModel,
    node: Tree,
    exported: bool,
    language: SourceLanguage,
    class: Option<ClassModel>,
    fact: Fact,
)
    requires
        forall|c: ClassModel| #[trigger]
            declares_class(node, language, exported, c) <==> class == Some(c),
        fact is Import || fact is Function || fact is Variable ==> !declares(
            node,
            language,
            exported,
            fact,
        ),
    ensures
        is_told(with_class_of(file, class), fact) <==> is_told(file, fact) || declares(
            node,
            language,
            exported,
            fact,
        ),
{
    if let Some(c) = class {
        assert(declares_class(node, language, exported, c));
        graph::lemma_with_class(file.classes, c);
    }
}

proof fn lemma_with_classes(
    classes: Seq<ClassModel>,
    more: Seq<ClassModel>,
    name: Seq<char>,
    method: MethodModel,
)
    ensures
        graph::has_class(with_classes(classes, more), name) <==> graph::has_class(classes, name)
            || exists|k: int| 0 <= k < more.len() && (#[trigger] more[k]).name == name,
        graph::has_method(with_classes(classes, more), name, method) <==> graph::has_method(
            classes,
            name,
            method,
        ) || exists|k: int|
            0 <= k < more.len() && (#[trigger] more[k]).name == name && more[k].methods.contains(
                method,
            ),
    decreases more.len(),
{
    if more.len() > 0 {
        let rest = more.drop_last();
        let last = more.last();
        let n = more.len() - 1;
        lemma_with_classes(classes, rest, name, method);
        graph::lemma_with_class(with_classes(classes, rest), last);
        assert(more[n] == last);
        if exists|k: int| 0 <= k < rest.len() && (#[trigger] rest[k]).name == name {
            let k = choose|k: int| 0 <= k < rest.len() && (#[trigger] rest[k]).name == name;
            assert(more[k].name == name);
        }
        if exists|k: int| 0 <= k < more.len() && (#[trigger] more[k]).name == name {
            let k = choose|k: int| 0 <= k < more.len() && (#[trigger] more[k]).name == name;
            if k < n {
                assert(rest[k].name == name);
            }
        }
        if exists|k: int|
            0 <= k < rest.len() && (#[trigger] rest[k]).name == name && rest[k].methods.contains(
                method,
            ) {
            let k = choose|k: int|
                0 <= k < rest.len() && (#[trigger] rest[k]).name == name
                    && rest[k].methods.contains(method);
            assert(more[k].name == name && more[k].methods.contains(method));
        }
        if exists|k: int|
            0 <= k < more.len() && (#[trigger] more[k]).name == name && more[k].methods.contains(
                method,
            ) {
            let k = choose|k: int|
                0 <= k < more.len() && (#[trigger] more[k]).name == name
                    && more[k].methods.contains(method);
            if k < n {
                assert(rest[k].name == name && rest[k].methods.contains(method));
            }
        }
    }
}

proof fn lemma_roles(kind: Seq<char>, language: SourceLanguage)
    ensures
        role_of(kind, language) == NodeRole::Wrapper <==> holds_declarations(kind, language),
        language == SourceLanguage::Python ==> {
            &&& role_of(kind, language) == NodeRole::Import <==> kind == "import_statement"@
                || kind == "import_from_statement"@
            &&& role_of(kind, language) == NodeRole::Function <==> kind == "function_definition"@
                || kind == "async_function_definition"@
            &&& role_of(kind, language) == NodeRole::Class <==> kind == "class_definition"@
            &&& role_of(kind, language) == NodeRole::Variables <==> kind == "assignment"@ || kind
                == "augmented_assignment"@ || kind == "annotated_assignment"@
        },
        language == SourceLanguage::Go ==> {
            &&& role_of(kind, language) == NodeRole::Import <==> kind == "import_declaration"@
            &&& role_of(kind, language) == NodeRole::Function <==> kind
                == "function_declaration"@
            &&& role_of(kind, language) == NodeRole::GoMethod <==> kind == "method_declaration"@
            &&& role_of(kind, language) == NodeRole::GoTypes <==> kind == "type_declaration"@
            &&& role_of(kind, language) == NodeRole::Variables <==> kind == "var_declaration"@
                || kind == "const_declaration"@
        },
        language == SourceLanguage::Rust ==> {
            &&& role_of(kind, language) == NodeRole::Import <==> kind == "use_declaration"@
            &&& role_of(kind, language) == NodeRole::Function <==> kind == "function_item"@
            &&& role_of(kind, language) == NodeRole::Class <==> kind == "struct_item"@ || kind
                == "enum_item"@ || kind == "trait_item"@
            &&& role_of(kind, language) == NodeRole::Impl <==> kind == "impl_item"@
            &&& role_of(kind, language) == NodeRole::Variables <==> kind == "const_item"@ || kind
                == "static_item"@
        },
        language.is_script() ==> {
            &&& role_of(kind, language) == NodeRole::Import <==> kind == "import_statement"@
            &&& role_of(kind, language) == NodeRole::Function <==> kind
                == "function_declaration"@
            &&& role_of(kind, language) == NodeRole::Class <==> kind == "class_declaration"@
            &&& role_of(kind, language) == NodeRole::Variables <==> kind
                == "lexical_declaration"@ || kind == "variable_declaration"@
        },
{
    reveal_strlit("import_statement");
    reveal_strlit("import_from_statement");
    reveal_strlit("function_definition");
    reveal_strlit("async_function_definition");
    reveal_strlit("class_definition");
    reveal_strlit("assignment");
    reveal_strlit("augmented_assignment");
    reveal_strlit("annotated_assignment");
    reveal_strlit("decorated_definition");
    reveal_strlit("expression_statement");
    reveal_strlit("import_declaration");
    reveal_strlit("function_declaration");
    reveal_strlit("method_declaration");
    reveal_strlit("type_declaration");
    reveal_strlit("var_declaration");
    reveal_strlit("const_declaration");
    reveal_strlit("use_declaration");
    reveal_strlit("function_item");
    reveal_strlit("struct_item");
    reveal_strlit("enum_item");
    reveal_strlit("trait_item");
    reveal_strlit("impl_item");
    reveal_strlit("const_item");
    reveal_strlit("static_item");
    reveal_strlit("class_declaration");
    reveal_strlit("lexical_declaration");
    reveal_strlit("variable_declaration");
    reveal_strlit("export_statement");
    assert("import_statement"@.len() == 16);
    assert("import_from_statement"@.len() == 21);
    assert("function_definition"@.len() == 19);
    assert("async_function_definition"@.len() == 25);
    assert("class_definition"@.len() == 16);
    assert("assignment"@.len() == 10);
    assert("augmented_assignment"@.len() == 20);
    assert("annotated_assignment"@.len() == 20);
    assert("decorated_definition"@.len() == 20);
    assert("expression_statement"@.len() == 20);
    assert("import_declaration"@.len() == 18);
    assert("function_declaration"@.len() == 20);
    assert("method_declaration"@.len() == 18);
    assert("type_declaration"@.len() == 16);
    assert("var_declaration"@.len() == 15);
    assert("const_declaration"@.len() == 17);
    assert("use_declaration"@.len() == 15);
    assert("function_item"@.len() == 13);
    assert("struct_item"@.len() == 11);
    assert("enum_item"@.len() == 9);
    assert("trait_item"@.len() == 10);
    assert("impl_item"@.len() == 9);
    assert("const_item"@.len() == 10);
    assert("static_item"@.len() == 11);
    assert("class_declaration"@.len() == 17);
    assert("lexical_declaration"@.len() == 19);
    assert("variable_declaration"@.len() == 20);
    assert("export_statement"@.len() == 16);
    assert("class_definition"@[0] == 'c');
    assert("import_statement"@[0] == 'i');
    assert("augmented_assignment"@[0] == 'a');
    assert("annotated_assignment"@[0] == 'a');
    assert("decorated_definition"@[0] == 'd');
    assert("expression_statement"@[0] == 'e');
    assert("import_declaration"@[0] == 'i');
    assert("method_declaration"@[0] == 'm');
    assert("struct_item"@[2] == 'r');
    assert("static_item"@[2] == 'a');
    assert("enum_item"@[0] == 'e');
    assert("impl_item"@[0] == 'i');
    assert("trait_item"@[0] == 't');
    assert("const_item"@[0] == 'c');
    assert("function_declaration"@[0] == 'f');
    assert("variable_declaration"@[0] == 'v');
    assert("export_statement"@[0] == 'e');
}

/// The summaries of two lists of files are those of the one and those of the other.
pub proof fn lemma_parsed_files_of_parts(
    root_path: Seq<char>,
    a: Seq<ReadModel>,
    b: Seq<ReadModel>,
)
    ensures
        parsed_files(root_path, a) is Err ==> parsed_files(root_path, a + b) is Err,
        parsed_files(root_path, a) is Ok && parsed_files(root_path, b) is Ok ==> parsed_files(
            root_path,
            a + b,
        ) == Ok::<Seq<FileModel>, Seq<Seq<char>>>(
            parsed_files(root_path, a)->Ok_0 + parsed_files(root_path, b)->Ok_0,
        ),
        parsed_files(root_path, a) is Ok && parsed_files(root_path, b) is Err ==> parsed_files(
            root_path,
            a + b,
        ) is Err,
    decreases b.len(),
{
    if b.len() == 0 {
        assert(a + b =~= a);
        if parsed_files(root_path, a) is Ok {
            assert(parsed_files(root_path, a)->Ok_0 + Seq::empty() =~= parsed_files(
                root_path,
                a,
            )->Ok_0);
        }
    } else {
        lemma_parsed_files_of_parts(root_path, a, b.drop_last());
        assert((a + b).drop_last() =~= a + b.drop_last());
        assert((a + b).last() == b.last());
    }
}

/// A file is summarised exactly where it is text of a known language.
pub proof fn lemma_parsed_files_of_one(root_path: Seq<char>, file: ReadModel)
    ensures
        ({
            let files = parsed_files(root_path, seq![file]);
            match (syntax::language_of(file.path), file_io::text_in(file.bytes)) {
                (Some(language), Some(source)) => {
                    let parsed = parsed_file(root_path, file.path, source, language);
                    &&& files is Ok <==> parsed is Ok
                    &&& files is Ok ==> files->Ok_0 == seq![parsed->Ok_0]
                },
                _ => files is Ok && files->Ok_0.len() == 0,
            }
        }),
{
    assert(seq![file].drop_last() =~= Seq::<ReadModel>::empty());
    assert(parsed_files(root_path, Seq::<ReadModel>::empty()) == Ok::<
        Seq<FileModel>,
        Seq<Seq<char>>,
    >(Seq::empty()));
}

} // verus!
