//! The dependency graph of a code base, and how two of them differ.
use crate::compose;
use crate::compose::join_list;
use crate::order;
use crate::skills::ordering;
use crate::skills::ordering::{
    arrange, push_bool_key, push_option_key, push_text_key, push_texts_key, Keyed,
};
use crate::text::{copy_list, same};
use vstd::prelude::*;

verus! {

// ---------------------------------------------------------------------------
// Copies
// ---------------------------------------------------------------------------
/// What can be copied with all that it holds.
pub trait Replica: DeepView + Sized {
    fn replica(&self) -> (res: Self)
        ensures
            res.deep_view() == self.deep_view(),
    ;
}

pub fn copy_all<T: Replica>(items: &[T]) -> (res: Vec<T>)
    ensures
        res.deep_view() == items.deep_view(),
{
    let mut out: Vec<T> = Vec::new();
    let mut i: usize = 0;
    while i < items.len()
        invariant
            i <= items.len(),
            out@.len() == i,
            forall|j: int| 0 <= j < i ==> (#[trigger] out@[j]).deep_view() == items@[j].deep_view(),
        decreases items.len() - i,
    {
        out.push(items[i].replica());
        i += 1;
    }
    assert(out.deep_view() =~= items.deep_view());
    out
}

pub fn copy_option(value: &Option<String>) -> (res: Option<String>)
    ensures
        res.deep_view() == value.deep_view(),
{
    match value {
        Some(s) => Some(s.clone()),
        None => None,
    }
}

// ---------------------------------------------------------------------------
// Types
// ---------------------------------------------------------------------------
/// An import: where it comes from, what it brings, and how.
#[derive(Debug, PartialEq, Eq, PartialOrd, Ord, Hash)]
pub struct ImportEdge {
    pub source: String,
    pub names: Vec<String>,
    pub kind: String,
}

#[verifier::ext_equal]
pub struct ImportModel {
    pub source: Seq<char>,
    pub names: Seq<Seq<char>>,
    pub kind: Seq<char>,
}

impl DeepView for ImportEdge {
    type V = ImportModel;

    open spec fn deep_view(&self) -> ImportModel {
        ImportModel {
            source: self.source@,
            names: self.names.deep_view(),
            kind: self.kind@,
        }
    }
}

impl ImportModel {
    pub open spec fn blank() -> ImportModel {
        ImportModel {
            source: Seq::empty(),
            names: Seq::empty(),
            kind: Seq::empty(),
        }
    }
}

impl Default for ImportEdge {
    fn default() -> (res: Self)
        ensures
            res.deep_view() == ImportModel::blank(),
    {
        let res = ImportEdge {
            source: String::new(),
            names: Vec::new(),
            kind: String::new(),
        };
        assert(res.names.deep_view() =~= Seq::empty());
        assert(res.source@ =~= Seq::empty());
        assert(res.kind@ =~= Seq::empty());
        res
    }
}

impl Clone for ImportEdge {
    fn clone(&self) -> (res: Self)
        ensures
            res.deep_view() == self.deep_view(),
    {
        ImportEdge {
            source: self.source.clone(),
            names: copy_list(self.names.as_slice()),
            kind: self.kind.clone(),
        }
    }
}

impl Replica for ImportEdge {
    fn replica(&self) -> (res: Self) {
        self.clone()
    }
}

/// A function at the top level of a file.
#[derive(Debug, PartialEq, Eq, PartialOrd, Ord, Hash)]
pub struct FunctionSignature {
    pub name: String,
    pub parameters: Vec<String>,
    pub is_async: bool,
    pub is_generator: bool,
    pub return_type: Option<String>,
    pub exported: bool,
}

#[verifier::ext_equal]
pub struct FunctionModel {
    pub name: Seq<char>,
    pub parameters: Seq<Seq<char>>,
    pub is_async: bool,
    pub is_generator: bool,
    pub return_type: Option<Seq<char>>,
    pub exported: bool,
}

impl DeepView for FunctionSignature {
    type V = FunctionModel;

    open spec fn deep_view(&self) -> FunctionModel {
        FunctionModel {
            name: self.name@,
            parameters: self.parameters.deep_view(),
            is_async: self.is_async,
            is_generator: self.is_generator,
            return_type: self.return_type.deep_view(),
            exported: self.exported,
        }
    }
}

impl FunctionModel {
    pub open spec fn blank() -> FunctionModel {
        FunctionModel {
            name: Seq::empty(),
            parameters: Seq::empty(),
            is_async: false,
            is_generator: false,
            return_type: None,
            exported: false,
        }
    }
}

impl Default for FunctionSignature {
    fn default() -> (res: Self)
        ensures
            res.deep_view() == FunctionModel::blank(),
    {
        let res = FunctionSignature {
            name: String::new(),
            parameters: Vec::new(),
            is_async: false,
            is_generator: false,
            return_type: None,
            exported: false,
        };
        assert(res.parameters.deep_view() =~= Seq::empty());
        assert(res.name@ =~= Seq::empty());
        res
    }
}

impl Clone for FunctionSignature {
    fn clone(&self) -> (res: Self)
        ensures
            res.deep_view() == self.deep_view(),
    {
        FunctionSignature {
            name: self.name.clone(),
            parameters: copy_list(self.parameters.as_slice()),
            is_async: self.is_async,
            is_generator: self.is_generator,
            return_type: copy_option(&self.return_type),
            exported: self.exported,
        }
    }
}

impl Replica for FunctionSignature {
    fn replica(&self) -> (res: Self) {
        self.clone()
    }
}

/// A method of a class.
#[derive(Debug, PartialEq, Eq, PartialOrd, Ord, Hash)]
pub struct MethodSignature {
    pub name: String,
    pub parameters: Vec<String>,
    pub is_async: bool,
}

#[verifier::ext_equal]
pub struct MethodModel {
    pub name: Seq<char>,
    pub parameters: Seq<Seq<char>>,
    pub is_async: bool,
}

impl DeepView for MethodSignature {
    type V = MethodModel;

    open spec fn deep_view(&self) -> MethodModel {
        MethodModel {
            name: self.name@,
            parameters: self.parameters.deep_view(),
            is_async: self.is_async,
        }
    }
}

impl MethodModel {
    pub open spec fn blank() -> MethodModel {
        MethodModel {
            name: Seq::empty(),
            parameters: Seq::empty(),
            is_async: false,
        }
    }
}

impl Default for MethodSignature {
    fn default() -> (res: Self)
        ensures
            res.deep_view() == MethodModel::blank(),
    {
        let res = MethodSignature {
            name: String::new(),
            parameters: Vec::new(),
            is_async: false,
        };
        assert(res.parameters.deep_view() =~= Seq::empty());
        assert(res.name@ =~= Seq::empty());
        res
    }
}

impl Clone for MethodSignature {
    fn clone(&self) -> (res: Self)
        ensures
            res.deep_view() == self.deep_view(),
    {
        MethodSignature {
            name: self.name.clone(),
            parameters: copy_list(self.parameters.as_slice()),
            is_async: self.is_async,
        }
    }
}

impl Replica for MethodSignature {
    fn replica(&self) -> (res: Self) {
        self.clone()
    }
}

/// A class, or what the language has in its place.
#[derive(Debug, PartialEq, Eq, PartialOrd, Ord, Hash)]
pub struct ClassDefinition {
    pub name: String,
    pub extends: Option<String>,
    pub methods: Vec<MethodSignature>,
    pub exported: bool,
}

#[verifier::ext_equal]
pub struct ClassModel {
    pub name: Seq<char>,
    pub extends: Option<Seq<char>>,
    pub methods: Seq<MethodModel>,
    pub exported: bool,
}

impl DeepView for ClassDefinition {
    type V = ClassModel;

    open spec fn deep_view(&self) -> ClassModel {
        ClassModel {
            name: self.name@,
            extends: self.extends.deep_view(),
            methods: self.methods.deep_view(),
            exported: self.exported,
        }
    }
}

impl ClassModel {
    pub open spec fn blank() -> ClassModel {
        ClassModel {
            name: Seq::empty(),
            extends: None,
            methods: Seq::empty(),
            exported: false,
        }
    }
}

impl Default for ClassDefinition {
    fn default() -> (res: Self)
        ensures
            res.deep_view() == ClassModel::blank(),
    {
        let res = ClassDefinition {
            name: String::new(),
            extends: None,
            methods: Vec::new(),
            exported: false,
        };
        assert(res.methods.deep_view() =~= Seq::empty());
        assert(res.name@ =~= Seq::empty());
        res
    }
}

impl Clone for ClassDefinition {
    fn clone(&self) -> (res: Self)
        ensures
            res.deep_view() == self.deep_view(),
    {
        ClassDefinition {
            name: self.name.clone(),
            extends: copy_option(&self.extends),
            methods: copy_all(self.methods.as_slice()),
            exported: self.exported,
        }
    }
}

impl Replica for ClassDefinition {
    fn replica(&self) -> (res: Self) {
        self.clone()
    }
}

/// A variable or a constant at the top level of a file.
#[derive(Debug, PartialEq, Eq, PartialOrd, Ord, Hash)]
pub struct VariableBinding {
    pub name: String,
    pub declaration_kind: String,
    pub value_kind: Option<String>,
    pub exported: bool,
}

#[verifier::ext_equal]
pub struct VariableModel {
    pub name: Seq<char>,
    pub declaration_kind: Seq<char>,
    pub value_kind: Option<Seq<char>>,
    pub exported: bool,
}

impl DeepView for VariableBinding {
    type V = VariableModel;

    open spec fn deep_view(&self) -> VariableModel {
        VariableModel {
            name: self.name@,
            declaration_kind: self.declaration_kind@,
            value_kind: self.value_kind.deep_view(),
            exported: self.exported,
        }
    }
}

impl VariableModel {
    pub open spec fn blank() -> VariableModel {
        VariableModel {
            name: Seq::empty(),
            declaration_kind: Seq::empty(),
            value_kind: None,
            exported: false,
        }
    }
}

impl Default for VariableBinding {
    fn default() -> (res: Self)
        ensures
            res.deep_view() == VariableModel::blank(),
    {
        let res = VariableBinding {
            name: String::new(),
            declaration_kind: String::new(),
            value_kind: None,
            exported: false,
        };
        assert(res.name@ =~= Seq::empty());
        assert(res.declaration_kind@ =~= Seq::empty());
        res
    }
}

impl Clone for VariableBinding {
    fn clone(&self) -> (res: Self)
        ensures
            res.deep_view() == self.deep_view(),
    {
        VariableBinding {
            name: self.name.clone(),
            declaration_kind: self.declaration_kind.clone(),
            value_kind: copy_option(&self.value_kind),
            exported: self.exported,
        }
    }
}

impl Replica for VariableBinding {
    fn replica(&self) -> (res: Self) {
        self.clone()
    }
}

/// A place at which the control flow branches.
#[derive(Debug, PartialEq, Eq, PartialOrd, Ord, Hash)]
pub struct BranchDescriptor {
    pub kind: String,
    pub condition: String,
}

#[verifier::ext_equal]
pub struct BranchModel {
    pub kind: Seq<char>,
    pub condition: Seq<char>,
}

impl DeepView for BranchDescriptor {
    type V = BranchModel;

    open spec fn deep_view(&self) -> BranchModel {
        BranchModel {
            kind: self.kind@,
            condition: self.condition@,
        }
    }
}

impl BranchModel {
    pub open spec fn blank() -> BranchModel {
        BranchModel {
            kind: Seq::empty(),
            condition: Seq::empty(),
        }
    }
}

impl Default for BranchDescriptor {
    fn default() -> (res: Self)
        ensures
            res.deep_view() == BranchModel::blank(),
    {
        let res = BranchDescriptor {
            kind: String::new(),
            condition: String::new(),
        };
        assert(res.kind@ =~= Seq::empty());
        assert(res.condition@ =~= Seq::empty());
        res
    }
}

impl Clone for BranchDescriptor {
    fn clone(&self) -> (res: Self)
        ensures
            res.deep_view() == self.deep_view(),
    {
        BranchDescriptor {
            kind: self.kind.clone(),
            condition: self.condition.clone(),
        }
    }
}

impl Replica for BranchDescriptor {
    fn replica(&self) -> (res: Self) {
        self.clone()
    }
}

/// What a source file imports and declares.
#[derive(Debug)]
pub struct FileDependencyNode {
    pub path: String,
    pub language: String,
    pub imports: Vec<ImportEdge>,
    pub functions: Vec<FunctionSignature>,
    pub classes: Vec<ClassDefinition>,
    pub variables: Vec<VariableBinding>,
    pub branches: Vec<BranchDescriptor>,
}

#[verifier::ext_equal]
pub struct FileModel {
    pub path: Seq<char>,
    pub language: Seq<char>,
    pub imports: Seq<ImportModel>,
    pub functions: Seq<FunctionModel>,
    pub classes: Seq<ClassModel>,
    pub variables: Seq<VariableModel>,
    pub branches: Seq<BranchModel>,
}

impl DeepView for FileDependencyNode {
    type V = FileModel;

    open spec fn deep_view(&self) -> FileModel {
        FileModel {
            path: self.path@,
            language: self.language@,
            imports: self.imports.deep_view(),
            functions: self.functions.deep_view(),
            classes: self.classes.deep_view(),
            variables: self.variables.deep_view(),
            branches: self.branches.deep_view(),
        }
    }
}

impl FileModel {
    pub open spec fn blank() -> FileModel {
        FileModel {
            path: Seq::empty(),
            language: Seq::empty(),
            imports: Seq::empty(),
            functions: Seq::empty(),
            classes: Seq::empty(),
            variables: Seq::empty(),
            branches: Seq::empty(),
        }
    }
}

impl Default for FileDependencyNode {
    fn default() -> (res: Self)
        ensures
            res.deep_view() == FileModel::blank(),
    {
        let res = FileDependencyNode {
            path: String::new(),
            language: String::new(),
            imports: Vec::new(),
            functions: Vec::new(),
            classes: Vec::new(),
            variables: Vec::new(),
            branches: Vec::new(),
        };
        assert(res.imports.deep_view() =~= Seq::empty());
        assert(res.functions.deep_view() =~= Seq::empty());
        assert(res.classes.deep_view() =~= Seq::empty());
        assert(res.variables.deep_view() =~= Seq::empty());
        assert(res.branches.deep_view() =~= Seq::empty());
        assert(res.path@ =~= Seq::empty());
        assert(res.language@ =~= Seq::empty());
        res
    }
}

impl Clone for FileDependencyNode {
    fn clone(&self) -> (res: Self)
        ensures
            res.deep_view() == self.deep_view(),
    {
        FileDependencyNode {
            path: self.path.clone(),
            language: self.language.clone(),
            imports: copy_all(self.imports.as_slice()),
            functions: copy_all(self.functions.as_slice()),
            classes: copy_all(self.classes.as_slice()),
            variables: copy_all(self.variables.as_slice()),
            branches: copy_all(self.branches.as_slice()),
        }
    }
}

impl Replica for FileDependencyNode {
    fn replica(&self) -> (res: Self) {
        self.clone()
    }
}

/// What the source files of a directory import and declare.
#[derive(Debug)]
pub struct DependencyGraph {
    pub files: Vec<FileDependencyNode>,
}

#[verifier::ext_equal]
pub struct GraphModel {
    pub files: Seq<FileModel>,
}

impl DeepView for DependencyGraph {
    type V = GraphModel;

    open spec fn deep_view(&self) -> GraphModel {
        GraphModel {
            files: self.files.deep_view(),
        }
    }
}

impl GraphModel {
    pub open spec fn blank() -> GraphModel {
        GraphModel {
            files: Seq::empty(),
        }
    }
}

impl Default for DependencyGraph {
    fn default() -> (res: Self)
        ensures
            res.deep_view() == GraphModel::blank(),
    {
        let res = DependencyGraph {
            files: Vec::new(),
        };
        assert(res.files.deep_view() =~= Seq::empty());
        res
    }
}

impl Clone for DependencyGraph {
    fn clone(&self) -> (res: Self)
        ensures
            res.deep_view() == self.deep_view(),
    {
        DependencyGraph {
            files: copy_all(self.files.as_slice()),
        }
    }
}

impl Replica for DependencyGraph {
    fn replica(&self) -> (res: Self) {
        self.clone()
    }
}

/// What the modern sources lack of the legacy ones.
#[derive(Debug, PartialEq, Eq)]
pub struct AstDiff {
    pub missing_functions: Vec<String>,
    pub missing_classes: Vec<String>,
    pub missing_imports: Vec<String>,
    pub missing_branches: Vec<String>,
    pub unsupported_files: Vec<String>,
    pub notes: Vec<String>,
}

#[verifier::ext_equal]
pub struct AstDiffModel {
    pub missing_functions: Seq<Seq<char>>,
    pub missing_classes: Seq<Seq<char>>,
    pub missing_imports: Seq<Seq<char>>,
    pub missing_branches: Seq<Seq<char>>,
    pub unsupported_files: Seq<Seq<char>>,
    pub notes: Seq<Seq<char>>,
}

impl DeepView for AstDiff {
    type V = AstDiffModel;

    open spec fn deep_view(&self) -> AstDiffModel {
        AstDiffModel {
            missing_functions: self.missing_functions.deep_view(),
            missing_classes: self.missing_classes.deep_view(),
            missing_imports: self.missing_imports.deep_view(),
            missing_branches: self.missing_branches.deep_view(),
            unsupported_files: self.unsupported_files.deep_view(),
            notes: self.notes.deep_view(),
        }
    }
}

impl AstDiffModel {
    pub open spec fn blank() -> AstDiffModel {
        AstDiffModel {
            missing_functions: Seq::empty(),
            missing_classes: Seq::empty(),
            missing_imports: Seq::empty(),
            missing_branches: Seq::empty(),
            unsupported_files: Seq::empty(),
            notes: Seq::empty(),
        }
    }
}

impl Default for AstDiff {
    fn default() -> (res: Self)
        ensures
            res.deep_view() == AstDiffModel::blank(),
    {
        let res = AstDiff {
            missing_functions: Vec::new(),
            missing_classes: Vec::new(),
            missing_imports: Vec::new(),
            missing_branches: Vec::new(),
            unsupported_files: Vec::new(),
            notes: Vec::new(),
        };
        assert(res.missing_functions.deep_view() =~= Seq::empty());
        assert(res.missing_classes.deep_view() =~= Seq::empty());
        assert(res.missing_imports.deep_view() =~= Seq::empty());
        assert(res.missing_branches.deep_view() =~= Seq::empty());
        assert(res.unsupported_files.deep_view() =~= Seq::empty());
        assert(res.notes.deep_view() =~= Seq::empty());
        res
    }
}

impl Clone for AstDiff {
    fn clone(&self) -> (res: Self)
        ensures
            res.deep_view() == self.deep_view(),
    {
        AstDiff {
            missing_functions: copy_list(self.missing_functions.as_slice()),
            missing_classes: copy_list(self.missing_classes.as_slice()),
            missing_imports: copy_list(self.missing_imports.as_slice()),
            missing_branches: copy_list(self.missing_branches.as_slice()),
            unsupported_files: copy_list(self.unsupported_files.as_slice()),
            notes: copy_list(self.notes.as_slice()),
        }
    }
}

impl Replica for AstDiff {
    fn replica(&self) -> (res: Self) {
        self.clone()
    }
}

// ---------------------------------------------------------------------------
// Order
// ---------------------------------------------------------------------------
pub open spec fn import_key(m: ImportModel) -> Seq<u32> {
    ordering::text_key(m.source) + ordering::texts_key(m.names) + ordering::text_key(m.kind)
}

pub open spec fn function_key(m: FunctionModel) -> Seq<u32> {
    ordering::text_key(m.name) + ordering::texts_key(m.parameters) + ordering::bool_key(m.is_async)
        + ordering::bool_key(m.is_generator) + ordering::option_key(m.return_type)
        + ordering::bool_key(m.exported)
}

pub open spec fn method_key(m: MethodModel) -> Seq<u32> {
    ordering::text_key(m.name) + ordering::texts_key(m.parameters) + ordering::bool_key(m.is_async)
}

pub open spec fn methods_key(methods: Seq<MethodModel>) -> Seq<u32> {
    ordering::list_key(methods.map_values(|m: MethodModel| method_key(m)))
}

pub open spec fn class_key(m: ClassModel) -> Seq<u32> {
    ordering::text_key(m.name) + ordering::option_key(m.extends) + methods_key(m.methods)
        + ordering::bool_key(m.exported)
}

pub open spec fn variable_key(m: VariableModel) -> Seq<u32> {
    ordering::text_key(m.name) + ordering::text_key(m.declaration_kind) + ordering::option_key(
        m.value_kind,
    ) + ordering::bool_key(m.exported)
}

pub open spec fn branch_key(m: BranchModel) -> Seq<u32> {
    ordering::text_key(m.kind) + ordering::text_key(m.condition)
}

proof fn lemma_assoc(a: Seq<u32>, b: Seq<u32>, c: Seq<u32>)
    ensures
        a + b + c == a + (b + c),
{
    assert(a + b + c =~= a + (b + c));
}

proof fn lemma_parts(a: Seq<u32>, b: Seq<u32>, c: Seq<u32>, d: Seq<u32>)
    ensures
        a + b + c + d == a + (b + (c + d)),
{
    lemma_assoc(a + b, c, d);
    lemma_assoc(a, b, c + d);
}

/// Imports are sorted by their source, then by their names, then by their kind.
impl Keyed for ImportEdge {
    open spec fn key_of(model: ImportModel) -> Seq<u32> {
        import_key(model)
    }

    proof fn lemma_key_injective(a: ImportModel, b: ImportModel) {
        let rest_a = ordering::texts_key(a.names) + ordering::text_key(a.kind);
        let rest_b = ordering::texts_key(b.names) + ordering::text_key(b.kind);
        let none = Seq::<u32>::empty();
        assert(import_key(a) =~= ordering::text_key(a.source) + rest_a);
        assert(import_key(b) =~= ordering::text_key(b.source) + rest_b);
        ordering::lemma_text_key(a.source, b.source, rest_a, rest_b);
        ordering::lemma_texts_key(
            a.names,
            b.names,
            ordering::text_key(a.kind),
            ordering::text_key(b.kind),
        );
        assert(ordering::text_key(a.kind) + none =~= ordering::text_key(a.kind));
        assert(ordering::text_key(b.kind) + none =~= ordering::text_key(b.kind));
        ordering::lemma_text_key(a.kind, b.kind, none, none);
    }

    fn sort_key(&self) -> (res: Vec<u32>) {
        let mut key: Vec<u32> = Vec::new();
        push_text_key(&mut key, self.source.as_str());
        push_texts_key(&mut key, self.names.as_slice());
        push_text_key(&mut key, self.kind.as_str());
        assert(key@ =~= import_key(self.deep_view()));
        key
    }
}

proof fn lemma_function_parts(m: FunctionModel)
    ensures
        function_key(m) == ordering::text_key(m.name) + (ordering::texts_key(m.parameters) + (
        ordering::bool_key(m.is_async) + (ordering::bool_key(m.is_generator) + (
        ordering::option_key(m.return_type) + ordering::bool_key(m.exported))))),
{
    let name = ordering::text_key(m.name);
    let parameters = ordering::texts_key(m.parameters);
    let last = ordering::option_key(m.return_type) + ordering::bool_key(m.exported);
    let flags = ordering::bool_key(m.is_generator) + last;
    lemma_assoc(
        name + parameters + ordering::bool_key(m.is_async) + ordering::bool_key(m.is_generator),
        ordering::option_key(m.return_type),
        ordering::bool_key(m.exported),
    );
    lemma_assoc(
        name + parameters + ordering::bool_key(m.is_async),
        ordering::bool_key(m.is_generator),
        last,
    );
    lemma_parts(name, parameters, ordering::bool_key(m.is_async), flags);
}

/// Functions are sorted by their fields, one after the other.
impl Keyed for FunctionSignature {
    open spec fn key_of(model: FunctionModel) -> Seq<u32> {
        function_key(model)
    }

    proof fn lemma_key_injective(a: FunctionModel, b: FunctionModel) {
        let ea = ordering::bool_key(a.exported);
        let eb = ordering::bool_key(b.exported);
        let none = Seq::<u32>::empty();
        let ra = ordering::option_key(a.return_type) + ea;
        let rb = ordering::option_key(b.return_type) + eb;
        let ga = ordering::bool_key(a.is_generator) + ra;
        let gb = ordering::bool_key(b.is_generator) + rb;
        let sa = ordering::bool_key(a.is_async) + ga;
        let sb = ordering::bool_key(b.is_async) + gb;
        let pa = ordering::texts_key(a.parameters) + sa;
        let pb = ordering::texts_key(b.parameters) + sb;
        lemma_function_parts(a);
        lemma_function_parts(b);
        ordering::lemma_text_key(a.name, b.name, pa, pb);
        ordering::lemma_texts_key(a.parameters, b.parameters, sa, sb);
        ordering::lemma_bool_key(a.is_async, b.is_async, ga, gb);
        ordering::lemma_bool_key(a.is_generator, b.is_generator, ra, rb);
        ordering::lemma_option_key(a.return_type, b.return_type, ea, eb);
        assert(ea + none =~= ea);
        assert(eb + none =~= eb);
        ordering::lemma_bool_key(a.exported, b.exported, none, none);
    }

    fn sort_key(&self) -> (res: Vec<u32>) {
        let mut key: Vec<u32> = Vec::new();
        push_text_key(&mut key, self.name.as_str());
        push_texts_key(&mut key, self.parameters.as_slice());
        push_bool_key(&mut key, self.is_async);
        push_bool_key(&mut key, self.is_generator);
        push_option_key(&mut key, &self.return_type);
        push_bool_key(&mut key, self.exported);
        assert(key@ =~= function_key(self.deep_view()));
        key
    }
}

proof fn lemma_method_key(a: MethodModel, b: MethodModel, x: Seq<u32>, y: Seq<u32>)
    requires
        method_key(a) + x == method_key(b) + y,
    ensures
        a == b,
        x == y,
{
    let sa = ordering::bool_key(a.is_async) + x;
    let sb = ordering::bool_key(b.is_async) + y;
    let pa = ordering::texts_key(a.parameters) + sa;
    let pb = ordering::texts_key(b.parameters) + sb;
    assert(method_key(a) + x =~= ordering::text_key(a.name) + pa);
    assert(method_key(b) + y =~= ordering::text_key(b.name) + pb);
    ordering::lemma_text_key(a.name, b.name, pa, pb);
    ordering::lemma_texts_key(a.parameters, b.parameters, sa, sb);
    ordering::lemma_bool_key(a.is_async, b.is_async, x, y);
}

proof fn lemma_methods_key(
    a: Seq<MethodModel>,
    b: Seq<MethodModel>,
    x: Seq<u32>,
    y: Seq<u32>,
)
    requires
        methods_key(a) + x == methods_key(b) + y,
    ensures
        a == b,
        x == y,
    decreases a.len(),
{
    let f = |m: MethodModel| method_key(m);
    let left = methods_key(a) + x;
    let right = methods_key(b) + y;
    assert(left[0] == right[0]);
    if a.len() == 0 {
        assert(left[0] == 0);
        if b.len() > 0 {
            assert(right[0] == 1);
            assert(false);
        }
        assert(a =~= b);
        assert(x =~= left.skip(1));
        assert(y =~= right.skip(1));
    } else {
        assert(left[0] == 1);
        if b.len() == 0 {
            assert(right[0] == 0);
            assert(false);
        }
        assert(a.map_values(f).drop_first() =~= a.drop_first().map_values(f));
        assert(b.map_values(f).drop_first() =~= b.drop_first().map_values(f));
        let rest_a = methods_key(a.drop_first()) + x;
        let rest_b = methods_key(b.drop_first()) + y;
        assert(left.skip(1) =~= method_key(a[0]) + rest_a);
        assert(right.skip(1) =~= method_key(b[0]) + rest_b);
        lemma_method_key(a[0], b[0], rest_a, rest_b);
        lemma_methods_key(a.drop_first(), b.drop_first(), x, y);
        assert(a =~= seq![a[0]] + a.drop_first());
        assert(b =~= seq![b[0]] + b.drop_first());
    }
}

/// Methods are sorted by their fields, one after the other.
impl Keyed for MethodSignature {
    open spec fn key_of(model: MethodModel) -> Seq<u32> {
        method_key(model)
    }

    proof fn lemma_key_injective(a: MethodModel, b: MethodModel) {
        let none = Seq::<u32>::empty();
        assert(method_key(a) + none =~= method_key(a));
        assert(method_key(b) + none =~= method_key(b));
        lemma_method_key(a, b, none, none);
    }

    fn sort_key(&self) -> (res: Vec<u32>) {
        let mut key: Vec<u32> = Vec::new();
        push_method_key(&mut key, self);
        assert(key@ =~= method_key(self.deep_view()));
        key
    }
}

fn push_method_key(key: &mut Vec<u32>, method: &MethodSignature)
    ensures
        final(key)@ == old(key)@ + method_key(method.deep_view()),
{
    let ghost start = key@;
    push_text_key(key, method.name.as_str());
    push_texts_key(key, method.parameters.as_slice());
    push_bool_key(key, method.is_async);
    assert(key@ =~= start + method_key(method.deep_view()));
}

fn push_methods_key(key: &mut Vec<u32>, methods: &[MethodSignature])
    ensures
        final(key)@ == old(key)@ + methods_key(methods.deep_view()),
{
    let ghost all = methods.deep_view();
    let ghost f = |m: MethodModel| method_key(m);
    let ghost start = key@;
    let mut i: usize = 0;
    assert(all.skip(0) == all);
    while i < methods.len()
        invariant
            i <= methods.len(),
            all == methods.deep_view(),
            f == (|m: MethodModel| method_key(m)),
            start + methods_key(all) == key@ + methods_key(all.skip(i as int)),
        decreases methods.len() - i,
    {
        let ghost before = key@;
        proof {
            let rest = all.skip(i as int);
            assert(rest[0] == methods@[i as int].deep_view());
            assert(rest.drop_first() == all.skip(i as int + 1));
            assert(rest.map_values(f).drop_first() =~= rest.drop_first().map_values(f));
            assert(before + (seq![1u32] + method_key(rest[0]) + methods_key(rest.drop_first()))
                =~= before.push(1u32) + method_key(rest[0]) + methods_key(rest.drop_first()));
        }
        key.push(1);
        push_method_key(key, &methods[i]);
        i += 1;
    }
    key.push(0);
    assert(all.skip(i as int) =~= Seq::empty());
    assert(key@ =~= start + methods_key(all));
}

/// Classes are sorted by their fields, one after the other.
impl Keyed for ClassDefinition {
    open spec fn key_of(model: ClassModel) -> Seq<u32> {
        class_key(model)
    }

    proof fn lemma_key_injective(a: ClassModel, b: ClassModel) {
        let none = Seq::<u32>::empty();
        let ea = ordering::bool_key(a.exported);
        let eb = ordering::bool_key(b.exported);
        let ma = methods_key(a.methods) + ea;
        let mb = methods_key(b.methods) + eb;
        let xa = ordering::option_key(a.extends) + ma;
        let xb = ordering::option_key(b.extends) + mb;
        lemma_parts(
            ordering::text_key(a.name),
            ordering::option_key(a.extends),
            methods_key(a.methods),
            ea,
        );
        lemma_parts(
            ordering::text_key(b.name),
            ordering::option_key(b.extends),
            methods_key(b.methods),
            eb,
        );
        ordering::lemma_text_key(a.name, b.name, xa, xb);
        ordering::lemma_option_key(a.extends, b.extends, ma, mb);
        lemma_methods_key(a.methods, b.methods, ea, eb);
        assert(ea + none =~= ea);
        assert(eb + none =~= eb);
        ordering::lemma_bool_key(a.exported, b.exported, none, none);
    }

    fn sort_key(&self) -> (res: Vec<u32>) {
        let mut key: Vec<u32> = Vec::new();
        push_text_key(&mut key, self.name.as_str());
        push_option_key(&mut key, &self.extends);
        push_methods_key(&mut key, self.methods.as_slice());
        push_bool_key(&mut key, self.exported);
        assert(key@ =~= class_key(self.deep_view()));
        key
    }
}

/// Variables are sorted by their fields, one after the other.
impl Keyed for VariableBinding {
    open spec fn key_of(model: VariableModel) -> Seq<u32> {
        variable_key(model)
    }

    proof fn lemma_key_injective(a: VariableModel, b: VariableModel) {
        let none = Seq::<u32>::empty();
        let ea = ordering::bool_key(a.exported);
        let eb = ordering::bool_key(b.exported);
        let va = ordering::option_key(a.value_kind) + ea;
        let vb = ordering::option_key(b.value_kind) + eb;
        let da = ordering::text_key(a.declaration_kind) + va;
        let db = ordering::text_key(b.declaration_kind) + vb;
        lemma_parts(
            ordering::text_key(a.name),
            ordering::text_key(a.declaration_kind),
            ordering::option_key(a.value_kind),
            ea,
        );
        lemma_parts(
            ordering::text_key(b.name),
            ordering::text_key(b.declaration_kind),
            ordering::option_key(b.value_kind),
            eb,
        );
        ordering::lemma_text_key(a.name, b.name, da, db);
        ordering::lemma_text_key(a.declaration_kind, b.declaration_kind, va, vb);
        ordering::lemma_option_key(a.value_kind, b.value_kind, ea, eb);
        assert(ea + none =~= ea);
        assert(eb + none =~= eb);
        ordering::lemma_bool_key(a.exported, b.exported, none, none);
    }

    fn sort_key(&self) -> (res: Vec<u32>) {
        let mut key: Vec<u32> = Vec::new();
        push_text_key(&mut key, self.name.as_str());
        push_text_key(&mut key, self.declaration_kind.as_str());
        push_option_key(&mut key, &self.value_kind);
        push_bool_key(&mut key, self.exported);
        assert(key@ =~= variable_key(self.deep_view()));
        key
    }
}

/// Branches are sorted by their kind, then by their condition.
impl Keyed for BranchDescriptor {
    open spec fn key_of(model: BranchModel) -> Seq<u32> {
        branch_key(model)
    }

    proof fn lemma_key_injective(a: BranchModel, b: BranchModel) {
        let none = Seq::<u32>::empty();
        let ca = ordering::text_key(a.condition);
        let cb = ordering::text_key(b.condition);
        ordering::lemma_text_key(a.kind, b.kind, ca, cb);
        assert(ca + none =~= ca);
        assert(cb + none =~= cb);
        ordering::lemma_text_key(a.condition, b.condition, none, none);
    }

    fn sort_key(&self) -> (res: Vec<u32>) {
        let mut key: Vec<u32> = Vec::new();
        push_text_key(&mut key, self.kind.as_str());
        push_text_key(&mut key, self.condition.as_str());
        assert(key@ =~= branch_key(self.deep_view()));
        key
    }
}

// ---------------------------------------------------------------------------
// Summaries
// ---------------------------------------------------------------------------
/// The position of the first class with the name, or the number of classes.
pub open spec fn class_index(classes: Seq<ClassModel>, name: Seq<char>) -> int
    decreases classes.len(),
{
    if classes.len() == 0 {
        0
    } else if classes[0].name == name {
        0
    } else {
        1 + class_index(classes.drop_first(), name)
    }
}

/// The class with its methods in order.
pub open spec fn tidy_class(class: ClassModel) -> ClassModel {
    ClassModel { methods: ordering::arranged::<MethodSignature>(class.methods), ..class }
}

/// Two parts of one class as one: the first base that is known, and the methods of both.
pub open spec fn merged_class(first: ClassModel, second: ClassModel) -> ClassModel {
    ClassModel {
        name: first.name,
        extends: if first.extends is None {
            second.extends
        } else {
            first.extends
        },
        methods: ordering::arranged::<MethodSignature>(first.methods + second.methods),
        exported: first.exported || second.exported,
    }
}

/// The classes with the given one: merged with the class of the same name, or at the end.
pub open spec fn with_class(classes: Seq<ClassModel>, class: ClassModel) -> Seq<ClassModel> {
    let i = class_index(classes, class.name);
    if 0 <= i < classes.len() {
        classes.update(i, merged_class(classes[i], class))
    } else {
        classes.push(tidy_class(class))
    }
}

proof fn lemma_class_index(classes: Seq<ClassModel>, name: Seq<char>, i: int)
    requires
        0 <= i <= classes.len(),
        forall|j: int| 0 <= j < i ==> (#[trigger] classes[j]).name != name,
        i < classes.len() ==> classes[i].name == name,
    ensures
        class_index(classes, name) == i,
    decreases classes.len(),
{
    if i > 0 {
        let rest = classes.drop_first();
        assert(classes[0].name != name);
        assert forall|j: int| 0 <= j < i - 1 implies (#[trigger] rest[j]).name != name by {
            assert(rest[j] == classes[j + 1]);
        }
        assert(i < classes.len() ==> rest[i - 1] == classes[i]);
        lemma_class_index(rest, name, i - 1);
    }
}

/// A class of the name is among the classes.
pub open spec fn has_class(classes: Seq<ClassModel>, name: Seq<char>) -> bool {
    exists|k: int| 0 <= k < classes.len() && (#[trigger] classes[k]).name == name
}

/// A class of the name is among the classes and has the method.
pub open spec fn has_method(
    classes: Seq<ClassModel>,
    name: Seq<char>,
    method: MethodModel,
) -> bool {
    exists|k: int|
        0 <= k < classes.len() && (#[trigger] classes[k]).name == name
            && classes[k].methods.contains(method)
}

/// No two classes have the same name.
pub open spec fn are_distinct(classes: Seq<ClassModel>) -> bool {
    forall|i: int, j: int|
        0 <= i < j < classes.len() ==> (#[trigger] classes[i]).name != (#[trigger] classes[j]).name
}

/// A class that is added is known afterwards with all its methods, beside all that was known
/// before; classes of one name become one, which is exported if one of them is, and has the base
/// of the first that has one.
pub proof fn lemma_with_class(classes: Seq<ClassModel>, class: ClassModel)
    ensures
        forall|name: Seq<char>| #[trigger]
            has_class(with_class(classes, class), name) <==> has_class(classes, name)
                || class.name == name,
        forall|name: Seq<char>, method: MethodModel| #[trigger]
            has_method(with_class(classes, class), name, method) <==> has_method(
                classes,
                name,
                method,
            ) || class.name == name && class.methods.contains(method),
        are_distinct(classes) ==> are_distinct(with_class(classes, class)),
        forall|k: int|
            0 <= k < classes.len() && are_distinct(classes) && (#[trigger] classes[k]).name
                == class.name ==> {
                let merged = with_class(classes, class)[k];
                &&& merged.name == class.name
                &&& merged.exported == (classes[k].exported || class.exported)
                &&& classes[k].extends is Some ==> merged.extends == classes[k].extends
                &&& classes[k].extends is None ==> merged.extends == class.extends
            },
        !has_class(classes, class.name) ==> {
            let added = with_class(classes, class).last();
            &&& with_class(classes, class).len() == classes.len() + 1
            &&& added.name == class.name
            &&& added.exported == class.exported
            &&& added.extends == class.extends
        },
{
    let all = with_class(classes, class);
    let i = lemma_class_at(classes, class.name);
    if i < classes.len() {
        let both = classes[i].methods + class.methods;
        let merged = all[i];
        assert(merged == merged_class(classes[i], class));
        ordering::lemma_arranged::<MethodSignature>(both);
        assert forall|method: MethodModel| #[trigger]
            merged.methods.contains(method) <==> classes[i].methods.contains(method)
                || class.methods.contains(method) by {
            assert(merged.methods.contains(method) <==> both.contains(method));
            if both.contains(method) {
                let k = choose|k: int| 0 <= k < both.len() && both[k] == method;
                if k < classes[i].methods.len() {
                    assert(classes[i].methods[k] == method);
                } else {
                    assert(class.methods[k - classes[i].methods.len()] == method);
                }
            }
            if classes[i].methods.contains(method) {
                let k = choose|k: int|
                    0 <= k < classes[i].methods.len() && classes[i].methods[k] == method;
                assert(both[k] == method);
            }
            if class.methods.contains(method) {
                let k = choose|k: int|
                    0 <= k < class.methods.len() && class.methods[k] == method;
                assert(both[k + classes[i].methods.len()] == method);
            }
        }
        assert forall|name: Seq<char>| #[trigger]
            has_class(all, name) <==> has_class(classes, name) || class.name == name by {
            if has_class(all, name) {
                let k = choose|k: int| 0 <= k < all.len() && (#[trigger] all[k]).name == name;
                assert(classes[k].name == name);
            }
            if has_class(classes, name) {
                let k = choose|k: int|
                    0 <= k < classes.len() && (#[trigger] classes[k]).name == name;
                assert(all[k].name == name);
            }
            if class.name == name {
                assert(all[i].name == name);
            }
        }
        assert forall|name: Seq<char>, method: MethodModel| #[trigger]
            has_method(all, name, method) <==> has_method(classes, name, method) || class.name
                == name && class.methods.contains(method) by {
            if has_method(all, name, method) {
                let k = choose|k: int|
                    0 <= k < all.len() && (#[trigger] all[k]).name == name
                        && all[k].methods.contains(method);
                assert(classes[k].name == name);
            }
            if has_method(classes, name, method) {
                let k = choose|k: int|
                    0 <= k < classes.len() && (#[trigger] classes[k]).name == name
                        && classes[k].methods.contains(method);
                assert(all[k].name == name && all[k].methods.contains(method));
            }
            if class.name == name && class.methods.contains(method) {
                assert(all[i].name == name && all[i].methods.contains(method));
            }
        }
        assert(has_class(classes, class.name)) by {
            assert(classes[i].name == class.name);
        }
        assert forall|a: int, b: int|
            0 <= a < b < all.len() && are_distinct(classes) implies (#[trigger] all[a]).name != (
        #[trigger] all[b]).name by {
            assert(all[a].name == classes[a].name);
            assert(all[b].name == classes[b].name);
        }
        assert forall|k: int|
            0 <= k < classes.len() && are_distinct(classes) && (#[trigger] classes[k]).name
                == class.name implies k == i by {
            assert(classes[i].name == class.name);
            if k < i {
                assert(classes[k].name != classes[i].name);
            }
            if i < k {
                assert(classes[i].name != classes[k].name);
            }
        }
    } else {
        let added = all.last();
        assert(all[classes.len() as int] == added);
        ordering::lemma_arranged::<MethodSignature>(class.methods);
        assert forall|name: Seq<char>| #[trigger]
            has_class(all, name) <==> has_class(classes, name) || class.name == name by {
            if has_class(all, name) {
                let k = choose|k: int| 0 <= k < all.len() && (#[trigger] all[k]).name == name;
                if k < classes.len() {
                    assert(classes[k].name == name);
                }
            }
            if has_class(classes, name) {
                let k = choose|k: int|
                    0 <= k < classes.len() && (#[trigger] classes[k]).name == name;
                assert(all[k].name == name);
            }
        }
        assert forall|name: Seq<char>, method: MethodModel| #[trigger]
            has_method(all, name, method) <==> has_method(classes, name, method) || class.name
                == name && class.methods.contains(method) by {
            if has_method(all, name, method) {
                let k = choose|k: int|
                    0 <= k < all.len() && (#[trigger] all[k]).name == name
                        && all[k].methods.contains(method);
                if k < classes.len() {
                    assert(classes[k].name == name);
                }
            }
            if has_method(classes, name, method) {
                let k = choose|k: int|
                    0 <= k < classes.len() && (#[trigger] classes[k]).name == name
                        && classes[k].methods.contains(method);
                assert(all[k].name == name && all[k].methods.contains(method));
            }
            if class.name == name && class.methods.contains(method) {
                assert(added.methods.contains(method));
            }
        }
        assert forall|a: int, b: int|
            0 <= a < b < all.len() && are_distinct(classes) implies (#[trigger] all[a]).name != (
        #[trigger] all[b]).name by {
            assert(all[a].name == classes[a].name);
            if b < classes.len() {
                assert(all[b].name == classes[b].name);
            } else {
                assert(classes[a].name != class.name);
            }
        }
    }
}

proof fn lemma_class_at(classes: Seq<ClassModel>, name: Seq<char>) -> (i: int)
    ensures
        class_index(classes, name) == i,
        0 <= i <= classes.len(),
        i < classes.len() ==> classes[i].name == name,
        forall|j: int| 0 <= j < i ==> (#[trigger] classes[j]).name != name,
    decreases classes.len(),
{
    if classes.len() == 0 || classes[0].name == name {
        0
    } else {
        let rest = classes.drop_first();
        let i = lemma_class_at(rest, name);
        assert forall|j: int| 0 <= j < i + 1 implies (#[trigger] classes[j]).name != name by {
            if j > 0 {
                assert(rest[j - 1] == classes[j]);
            }
        }
        i + 1
    }
}

/// A tidied summary tells of the same declarations as the summary.
pub proof fn lemma_tidy_file(file: FileModel)
    ensures
        tidy_file(file).path == file.path,
        tidy_file(file).language == file.language,
        forall|m: ImportModel| #[trigger]
            tidy_file(file).imports.contains(m) <==> file.imports.contains(m),
        forall|m: FunctionModel| #[trigger]
            tidy_file(file).functions.contains(m) <==> file.functions.contains(m),
        forall|m: VariableModel| #[trigger]
            tidy_file(file).variables.contains(m) <==> file.variables.contains(m),
        forall|m: BranchModel| #[trigger]
            tidy_file(file).branches.contains(m) <==> file.branches.contains(m),
        forall|name: Seq<char>| #[trigger]
            has_class(tidy_file(file).classes, name) <==> has_class(file.classes, name),
        forall|name: Seq<char>, method: MethodModel| #[trigger]
            has_method(tidy_file(file).classes, name, method) <==> has_method(
                file.classes,
                name,
                method,
            ),
{
    let classes = file.classes;
    let each = classes.map_values(|c: ClassModel| tidy_class(c));
    let all = tidy_file(file).classes;
    ordering::lemma_arranged::<ImportEdge>(file.imports);
    ordering::lemma_arranged::<FunctionSignature>(file.functions);
    ordering::lemma_arranged::<VariableBinding>(file.variables);
    ordering::lemma_arranged::<BranchDescriptor>(file.branches);
    ordering::lemma_arranged::<ClassDefinition>(each);
    assert forall|k: int| 0 <= k < classes.len() implies {
        &&& (#[trigger] each[k]).name == classes[k].name
        &&& forall|m: MethodModel| #[trigger]
            each[k].methods.contains(m) <==> classes[k].methods.contains(m)
    } by {
        ordering::lemma_arranged::<MethodSignature>(classes[k].methods);
    }
    assert forall|name: Seq<char>| #[trigger]
        has_class(all, name) <==> has_class(classes, name) by {
        if has_class(all, name) {
            let k = choose|k: int| 0 <= k < all.len() && (#[trigger] all[k]).name == name;
            assert(all.contains(all[k]));
            let n = choose|n: int| 0 <= n < each.len() && each[n] == all[k];
            assert(classes[n].name == name);
        }
        if has_class(classes, name) {
            let n = choose|n: int| 0 <= n < classes.len() && (#[trigger] classes[n]).name == name;
            assert(each.contains(each[n]));
            assert(all.contains(each[n]));
            let k = choose|k: int| 0 <= k < all.len() && all[k] == each[n];
            assert(all[k].name == name);
        }
    }
    assert forall|name: Seq<char>, method: MethodModel| #[trigger]
        has_method(all, name, method) <==> has_method(classes, name, method) by {
        if has_method(all, name, method) {
            let k = choose|k: int|
                0 <= k < all.len() && (#[trigger] all[k]).name == name
                    && all[k].methods.contains(method);
            assert(all.contains(all[k]));
            let n = choose|n: int| 0 <= n < each.len() && each[n] == all[k];
            assert(classes[n].name == name && classes[n].methods.contains(method));
        }
        if has_method(classes, name, method) {
            let n = choose|n: int|
                0 <= n < classes.len() && (#[trigger] classes[n]).name == name
                    && classes[n].methods.contains(method);
            assert(each.contains(each[n]));
            assert(all.contains(each[n]));
            let k = choose|k: int| 0 <= k < all.len() && all[k] == each[n];
            assert(all[k].name == name && all[k].methods.contains(method));
        }
    }
}

/// Adds a class, or what another part of the file says about it.
pub fn upsert_class_definition(classes: &mut Vec<ClassDefinition>, class_definition: ClassDefinition)
    ensures
        final(classes).deep_view() == with_class(
            old(classes).deep_view(),
            class_definition.deep_view(),
        ),
{
    let ghost all = classes.deep_view();
    let ghost first = classes@;
    let ghost added = class_definition.deep_view();
    let mut i: usize = 0;
    while i < classes.len()
        invariant
            i <= classes.len(),
            classes@ == first,
            all == classes.deep_view(),
            all == old(classes).deep_view(),
            added == class_definition.deep_view(),
            forall|j: int| 0 <= j < i ==> (#[trigger] all[j]).name != added.name,
        decreases classes.len() - i,
    {
        assert(all[i as int] == classes@[i as int].deep_view());
        if same(classes[i].name.as_str(), class_definition.name.as_str()) {
            proof {
                lemma_class_index(all, added.name, i as int);
            }
            let existing: ClassDefinition = classes.remove(i);
            let extends: Option<String> = match existing.extends {
                Some(base) => Some(base),
                None => class_definition.extends,
            };
            let mut methods: Vec<MethodSignature> = existing.methods;
            let mut more: Vec<MethodSignature> = class_definition.methods;
            methods.append(&mut more);
            assert(methods.deep_view() =~= existing.methods.deep_view()
                + class_definition.methods.deep_view());
            let merged = ClassDefinition {
                name: existing.name,
                extends,
                methods: arrange(methods),
                exported: existing.exported || class_definition.exported,
            };
            classes.insert(i, merged);
            assert(classes.deep_view() =~= all.update(
                i as int,
                merged_class(all[i as int], added),
            ));
            return ;
        }
        i += 1;
    }
    proof {
        lemma_class_index(all, added.name, i as int);
    }
    let tidy = ClassDefinition {
        name: class_definition.name,
        extends: class_definition.extends,
        methods: arrange(class_definition.methods),
        exported: class_definition.exported,
    };
    classes.push(tidy);
    assert(classes.deep_view() =~= all.push(tidy_class(added)));
}

/// The summary with everything in order and nothing twice.
pub open spec fn tidy_file(file: FileModel) -> FileModel {
    FileModel {
        path: file.path,
        language: file.language,
        imports: ordering::arranged::<ImportEdge>(file.imports),
        functions: ordering::arranged::<FunctionSignature>(file.functions),
        classes: ordering::arranged::<ClassDefinition>(
            file.classes.map_values(|c: ClassModel| tidy_class(c)),
        ),
        variables: ordering::arranged::<VariableBinding>(file.variables),
        branches: ordering::arranged::<BranchDescriptor>(file.branches),
    }
}

/// Puts everything in the summary in order.
pub fn finalize_summary(summary: FileDependencyNode) -> (res: FileDependencyNode)
    ensures
        res.deep_view() == tidy_file(summary.deep_view()),
{
    let ghost wanted = summary.classes.deep_view().map_values(|c: ClassModel| tidy_class(c));
    let mut rest: Vec<ClassDefinition> = summary.classes;
    let mut classes: Vec<ClassDefinition> = Vec::new();
    let ghost all = rest.deep_view();
    let ghost mut done: int = 0;
    assert(all.skip(0) =~= all);
    assert(classes.deep_view() =~= wanted.take(0));
    while rest.len() > 0
        invariant
            0 <= done <= all.len(),
            wanted == all.map_values(|c: ClassModel| tidy_class(c)),
            rest.deep_view() == all.skip(done),
            classes.deep_view() == wanted.take(done),
        decreases rest.len(),
    {
        let ghost before = rest.deep_view();
        let ghost classes_before = classes.deep_view();
        let class: ClassDefinition = rest.remove(0);
        let tidy = ClassDefinition {
            name: class.name,
            extends: class.extends,
            methods: arrange(class.methods),
            exported: class.exported,
        };
        classes.push(tidy);
        proof {
            assert(before.len() > 0);
            assert(class.deep_view() == before[0]);
            assert(before[0] == all[done]);
            assert(rest.deep_view() =~= before.drop_first());
            assert(before.drop_first() =~= all.skip(done + 1));
            assert(classes.deep_view() =~= classes_before.push(wanted[done]));
            assert(wanted.take(done + 1) =~= wanted.take(done).push(wanted[done]));
            done = done + 1;
        }
    }
    assert(rest.deep_view().len() == 0);
    assert(wanted.take(done) =~= wanted);
    FileDependencyNode {
        path: summary.path,
        language: summary.language,
        imports: arrange(summary.imports),
        functions: arrange(summary.functions),
        classes: arrange(classes),
        variables: arrange(summary.variables),
        branches: arrange(summary.branches),
    }
}

// ---------------------------------------------------------------------------
// Differences
// ---------------------------------------------------------------------------
/// What a declaration is told apart by: the path of its file, and its own parts.
pub type Signature = Seq<Seq<char>>;

/// The kinds of declarations that are compared.
#[derive(Debug, Clone, Copy, PartialEq, Eq, Structural)]
pub enum Declaration {
    Function,
    Class,
    Import,
    Branch,
}

/// The signatures of what the file declares of the kind.
pub open spec fn declared(file: FileModel, kind: Declaration) -> Seq<Signature> {
    match kind {
        Declaration::Function => file.functions.map_values(
            |f: FunctionModel| seq![file.path, f.name] + f.parameters,
        ),
        Declaration::Class => file.classes.map_values(|c: ClassModel| seq![file.path, c.name]),
        Declaration::Import => file.imports.map_values(
            |e: ImportModel| seq![file.path, e.kind, e.source],
        ),
        Declaration::Branch => file.branches.map_values(
            |b: BranchModel| seq![file.path, b.kind, b.condition],
        ),
    }
}

/// The signatures of all files, file by file.
pub open spec fn signatures(files: Seq<FileModel>, kind: Declaration) -> Seq<Signature>
    decreases files.len(),
{
    if files.len() == 0 {
        Seq::empty()
    } else {
        signatures(files.drop_last(), kind) + declared(files.last(), kind)
    }
}

/// The legacy signatures that no modern one equals, each once.
pub open spec fn missing(legacy: Seq<Signature>, modern: Seq<Signature>) -> Seq<Signature>
    decreases legacy.len(),
{
    if legacy.len() == 0 {
        Seq::empty()
    } else {
        let found = missing(legacy.drop_last(), modern);
        if modern.contains(legacy.last()) || found.contains(legacy.last()) {
            found
        } else {
            found.push(legacy.last())
        }
    }
}

pub open spec fn missing_in(legacy: GraphModel, modern: GraphModel, kind: Declaration) -> Seq<
    Signature,
> {
    missing(signatures(legacy.files, kind), signatures(modern.files, kind))
}

/// How a missing declaration is reported.
pub open spec fn report(signature: Signature, kind: Declaration) -> Seq<char> {
    if kind == Declaration::Function {
        signature[0] + "::"@ + signature[1] + "("@ + compose::join(signature.skip(2), ","@) + ")"@
    } else {
        compose::join(signature, "::"@)
    }
}

pub open spec fn reports(legacy: GraphModel, modern: GraphModel, kind: Declaration) -> Seq<
    Seq<char>,
> {
    missing_in(legacy, modern, kind).map_values(|s: Signature| report(s, kind))
}

/// What the modern graph lacks of the legacy one.
pub open spec fn graph_diff(legacy: GraphModel, modern: GraphModel) -> AstDiffModel {
    AstDiffModel {
        missing_functions: reports(legacy, modern, Declaration::Function),
        missing_classes: reports(legacy, modern, Declaration::Class),
        missing_imports: reports(legacy, modern, Declaration::Import),
        missing_branches: reports(legacy, modern, Declaration::Branch),
        unsupported_files: Seq::empty(),
        notes: Seq::empty(),
    }
}

/// What is missing was declared in the legacy code, and not in the modern code; nothing is
/// reported twice.
pub proof fn lemma_missing(legacy: Seq<Signature>, modern: Seq<Signature>)
    ensures
        forall|s: Signature| #[trigger] missing(legacy, modern).contains(s) <==> (legacy.contains(s)
            && !modern.contains(s)),
        missing(legacy, modern).no_duplicates(),
    decreases legacy.len(),
{
    if legacy.len() > 0 {
        let rest = legacy.drop_last();
        let last = legacy.last();
        lemma_missing(rest, modern);
        let found = missing(rest, modern);
        let res = missing(legacy, modern);
        assert forall|s: Signature| #[trigger] res.contains(s) <==> (legacy.contains(s)
            && !modern.contains(s)) by {
            if legacy.contains(s) && s != last {
                let k = choose|k: int| 0 <= k < legacy.len() && legacy[k] == s;
                assert(rest[k] == s);
                assert(rest.contains(s));
            }
            if rest.contains(s) {
                let k = choose|k: int| 0 <= k < rest.len() && rest[k] == s;
                assert(legacy[k] == s);
            }
            assert(legacy[legacy.len() - 1] == last);
            if found.contains(s) {
                let k = choose|k: int| 0 <= k < found.len() && found[k] == s;
                assert(res[k] == s);
            }
            if res.contains(s) {
                let k = choose|k: int| 0 <= k < res.len() && res[k] == s;
                if k < found.len() {
                    assert(found[k] == s);
                }
            }
            if res.len() > found.len() {
                assert(res[found.len() as int] == last);
            }
        }
    }
}

/// Nothing is missing exactly where the modern code declares all that the legacy code does.
pub proof fn lemma_nothing_missing(legacy: Seq<Signature>, modern: Seq<Signature>)
    ensures
        missing(legacy, modern).len() == 0 <==> forall|i: int|
            0 <= i < legacy.len() ==> modern.contains(#[trigger] legacy[i]),
{
    lemma_missing(legacy, modern);
    let res = missing(legacy, modern);
    if res.len() == 0 {
        assert forall|i: int| 0 <= i < legacy.len() implies modern.contains(#[trigger] legacy[i]) by {
            assert(legacy.contains(legacy[i]));
            assert(!res.contains(legacy[i]));
        }
    } else {
        assert(res.contains(res[0]));
    }
}

proof fn lemma_nothing_reported(graph: GraphModel, kind: Declaration)
    ensures
        reports(graph, graph, kind) == Seq::<Seq<char>>::empty(),
{
    let all = signatures(graph.files, kind);
    assert forall|i: int| 0 <= i < all.len() implies all.contains(#[trigger] all[i]) by {}
    lemma_nothing_missing(all, all);
    assert(reports(graph, graph, kind) =~= Seq::empty());
}

/// A code base lacks nothing of itself.
pub proof fn lemma_diff_with_itself(graph: GraphModel)
    ensures
        graph_diff(graph, graph) == AstDiffModel::blank(),
{
    lemma_nothing_reported(graph, Declaration::Function);
    lemma_nothing_reported(graph, Declaration::Class);
    lemma_nothing_reported(graph, Declaration::Import);
    lemma_nothing_reported(graph, Declaration::Branch);
}

// ---------------------------------------------------------------------------
// What a diff reports
// ---------------------------------------------------------------------------
proof fn lemma_signatures(files: Seq<FileModel>, kind: Declaration, s: Signature)
    ensures
        signatures(files, kind).contains(s) <==> exists|i: int, j: int|
            0 <= i < files.len() && 0 <= j < declared(files[i], kind).len()
                && #[trigger] declared(files[i], kind)[j] == s,
    decreases files.len(),
{
    let all = signatures(files, kind);
    if files.len() > 0 {
        let rest = files.drop_last();
        let before = signatures(rest, kind);
        let added = declared(files.last(), kind);
        lemma_signatures(rest, kind, s);
        assert(files.last() == files[files.len() - 1]);
        if all.contains(s) {
            let k = choose|k: int| 0 <= k < all.len() && all[k] == s;
            if k < before.len() {
                assert(before[k] == s);
                let (i, j) = choose|i: int, j: int|
                    0 <= i < rest.len() && 0 <= j < declared(rest[i], kind).len()
                        && #[trigger] declared(rest[i], kind)[j] == s;
                assert(declared(files[i], kind)[j] == s);
            } else {
                assert(declared(files[files.len() - 1], kind)[k - before.len()] == s);
            }
        }
        if exists|i: int, j: int|
            0 <= i < files.len() && 0 <= j < declared(files[i], kind).len()
                && #[trigger] declared(files[i], kind)[j] == s {
            let (i, j) = choose|i: int, j: int|
                0 <= i < files.len() && 0 <= j < declared(files[i], kind).len()
                    && #[trigger] declared(files[i], kind)[j] == s;
            if i < rest.len() {
                assert(declared(rest[i], kind)[j] == s);
                let k = choose|k: int| 0 <= k < before.len() && before[k] == s;
                assert(all[k] == s);
            } else {
                assert(all[before.len() + j] == s);
            }
        }
    }
}

proof fn lemma_reports(legacy: GraphModel, modern: GraphModel, kind: Declaration, text: Seq<char>)
    ensures
        reports(legacy, modern, kind).contains(text) <==> exists|i: int, j: int|
            0 <= i < legacy.files.len() && 0 <= j < declared(legacy.files[i], kind).len()
                && !signatures(modern.files, kind).contains(
                #[trigger] declared(legacy.files[i], kind)[j],
            ) && text == report(declared(legacy.files[i], kind)[j], kind),
{
    let left = signatures(legacy.files, kind);
    let right = signatures(modern.files, kind);
    let lost = missing(left, right);
    let all = reports(legacy, modern, kind);
    lemma_missing(left, right);
    if all.contains(text) {
        let k = choose|k: int| 0 <= k < all.len() && all[k] == text;
        let s = lost[k];
        assert(lost.contains(s));
        lemma_signatures(legacy.files, kind, s);
        let (i, j) = choose|i: int, j: int|
            0 <= i < legacy.files.len() && 0 <= j < declared(legacy.files[i], kind).len()
                && #[trigger] declared(legacy.files[i], kind)[j] == s;
        assert(text == report(declared(legacy.files[i], kind)[j], kind));
    }
    if exists|i: int, j: int|
        0 <= i < legacy.files.len() && 0 <= j < declared(legacy.files[i], kind).len()
            && !right.contains(#[trigger] declared(legacy.files[i], kind)[j]) && text == report(
            declared(legacy.files[i], kind)[j],
            kind,
        ) {
        let (i, j) = choose|i: int, j: int|
            0 <= i < legacy.files.len() && 0 <= j < declared(legacy.files[i], kind).len()
                && !right.contains(#[trigger] declared(legacy.files[i], kind)[j]) && text
                == report(declared(legacy.files[i], kind)[j], kind);
        let s = declared(legacy.files[i], kind)[j];
        lemma_signatures(legacy.files, kind, s);
        assert(lost.contains(s));
        let k = choose|k: int| 0 <= k < lost.len() && lost[k] == s;
        assert(all[k] == text);
    }
}

/// Some file of the graph with the path declares the function.
pub open spec fn declares_function(
    graph: GraphModel,
    path: Seq<char>,
    name: Seq<char>,
    parameters: Seq<Seq<char>>,
) -> bool {
    exists|k: int, l: int| #[trigger]
        is_function_at(graph, k, l, path, name, parameters)
}

pub open spec fn is_function_at(
    graph: GraphModel,
    k: int,
    l: int,
    path: Seq<char>,
    name: Seq<char>,
    parameters: Seq<Seq<char>>,
) -> bool {
    &&& 0 <= k < graph.files.len()
    &&& 0 <= l < graph.files[k].functions.len()
    &&& graph.files[k].path == path
    &&& graph.files[k].functions[l].name == name
    &&& graph.files[k].functions[l].parameters == parameters
}

/// The function at the position of the legacy graph is declared nowhere in the modern one.
pub open spec fn is_function_lost(legacy: GraphModel, modern: GraphModel, i: int, j: int) -> bool {
    &&& 0 <= i < legacy.files.len()
    &&& 0 <= j < legacy.files[i].functions.len()
    &&& !declares_function(
        modern,
        legacy.files[i].path,
        legacy.files[i].functions[j].name, legacy.files[i].functions[j].parameters,
    )
}

/// The functions with their parameters that are reported as missing are those of any legacy file
/// that no modern file declares under the same path, and no others.
pub proof fn lemma_missing_functions(legacy: GraphModel, modern: GraphModel)
    ensures
        forall|text: Seq<char>| #[trigger]
            graph_diff(legacy, modern).missing_functions.contains(text) <==> exists|i: int, j: int|
                #[trigger] is_function_lost(legacy, modern, i, j) && text == ({
                    let file = legacy.files[i];
                    file.path + "::"@ + file.functions[j].name + "("@ + compose::join(file.functions[j].parameters, ","@) + ")"@
                }),
{
    let kind = Declaration::Function;
    assert forall|text: Seq<char>| #[trigger]
        graph_diff(legacy, modern).missing_functions.contains(text) <==> exists|i: int, j: int|
            #[trigger] is_function_lost(legacy, modern, i, j) && text == ({
                let file = legacy.files[i];
                file.path + "::"@ + file.functions[j].name + "("@ + compose::join(file.functions[j].parameters, ","@) + ")"@
            }) by {
        lemma_reports(legacy, modern, kind, text);
        assert forall|i: int, j: int|
            0 <= i < legacy.files.len() && 0 <= j < legacy.files[i].functions.len() implies (
        signatures(modern.files, kind).contains(#[trigger] declared(legacy.files[i], kind)[j])
            <==> !is_function_lost(legacy, modern, i, j)) && report(
            declared(legacy.files[i], kind)[j],
            kind,
        ) == ({
            let file = legacy.files[i];
            file.path + "::"@ + file.functions[j].name + "("@ + compose::join(file.functions[j].parameters, ","@) + ")"@
        }) by {
            lemma_function_lost(legacy, modern, i, j);
        }
        if graph_diff(legacy, modern).missing_functions.contains(text) {
            let (i, j) = choose|i: int, j: int|
                0 <= i < legacy.files.len() && 0 <= j < declared(legacy.files[i], kind).len()
                    && !signatures(modern.files, kind).contains(
                    #[trigger] declared(legacy.files[i], kind)[j],
                ) && text == report(declared(legacy.files[i], kind)[j], kind);
            assert(is_function_lost(legacy, modern, i, j));
        }
        if exists|i: int, j: int|
            #[trigger] is_function_lost(legacy, modern, i, j) && text == ({
                let file = legacy.files[i];
                file.path + "::"@ + file.functions[j].name + "("@ + compose::join(file.functions[j].parameters, ","@) + ")"@
            }) {
            let (i, j) = choose|i: int, j: int|
                #[trigger] is_function_lost(legacy, modern, i, j) && text == ({
                    let file = legacy.files[i];
                    file.path + "::"@ + file.functions[j].name + "("@ + compose::join(file.functions[j].parameters, ","@) + ")"@
                });
            assert(!signatures(modern.files, kind).contains(declared(legacy.files[i], kind)[j]));
        }
    }
}

proof fn lemma_function_lost(legacy: GraphModel, modern: GraphModel, i: int, j: int)
    requires
        0 <= i < legacy.files.len(),
        0 <= j < legacy.files[i].functions.len(),
    ensures
        signatures(modern.files, Declaration::Function).contains(
            declared(legacy.files[i], Declaration::Function)[j],
        ) <==> !is_function_lost(legacy, modern, i, j),
        report(declared(legacy.files[i], Declaration::Function)[j], Declaration::Function) == ({
            let file = legacy.files[i];
            file.path + "::"@ + file.functions[j].name + "("@ + compose::join(file.functions[j].parameters, ","@) + ")"@
        }),
{
    let kind = Declaration::Function;
    let file = legacy.files[i];
    let s = declared(file, kind)[j];
    assert(s == seq![file.path, file.functions[j].name] + file.functions[j].parameters);
    lemma_signatures(modern.files, kind, s);
    assert(s.skip(2) =~= file.functions[j].parameters);
    if signatures(modern.files, kind).contains(s) {
        let (k, l) = choose|k: int, l: int|
            0 <= k < modern.files.len() && 0 <= l < declared(modern.files[k], kind).len()
                && #[trigger] declared(modern.files[k], kind)[l] == s;
        let other = modern.files[k];
        assert(declared(other, kind)[l] == seq![other.path, other.functions[l].name]
            + other.functions[l].parameters);
        let again = declared(other, kind)[l];
        assert(again[0] == s[0] && again[1] == s[1]);
        assert(again.skip(2) =~= other.functions[l].parameters);
        assert(is_function_at(
            modern,
            k,
            l,
            file.path,
            file.functions[j].name,
            file.functions[j].parameters,
        ));
    }
    if declares_function(modern, file.path, file.functions[j].name, file.functions[j].parameters) {
        let (k, l) = choose|k: int, l: int| #[trigger]
            is_function_at(
                modern,
                k,
                l,
                file.path,
                file.functions[j].name,
                file.functions[j].parameters,
            );
        assert(declared(modern.files[k], kind)[l] == s);
    }
}

/// Some file of the graph with the path declares the class.
pub open spec fn declares_class(graph: GraphModel, path: Seq<char>, name: Seq<char>) -> bool {
    exists|k: int, l: int| #[trigger]
        is_class_at(graph, k, l, path, name)
}

pub open spec fn is_class_at(
    graph: GraphModel,
    k: int,
    l: int,
    path: Seq<char>,
    name: Seq<char>,
) -> bool {
    &&& 0 <= k < graph.files.len()
    &&& 0 <= l < graph.files[k].classes.len()
    &&& graph.files[k].path == path
    &&& graph.files[k].classes[l].name == name
}

/// The class at the position of the legacy graph is declared nowhere in the modern one.
pub open spec fn is_class_lost(legacy: GraphModel, modern: GraphModel, i: int, j: int) -> bool {
    &&& 0 <= i < legacy.files.len()
    &&& 0 <= j < legacy.files[i].classes.len()
    &&& !declares_class(
        modern,
        legacy.files[i].path,
        legacy.files[i].classes[j].name,
    )
}

/// The classes that are reported as missing are those of any legacy file that no modern file
/// declares under the same path, and no others.
pub proof fn lemma_missing_classes(legacy: GraphModel, modern: GraphModel)
    ensures
        forall|text: Seq<char>| #[trigger]
            graph_diff(legacy, modern).missing_classes.contains(text) <==> exists|i: int, j: int|
                #[trigger] is_class_lost(legacy, modern, i, j) && text == ({
                    let file = legacy.files[i];
                    file.path + "::"@ + file.classes[j].name
                }),
{
    let kind = Declaration::Class;
    assert forall|text: Seq<char>| #[trigger]
        graph_diff(legacy, modern).missing_classes.contains(text) <==> exists|i: int, j: int|
            #[trigger] is_class_lost(legacy, modern, i, j) && text == ({
                let file = legacy.files[i];
                file.path + "::"@ + file.classes[j].name
            }) by {
        lemma_reports(legacy, modern, kind, text);
        assert forall|i: int, j: int|
            0 <= i < legacy.files.len() && 0 <= j < legacy.files[i].classes.len() implies (
        signatures(modern.files, kind).contains(#[trigger] declared(legacy.files[i], kind)[j])
            <==> !is_class_lost(legacy, modern, i, j)) && report(
            declared(legacy.files[i], kind)[j],
            kind,
        ) == ({
            let file = legacy.files[i];
            file.path + "::"@ + file.classes[j].name
        }) by {
            lemma_class_lost(legacy, modern, i, j);
        }
        if graph_diff(legacy, modern).missing_classes.contains(text) {
            let (i, j) = choose|i: int, j: int|
                0 <= i < legacy.files.len() && 0 <= j < declared(legacy.files[i], kind).len()
                    && !signatures(modern.files, kind).contains(
                    #[trigger] declared(legacy.files[i], kind)[j],
                ) && text == report(declared(legacy.files[i], kind)[j], kind);
            assert(is_class_lost(legacy, modern, i, j));
        }
        if exists|i: int, j: int|
            #[trigger] is_class_lost(legacy, modern, i, j) && text == ({
                let file = legacy.files[i];
                file.path + "::"@ + file.classes[j].name
            }) {
            let (i, j) = choose|i: int, j: int|
                #[trigger] is_class_lost(legacy, modern, i, j) && text == ({
                    let file = legacy.files[i];
                    file.path + "::"@ + file.classes[j].name
                });
            assert(!signatures(modern.files, kind).contains(declared(legacy.files[i], kind)[j]));
        }
    }
}

proof fn lemma_class_lost(legacy: GraphModel, modern: GraphModel, i: int, j: int)
    requires
        0 <= i < legacy.files.len(),
        0 <= j < legacy.files[i].classes.len(),
    ensures
        signatures(modern.files, Declaration::Class).contains(
            declared(legacy.files[i], Declaration::Class)[j],
        ) <==> !is_class_lost(legacy, modern, i, j),
        report(declared(legacy.files[i], Declaration::Class)[j], Declaration::Class) == ({
            let file = legacy.files[i];
            file.path + "::"@ + file.classes[j].name
        }),
{
    let kind = Declaration::Class;
    let file = legacy.files[i];
    let s = declared(file, kind)[j];
    assert(s == seq![file.path, file.classes[j].name]);
    lemma_signatures(modern.files, kind, s);
    reveal_with_fuel(compose::join, 3);
    assert(s.drop_last() =~= seq![file.path]);
    if signatures(modern.files, kind).contains(s) {
        let (k, l) = choose|k: int, l: int|
            0 <= k < modern.files.len() && 0 <= l < declared(modern.files[k], kind).len()
                && #[trigger] declared(modern.files[k], kind)[l] == s;
        let other = modern.files[k];
        assert(declared(other, kind)[l] == seq![other.path, other.classes[l].name]);
        let again = declared(other, kind)[l];
        assert(again[0] == s[0] && again[1] == s[1]);
        assert(is_class_at(modern, k, l, file.path, file.classes[j].name));
    }
    if declares_class(modern, file.path, file.classes[j].name) {
        let (k, l) = choose|k: int, l: int| #[trigger]
            is_class_at(modern, k, l, file.path, file.classes[j].name);
        assert(declared(modern.files[k], kind)[l] == s);
    }
}

/// Some file of the graph with the path declares the import.
pub open spec fn declares_import(
    graph: GraphModel,
    path: Seq<char>,
    kind: Seq<char>,
    source: Seq<char>,
) -> bool {
    exists|k: int, l: int| #[trigger]
        is_import_at(graph, k, l, path, kind, source)
}

pub open spec fn is_import_at(
    graph: GraphModel,
    k: int,
    l: int,
    path: Seq<char>,
    kind: Seq<char>,
    source: Seq<char>,
) -> bool {
    &&& 0 <= k < graph.files.len()
    &&& 0 <= l < graph.files[k].imports.len()
    &&& graph.files[k].path == path
    &&& graph.files[k].imports[l].kind == kind
    &&& graph.files[k].imports[l].source == source
}

/// The import at the position of the legacy graph is declared nowhere in the modern one.
pub open spec fn is_import_lost(legacy: GraphModel, modern: GraphModel, i: int, j: int) -> bool {
    &&& 0 <= i < legacy.files.len()
    &&& 0 <= j < legacy.files[i].imports.len()
    &&& !declares_import(
        modern,
        legacy.files[i].path,
        legacy.files[i].imports[j].kind, legacy.files[i].imports[j].source,
    )
}

/// The imports that are reported as missing are those of any legacy file that no modern file
/// declares under the same path, and no others.
pub proof fn lemma_missing_imports(legacy: GraphModel, modern: GraphModel)
    ensures
        forall|text: Seq<char>| #[trigger]
            graph_diff(legacy, modern).missing_imports.contains(text) <==> exists|i: int, j: int|
                #[trigger] is_import_lost(legacy, modern, i, j) && text == ({
                    let file = legacy.files[i];
                    file.path + "::"@ + file.imports[j].kind + "::"@ + file.imports[j].source
                }),
{
    let kind = Declaration::Import;
    assert forall|text: Seq<char>| #[trigger]
        graph_diff(legacy, modern).missing_imports.contains(text) <==> exists|i: int, j: int|
            #[trigger] is_import_lost(legacy, modern, i, j) && text == ({
                let file = legacy.files[i];
                file.path + "::"@ + file.imports[j].kind + "::"@ + file.imports[j].source
            }) by {
        lemma_reports(legacy, modern, kind, text);
        assert forall|i: int, j: int|
            0 <= i < legacy.files.len() && 0 <= j < legacy.files[i].imports.len() implies (
        signatures(modern.files, kind).contains(#[trigger] declared(legacy.files[i], kind)[j])
            <==> !is_import_lost(legacy, modern, i, j)) && report(
            declared(legacy.files[i], kind)[j],
            kind,
        ) == ({
            let file = legacy.files[i];
            file.path + "::"@ + file.imports[j].kind + "::"@ + file.imports[j].source
        }) by {
            lemma_import_lost(legacy, modern, i, j);
        }
        if graph_diff(legacy, modern).missing_imports.contains(text) {
            let (i, j) = choose|i: int, j: int|
                0 <= i < legacy.files.len() && 0 <= j < declared(legacy.files[i], kind).len()
                    && !signatures(modern.files, kind).contains(
                    #[trigger] declared(legacy.files[i], kind)[j],
                ) && text == report(declared(legacy.files[i], kind)[j], kind);
            assert(is_import_lost(legacy, modern, i, j));
        }
        if exists|i: int, j: int|
            #[trigger] is_import_lost(legacy, modern, i, j) && text == ({
                let file = legacy.files[i];
                file.path + "::"@ + file.imports[j].kind + "::"@ + file.imports[j].source
            }) {
            let (i, j) = choose|i: int, j: int|
                #[trigger] is_import_lost(legacy, modern, i, j) && text == ({
                    let file = legacy.files[i];
                    file.path + "::"@ + file.imports[j].kind + "::"@ + file.imports[j].source
                });
            assert(!signatures(modern.files, kind).contains(declared(legacy.files[i], kind)[j]));
        }
    }
}

proof fn lemma_import_lost(legacy: GraphModel, modern: GraphModel, i: int, j: int)
    requires
        0 <= i < legacy.files.len(),
        0 <= j < legacy.files[i].imports.len(),
    ensures
        signatures(modern.files, Declaration::Import).contains(
            declared(legacy.files[i], Declaration::Import)[j],
        ) <==> !is_import_lost(legacy, modern, i, j),
        report(declared(legacy.files[i], Declaration::Import)[j], Declaration::Import) == ({
            let file = legacy.files[i];
            file.path + "::"@ + file.imports[j].kind + "::"@ + file.imports[j].source
        }),
{
    let kind = Declaration::Import;
    let file = legacy.files[i];
    let s = declared(file, kind)[j];
    assert(s == seq![file.path, file.imports[j].kind, file.imports[j].source]);
    lemma_signatures(modern.files, kind, s);
    reveal_with_fuel(compose::join, 4);
    assert(s.drop_last() =~= seq![s[0], s[1]]);
    assert(s.drop_last().drop_last() =~= seq![s[0]]);
    if signatures(modern.files, kind).contains(s) {
        let (k, l) = choose|k: int, l: int|
            0 <= k < modern.files.len() && 0 <= l < declared(modern.files[k], kind).len()
                && #[trigger] declared(modern.files[k], kind)[l] == s;
        let other = modern.files[k];
        assert(declared(other, kind)[l] == seq![
            other.path,
            other.imports[l].kind,
            other.imports[l].source,
        ]);
        let again = declared(other, kind)[l];
        assert(again[0] == s[0] && again[1] == s[1] && again[2] == s[2]);
        assert(is_import_at(modern, k, l, file.path, file.imports[j].kind, file.imports[j].source));
    }
    if declares_import(modern, file.path, file.imports[j].kind, file.imports[j].source) {
        let (k, l) = choose|k: int, l: int| #[trigger]
            is_import_at(modern, k, l, file.path, file.imports[j].kind, file.imports[j].source);
        assert(declared(modern.files[k], kind)[l] == s);
    }
}

/// Some file of the graph with the path declares the branch.
pub open spec fn declares_branch(
    graph: GraphModel,
    path: Seq<char>,
    kind: Seq<char>,
    condition: Seq<char>,
) -> bool {
    exists|k: int, l: int| #[trigger]
        is_branch_at(graph, k, l, path, kind, condition)
}

pub open spec fn is_branch_at(
    graph: GraphModel,
    k: int,
    l: int,
    path: Seq<char>,
    kind: Seq<char>,
    condition: Seq<char>,
) -> bool {
    &&& 0 <= k < graph.files.len()
    &&& 0 <= l < graph.files[k].branches.len()
    &&& graph.files[k].path == path
    &&& graph.files[k].branches[l].kind == kind
    &&& graph.files[k].branches[l].condition == condition
}

/// The branch at the position of the legacy graph is declared nowhere in the modern one.
pub open spec fn is_branch_lost(legacy: GraphModel, modern: GraphModel, i: int, j: int) -> bool {
    &&& 0 <= i < legacy.files.len()
    &&& 0 <= j < legacy.files[i].branches.len()
    &&& !declares_branch(
        modern,
        legacy.files[i].path,
        legacy.files[i].branches[j].kind, legacy.files[i].branches[j].condition,
    )
}

/// The branches that are reported as missing are those of any legacy file that no modern file
/// declares under the same path, and no others.
pub proof fn lemma_missing_branches(legacy: GraphModel, modern: GraphModel)
    ensures
        forall|text: Seq<char>| #[trigger]
            graph_diff(legacy, modern).missing_branches.contains(text) <==> exists|i: int, j: int|
                #[trigger] is_branch_lost(legacy, modern, i, j) && text == ({
                    let file = legacy.files[i];
                    file.path + "::"@ + file.branches[j].kind + "::"@ + file.branches[j].condition
                }),
{
    let kind = Declaration::Branch;
    assert forall|text: Seq<char>| #[trigger]
        graph_diff(legacy, modern).missing_branches.contains(text) <==> exists|i: int, j: int|
            #[trigger] is_branch_lost(legacy, modern, i, j) && text == ({
                let file = legacy.files[i];
                file.path + "::"@ + file.branches[j].kind + "::"@ + file.branches[j].condition
            }) by {
        lemma_reports(legacy, modern, kind, text);
        assert forall|i: int, j: int|
            0 <= i < legacy.files.len() && 0 <= j < legacy.files[i].branches.len() implies (
        signatures(modern.files, kind).contains(#[trigger] declared(legacy.files[i], kind)[j])
            <==> !is_branch_lost(legacy, modern, i, j)) && report(
            declared(legacy.files[i], kind)[j],
            kind,
        ) == ({
            let file = legacy.files[i];
            file.path + "::"@ + file.branches[j].kind + "::"@ + file.branches[j].condition
        }) by {
            lemma_branch_lost(legacy, modern, i, j);
        }
        if graph_diff(legacy, modern).missing_branches.contains(text) {
            let (i, j) = choose|i: int, j: int|
                0 <= i < legacy.files.len() && 0 <= j < declared(legacy.files[i], kind).len()
                    && !signatures(modern.files, kind).contains(
                    #[trigger] declared(legacy.files[i], kind)[j],
                ) && text == report(declared(legacy.files[i], kind)[j], kind);
            assert(is_branch_lost(legacy, modern, i, j));
        }
        if exists|i: int, j: int|
            #[trigger] is_branch_lost(legacy, modern, i, j) && text == ({
                let file = legacy.files[i];
                file.path + "::"@ + file.branches[j].kind + "::"@ + file.branches[j].condition
            }) {
            let (i, j) = choose|i: int, j: int|
                #[trigger] is_branch_lost(legacy, modern, i, j) && text == ({
                    let file = legacy.files[i];
                    file.path + "::"@ + file.branches[j].kind + "::"@ + file.branches[j].condition
                });
            assert(!signatures(modern.files, kind).contains(declared(legacy.files[i], kind)[j]));
        }
    }
}

proof fn lemma_branch_lost(legacy: GraphModel, modern: GraphModel, i: int, j: int)
    requires
        0 <= i < legacy.files.len(),
        0 <= j < legacy.files[i].branches.len(),
    ensures
        signatures(modern.files, Declaration::Branch).contains(
            declared(legacy.files[i], Declaration::Branch)[j],
        ) <==> !is_branch_lost(legacy, modern, i, j),
        report(declared(legacy.files[i], Declaration::Branch)[j], Declaration::Branch) == ({
            let file = legacy.files[i];
            file.path + "::"@ + file.branches[j].kind + "::"@ + file.branches[j].condition
        }),
{
    let kind = Declaration::Branch;
    let file = legacy.files[i];
    let s = declared(file, kind)[j];
    assert(s == seq![file.path, file.branches[j].kind, file.branches[j].condition]);
    lemma_signatures(modern.files, kind, s);
    reveal_with_fuel(compose::join, 4);
    assert(s.drop_last() =~= seq![s[0], s[1]]);
    assert(s.drop_last().drop_last() =~= seq![s[0]]);
    if signatures(modern.files, kind).contains(s) {
        let (k, l) = choose|k: int, l: int|
            0 <= k < modern.files.len() && 0 <= l < declared(modern.files[k], kind).len()
                && #[trigger] declared(modern.files[k], kind)[l] == s;
        let other = modern.files[k];
        assert(declared(other, kind)[l] == seq![
            other.path,
            other.branches[l].kind,
            other.branches[l].condition,
        ]);
        let again = declared(other, kind)[l];
        assert(again[0] == s[0] && again[1] == s[1] && again[2] == s[2]);
        assert(is_branch_at(
            modern,
            k,
            l,
            file.path,
            file.branches[j].kind,
            file.branches[j].condition,
        ));
    }
    if declares_branch(modern, file.path, file.branches[j].kind, file.branches[j].condition) {
        let (k, l) = choose|k: int, l: int| #[trigger]
            is_branch_at(
                modern,
                k,
                l,
                file.path,
                file.branches[j].kind,
                file.branches[j].condition,
            );
        assert(declared(modern.files[k], kind)[l] == s);
    }
}

fn same_signature(a: &Vec<String>, b: &Vec<String>) -> (res: bool)
    ensures
        res == (a.deep_view() == b.deep_view()),
{
    if a.len() != b.len() {
        assert(a.deep_view().len() != b.deep_view().len());
        return false;
    }
    let mut i: usize = 0;
    while i < a.len()
        invariant
            i <= a.len(),
            a@.len() == b@.len(),
            forall|j: int| 0 <= j < i ==> (#[trigger] a@[j])@ == b@[j]@,
        decreases a.len() - i,
    {
        if !same(a[i].as_str(), b[i].as_str()) {
            assert(a.deep_view()[i as int] != b.deep_view()[i as int]);
            return false;
        }
        i += 1;
    }
    assert(a.deep_view() =~= b.deep_view());
    true
}

fn has_signature(list: &Vec<Vec<String>>, signature: &Vec<String>) -> (res: bool)
    ensures
        res == list.deep_view().contains(signature.deep_view()),
{
    let ghost all = list.deep_view();
    let mut i: usize = 0;
    while i < list.len()
        invariant
            i <= list.len(),
            all == list.deep_view(),
            forall|j: int| 0 <= j < i ==> #[trigger] all[j] != signature.deep_view(),
        decreases list.len() - i,
    {
        assert(all[i as int] == list@[i as int].deep_view());
        if same_signature(&list[i], signature) {
            assert(all[i as int] == signature.deep_view());
            return true;
        }
        i += 1;
    }
    false
}

fn copy_signature(signature: &Vec<String>) -> (res: Vec<String>)
    ensures
        res.deep_view() == signature.deep_view(),
{
    copy_list(signature.as_slice())
}

fn missing_signatures(legacy: &Vec<Vec<String>>, modern: &Vec<Vec<String>>) -> (res: Vec<
    Vec<String>,
>)
    ensures
        res.deep_view() == missing(legacy.deep_view(), modern.deep_view()),
{
    let ghost all = legacy.deep_view();
    let mut found: Vec<Vec<String>> = Vec::new();
    let mut i: usize = 0;
    assert(all.take(0) =~= Seq::empty());
    assert(found.deep_view() =~= Seq::empty());
    while i < legacy.len()
        invariant
            i <= legacy.len(),
            all == legacy.deep_view(),
            found.deep_view() == missing(all.take(i as int), modern.deep_view()),
        decreases legacy.len() - i,
    {
        proof {
            assert(all.take(i as int + 1).drop_last() == all.take(i as int));
            assert(all.take(i as int + 1).last() == legacy@[i as int].deep_view());
        }
        if !has_signature(modern, &legacy[i]) && !has_signature(&found, &legacy[i]) {
            let ghost before = found.deep_view();
            found.push(copy_signature(&legacy[i]));
            assert(found.deep_view() =~= before.push(all[i as int]));
        }
        i += 1;
    }
    assert(all.take(all.len() as int) == all);
    found
}

fn signature_of(path: &String, first: &String, second: Option<&String>, rest: &[String]) -> (res:
    Vec<String>)
    ensures
        res.deep_view() == match second {
            Some(s) => seq![path@, first@, s@] + rest.deep_view(),
            None => seq![path@, first@] + rest.deep_view(),
        },
{
    let mut out: Vec<String> = Vec::new();
    out.push(path.clone());
    out.push(first.clone());
    if let Some(s) = second {
        out.push(s.clone());
    }
    let ghost head = out@;
    let mut tail: Vec<String> = copy_list(rest);
    let ghost tail_view = tail@;
    out.append(&mut tail);
    proof {
        assert(out@ =~= head + tail_view);
        assert(out.deep_view() =~= match second {
            Some(s) => seq![path@, first@, s@] + rest.deep_view(),
            None => seq![path@, first@] + rest.deep_view(),
        }) by {
            assert forall|i: int| 0 <= i < tail_view.len() implies tail_view[i]@
                == rest.deep_view()[i] by {
                assert(tail_view.map_values(|s: String| s.deep_view())[i] == rest.deep_view()[i]);
            }
        }
    }
    out
}

/// The signatures of what the file declares of the kind.
pub fn file_signatures(file: &FileDependencyNode, kind: Declaration) -> (res: Vec<Vec<String>>)
    ensures
        res.deep_view() == declared(file.deep_view(), kind),
{
    let empty: Vec<String> = Vec::new();
    assert(empty.deep_view() =~= Seq::empty());
    let n: usize = match kind {
        Declaration::Function => file.functions.len(),
        Declaration::Class => file.classes.len(),
        Declaration::Import => file.imports.len(),
        Declaration::Branch => file.branches.len(),
    };
    let ghost wanted = declared(file.deep_view(), kind);
    let mut out: Vec<Vec<String>> = Vec::new();
    let mut i: usize = 0;
    assert(out.deep_view() =~= wanted.take(0));
    while i < n
        invariant
            i <= n,
            n == wanted.len(),
            wanted == declared(file.deep_view(), kind),
            empty.deep_view() == Seq::<Seq<char>>::empty(),
            out.deep_view() == wanted.take(i as int),
        decreases n - i,
    {
        let ghost before = out.deep_view();
        let signature: Vec<String> = match kind {
            Declaration::Function => signature_of(
                &file.path,
                &file.functions[i].name,
                None,
                file.functions[i].parameters.as_slice(),
            ),
            Declaration::Class => signature_of(
                &file.path,
                &file.classes[i].name,
                None,
                empty.as_slice(),
            ),
            Declaration::Import => signature_of(
                &file.path,
                &file.imports[i].kind,
                Some(&file.imports[i].source),
                empty.as_slice(),
            ),
            Declaration::Branch => signature_of(
                &file.path,
                &file.branches[i].kind,
                Some(&file.branches[i].condition),
                empty.as_slice(),
            ),
        };
        assert(signature.deep_view() =~= wanted[i as int]);
        out.push(signature);
        assert(out.deep_view() =~= before.push(wanted[i as int]));
        assert(wanted.take(i as int + 1) =~= wanted.take(i as int).push(wanted[i as int]));
        i += 1;
    }
    assert(wanted.take(n as int) =~= wanted);
    out
}

/// The signatures of what the files of the graph declare of the kind.
pub fn collect_signatures(graph: &DependencyGraph, kind: Declaration) -> (res: Vec<Vec<String>>)
    ensures
        res.deep_view() == signatures(graph.deep_view().files, kind),
{
    let ghost files = graph.deep_view().files;
    let mut out: Vec<Vec<String>> = Vec::new();
    let mut i: usize = 0;
    assert(files.take(0) =~= Seq::empty());
    assert(out.deep_view() =~= Seq::empty());
    while i < graph.files.len()
        invariant
            i <= graph.files.len(),
            files == graph.deep_view().files,
            out.deep_view() == signatures(files.take(i as int), kind),
        decreases graph.files.len() - i,
    {
        let ghost before = out.deep_view();
        let mut more: Vec<Vec<String>> = file_signatures(&graph.files[i], kind);
        let ghost added = more.deep_view();
        out.append(&mut more);
        proof {
            assert(out.deep_view() =~= before + added);
            assert(files.take(i as int + 1).drop_last() == files.take(i as int));
            assert(files.take(i as int + 1).last() == graph.files@[i as int].deep_view());
        }
        i += 1;
    }
    assert(files.take(files.len() as int) == files);
    out
}

fn report_text(signature: &Vec<String>, kind: Declaration) -> (res: String)
    requires
        signature@.len() >= 2,
    ensures
        res@ == report(signature.deep_view(), kind),
{
    if kind == Declaration::Function {
        let n: usize = signature.len();
        let parameters = vstd::slice::slice_subrange(signature.as_slice(), 2, n);
        assert(parameters.deep_view() =~= signature.deep_view().skip(2));
        let mut out = signature[0].clone();
        out.append("::");
        out.append(signature[1].as_str());
        out.append("(");
        out.append(join_list(parameters, ",").as_str());
        out.append(")");
        out
    } else {
        join_list(signature.as_slice(), "::")
    }
}

proof fn lemma_signature_len(files: Seq<FileModel>, kind: Declaration)
    ensures
        forall|i: int|
            0 <= i < signatures(files, kind).len() ==> (#[trigger] signatures(files, kind)[i]).len()
                >= 2,
    decreases files.len(),
{
    if files.len() > 0 {
        lemma_signature_len(files.drop_last(), kind);
        let before = signatures(files.drop_last(), kind);
        let all = signatures(files, kind);
        assert forall|i: int| 0 <= i < all.len() implies (#[trigger] all[i]).len() >= 2 by {
            if i < before.len() {
                assert(all[i] == before[i]);
            } else {
                assert(all[i] == declared(files.last(), kind)[i - before.len()]);
            }
        }
    }
}

fn diff_signatures(legacy: &DependencyGraph, modern: &DependencyGraph, kind: Declaration) -> (res:
    Vec<String>)
    ensures
        res.deep_view() == reports(legacy.deep_view(), modern.deep_view(), kind),
{
    let declared_before: Vec<Vec<String>> = collect_signatures(legacy, kind);
    let declared_now: Vec<Vec<String>> = collect_signatures(modern, kind);
    let found: Vec<Vec<String>> = missing_signatures(&declared_before, &declared_now);
    let ghost all = found.deep_view();
    let ghost wanted = reports(legacy.deep_view(), modern.deep_view(), kind);
    proof {
        lemma_signature_len(legacy.deep_view().files, kind);
        lemma_missing(declared_before.deep_view(), declared_now.deep_view());
        assert forall|i: int| 0 <= i < all.len() implies (#[trigger] all[i]).len() >= 2 by {
            assert(all.contains(all[i]));
            let k = choose|k: int|
                0 <= k < declared_before.deep_view().len() && declared_before.deep_view()[k]
                    == all[i];
            assert(signatures(legacy.deep_view().files, kind)[k].len() >= 2);
        }
    }
    let mut out: Vec<String> = Vec::new();
    let mut i: usize = 0;
    assert(out.deep_view() =~= wanted.take(0));
    while i < found.len()
        invariant
            i <= found.len(),
            all == found.deep_view(),
            all == missing_in(legacy.deep_view(), modern.deep_view(), kind),
            wanted == all.map_values(|s: Signature| report(s, kind)),
            forall|j: int| 0 <= j < all.len() ==> (#[trigger] all[j]).len() >= 2,
            out.deep_view() == wanted.take(i as int),
        decreases found.len() - i,
    {
        let ghost before = out.deep_view();
        assert(all[i as int] == found@[i as int].deep_view());
        assert(all[i as int].len() == found@[i as int]@.len());
        out.push(report_text(&found[i], kind));
        assert(out.deep_view() =~= before.push(wanted[i as int]));
        assert(wanted.take(i as int + 1) =~= wanted.take(i as int).push(wanted[i as int]));
        i += 1;
    }
    assert(wanted.take(all.len() as int) =~= wanted);
    out
}

pub fn diff_function_signatures(legacy: &DependencyGraph, modern: &DependencyGraph) -> (res: Vec<
    String,
>)
    ensures
        res.deep_view() == reports(legacy.deep_view(), modern.deep_view(), Declaration::Function),
{
    diff_signatures(legacy, modern, Declaration::Function)
}

pub fn diff_class_signatures(legacy: &DependencyGraph, modern: &DependencyGraph) -> (res: Vec<
    String,
>)
    ensures
        res.deep_view() == reports(legacy.deep_view(), modern.deep_view(), Declaration::Class),
{
    diff_signatures(legacy, modern, Declaration::Class)
}

pub fn diff_import_signatures(legacy: &DependencyGraph, modern: &DependencyGraph) -> (res: Vec<
    String,
>)
    ensures
        res.deep_view() == reports(legacy.deep_view(), modern.deep_view(), Declaration::Import),
{
    diff_signatures(legacy, modern, Declaration::Import)
}

pub fn diff_branch_signatures(legacy: &DependencyGraph, modern: &DependencyGraph) -> (res: Vec<
    String,
>)
    ensures
        res.deep_view() == reports(legacy.deep_view(), modern.deep_view(), Declaration::Branch),
{
    diff_signatures(legacy, modern, Declaration::Branch)
}

/// Reports what the modern code lacks of the legacy code.
pub fn diff_dependency_graphs(legacy: &DependencyGraph, modern: &DependencyGraph) -> (res: AstDiff)
    ensures
        res.deep_view() == graph_diff(legacy.deep_view(), modern.deep_view()),
{
    let res = AstDiff {
        missing_functions: diff_function_signatures(legacy, modern),
        missing_classes: diff_class_signatures(legacy, modern),
        missing_imports: diff_import_signatures(legacy, modern),
        missing_branches: diff_branch_signatures(legacy, modern),
        unsupported_files: Vec::new(),
        notes: Vec::new(),
    };
    assert(res.unsupported_files.deep_view() =~= Seq::empty());
    assert(res.notes.deep_view() =~= Seq::empty());
    res
}

impl AstDiff {
    /// Nothing is missing and nothing was noted.
    pub fn is_empty(&self) -> (res: bool)
        ensures
            res == (self.deep_view() == AstDiffModel::blank()),
    {
        let res = self.missing_functions.len() == 0 && self.missing_classes.len() == 0
            && self.missing_imports.len() == 0 && self.missing_branches.len() == 0
            && self.unsupported_files.len() == 0 && self.notes.len() == 0;
        proof {
            let model = self.deep_view();
            if res {
                assert(model.missing_functions =~= Seq::empty());
                assert(model.missing_classes =~= Seq::empty());
                assert(model.missing_imports =~= Seq::empty());
                assert(model.missing_branches =~= Seq::empty());
                assert(model.unsupported_files =~= Seq::empty());
                assert(model.notes =~= Seq::empty());
            } else if model == AstDiffModel::blank() {
                assert(model.missing_functions.len() == 0);
                assert(model.missing_classes.len() == 0);
                assert(model.missing_imports.len() == 0);
                assert(model.missing_branches.len() == 0);
                assert(model.unsupported_files.len() == 0);
                assert(model.notes.len() == 0);
            }
        }
        res
    }
}

/// The names are the same or in the order of their characters.
pub open spec fn in_order(a: Seq<char>, b: Seq<char>) -> bool {
    a == b || order::text_before(a, b)
}

/// A tidied summary lists functions, classes and variables by their names, imports by their
/// sources and branches by their kinds, and lists nothing twice.
pub proof fn lemma_tidy_in_order(file: FileModel, i: int, j: int)
    requires
        0 <= i < j,
    ensures
        ({
            let tidy = tidy_file(file);
            &&& j < tidy.functions.len() ==> in_order(
                tidy.functions[i].name,
                tidy.functions[j].name,
            ) && tidy.functions[i] != tidy.functions[j]
            &&& j < tidy.classes.len() ==> in_order(tidy.classes[i].name, tidy.classes[j].name)
                && tidy.classes[i] != tidy.classes[j]
            &&& j < tidy.variables.len() ==> in_order(
                tidy.variables[i].name,
                tidy.variables[j].name,
            ) && tidy.variables[i] != tidy.variables[j]
            &&& j < tidy.imports.len() ==> in_order(tidy.imports[i].source, tidy.imports[j].source)
                && tidy.imports[i] != tidy.imports[j]
            &&& j < tidy.branches.len() ==> in_order(tidy.branches[i].kind, tidy.branches[j].kind)
                && tidy.branches[i] != tidy.branches[j]
        }),
{
    let tidy = tidy_file(file);
    if j < tidy.functions.len() {
        ordering::lemma_arranged::<FunctionSignature>(file.functions);
        assert(order::precedes(
            FunctionSignature::key_of(tidy.functions[i]),
            FunctionSignature::key_of(tidy.functions[j]),
        ));
        lemma_functions_in_order(tidy.functions[i], tidy.functions[j]);
    }
    if j < tidy.classes.len() {
        ordering::lemma_arranged::<ClassDefinition>(
            file.classes.map_values(|c: ClassModel| tidy_class(c)),
        );
        assert(order::precedes(
            ClassDefinition::key_of(tidy.classes[i]),
            ClassDefinition::key_of(tidy.classes[j]),
        ));
        lemma_classes_in_order(tidy.classes[i], tidy.classes[j]);
    }
    if j < tidy.variables.len() {
        ordering::lemma_arranged::<VariableBinding>(file.variables);
        assert(order::precedes(
            VariableBinding::key_of(tidy.variables[i]),
            VariableBinding::key_of(tidy.variables[j]),
        ));
        lemma_variables_in_order(tidy.variables[i], tidy.variables[j]);
    }
    if j < tidy.imports.len() {
        ordering::lemma_arranged::<ImportEdge>(file.imports);
        assert(order::precedes(
            ImportEdge::key_of(tidy.imports[i]),
            ImportEdge::key_of(tidy.imports[j]),
        ));
        lemma_imports_in_order(tidy.imports[i], tidy.imports[j]);
    }
    if j < tidy.branches.len() {
        ordering::lemma_arranged::<BranchDescriptor>(file.branches);
        assert(order::precedes(
            BranchDescriptor::key_of(tidy.branches[i]),
            BranchDescriptor::key_of(tidy.branches[j]),
        ));
        lemma_branches_in_order(tidy.branches[i], tidy.branches[j]);
    }
}

proof fn lemma_head(
    t: Seq<u32>,
    a: Seq<u32>,
    b: Seq<u32>,
    c: Seq<u32>,
    d: Seq<u32>,
    e: Seq<u32>,
)
    ensures
        t + a + b + c + d + e == t + (a + b + c + d + e),
{
    lemma_assoc(t, a, b);
    lemma_assoc(t, a + b, c);
    lemma_assoc(t, a + b + c, d);
    lemma_assoc(t, a + b + c + d, e);
}

proof fn lemma_functions_in_order(a: FunctionModel, b: FunctionModel)
    requires
        order::precedes(function_key(a), function_key(b)),
    ensures
        in_order(a.name, b.name),
        a != b,
{
    order::lemma_irreflexive(function_key(a));
    let x = ordering::texts_key(a.parameters) + ordering::bool_key(a.is_async)
        + ordering::bool_key(a.is_generator) + ordering::option_key(a.return_type)
        + ordering::bool_key(a.exported);
    let y = ordering::texts_key(b.parameters) + ordering::bool_key(b.is_async)
        + ordering::bool_key(b.is_generator) + ordering::option_key(b.return_type)
        + ordering::bool_key(b.exported);
    lemma_head(
        ordering::text_key(a.name),
        ordering::texts_key(a.parameters),
        ordering::bool_key(a.is_async),
        ordering::bool_key(a.is_generator),
        ordering::option_key(a.return_type),
        ordering::bool_key(a.exported),
    );
    lemma_head(
        ordering::text_key(b.name),
        ordering::texts_key(b.parameters),
        ordering::bool_key(b.is_async),
        ordering::bool_key(b.is_generator),
        ordering::option_key(b.return_type),
        ordering::bool_key(b.exported),
    );
    ordering::lemma_text_order(a.name, b.name, x, y);
}

proof fn lemma_classes_in_order(a: ClassModel, b: ClassModel)
    requires
        order::precedes(class_key(a), class_key(b)),
    ensures
        in_order(a.name, b.name),
        a != b,
{
    order::lemma_irreflexive(class_key(a));
    let x = ordering::option_key(a.extends) + methods_key(a.methods) + ordering::bool_key(
        a.exported,
    );
    let y = ordering::option_key(b.extends) + methods_key(b.methods) + ordering::bool_key(
        b.exported,
    );
    assert(class_key(a) =~= ordering::text_key(a.name) + x);
    assert(class_key(b) =~= ordering::text_key(b.name) + y);
    ordering::lemma_text_order(a.name, b.name, x, y);
}

proof fn lemma_variables_in_order(a: VariableModel, b: VariableModel)
    requires
        order::precedes(variable_key(a), variable_key(b)),
    ensures
        in_order(a.name, b.name),
        a != b,
{
    order::lemma_irreflexive(variable_key(a));
    let x = ordering::text_key(a.declaration_kind) + ordering::option_key(a.value_kind)
        + ordering::bool_key(a.exported);
    let y = ordering::text_key(b.declaration_kind) + ordering::option_key(b.value_kind)
        + ordering::bool_key(b.exported);
    assert(variable_key(a) =~= ordering::text_key(a.name) + x);
    assert(variable_key(b) =~= ordering::text_key(b.name) + y);
    ordering::lemma_text_order(a.name, b.name, x, y);
}

proof fn lemma_imports_in_order(a: ImportModel, b: ImportModel)
    requires
        order::precedes(import_key(a), import_key(b)),
    ensures
        in_order(a.source, b.source),
        a != b,
{
    order::lemma_irreflexive(import_key(a));
    let x = ordering::texts_key(a.names) + ordering::text_key(a.kind);
    let y = ordering::texts_key(b.names) + ordering::text_key(b.kind);
    assert(import_key(a) =~= ordering::text_key(a.source) + x);
    assert(import_key(b) =~= ordering::text_key(b.source) + y);
    ordering::lemma_text_order(a.source, b.source, x, y);
}

proof fn lemma_branches_in_order(a: BranchModel, b: BranchModel)
    requires
        order::precedes(branch_key(a), branch_key(b)),
    ensures
        in_order(a.kind, b.kind),
        a != b,
{
    order::lemma_irreflexive(branch_key(a));
    let x = ordering::text_key(a.condition);
    let y = ordering::text_key(b.condition);
    ordering::lemma_text_order(a.kind, b.kind, x, y);
}

} // verus!
