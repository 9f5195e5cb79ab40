//! What the agents can do: read sources, parse them, and run them in a sandbox.
pub mod ast;
pub mod branches;
pub mod declarations;
pub mod file_io;
pub mod graph;
pub mod imports;
pub mod names;
pub mod ordering;
pub mod sandbox;
pub mod shadow;
pub mod syntax;

pub use ast::{parse_dependency_graph_json, ASTParsingSkill};
pub use file_io::{FileIOSkill, FileWriteSkill, Skill};
pub use graph::{
    diff_dependency_graphs, AstDiff, BranchDescriptor, ClassDefinition, DependencyGraph,
    FileDependencyNode, FunctionSignature, ImportEdge, MethodSignature, VariableBinding,
};
pub use sandbox::{SandboxSkill, TerminalCommandOutput};
pub use shadow::{
    ExecutionDiff, ExecutionTarget, ShadowFixture, ShadowTestRequest, ShadowTestSkill,
};
