use migration_pipeline::skills::file_io::{
    resolve_context_file, sort_paths, validate_relative_file, FileState, ListedPath, ReadFile,
};
use migration_pipeline::skills::{
    diff_dependency_graphs, parse_dependency_graph_json, ASTParsingSkill, AstDiff,
    BranchDescriptor, ClassDefinition, DependencyGraph, FileDependencyNode, FileIOSkill,
    FileWriteSkill, FunctionSignature, ImportEdge, Skill,
};

fn text(value: &str) -> String {
    value.to_owned()
}

fn file(path: &str, contents: &str) -> ReadFile {
    ReadFile { path: text(path), bytes: contents.as_bytes().to_vec() }
}

fn graph_of(path: &str, source: &str) -> DependencyGraph {
    let files = vec![file(path, source)];
    let parsed = ASTParsingSkill::parse_files("/root", &files).expect("sources should parse");
    let graph = ASTParsingSkill::build_graph("/root", parsed).expect("graph should build");
    parse_dependency_graph_json(Ok(graph)).expect("dependency graph should parse")
}

#[test]
fn diff_dependency_graphs_preserves_missing_signature_reporting() {
    let legacy = DependencyGraph {
        files: vec![FileDependencyNode {
            path: "src/app.ts".to_owned(),
            functions: vec![FunctionSignature {
                name: "bootstrap".to_owned(),
                parameters: vec!["port".to_owned()],
                ..FunctionSignature::default()
            }],
            classes: vec![ClassDefinition {
                name: "AppService".to_owned(),
                ..ClassDefinition::default()
            }],
            imports: vec![ImportEdge {
                source: "./server".to_owned(),
                kind: "named".to_owned(),
                ..ImportEdge::default()
            }],
            branches: vec![BranchDescriptor {
                kind: "if".to_owned(),
                condition: "ready".to_owned(),
            }],
            ..FileDependencyNode::default()
        }],
    };
    let modern = DependencyGraph::default();

    let diff = diff_dependency_graphs(&legacy, &modern);

    assert_eq!(
        diff,
        AstDiff {
            missing_functions: vec!["src/app.ts::bootstrap(port)".to_owned()],
            missing_classes: vec!["src/app.ts::AppService".to_owned()],
            missing_imports: vec!["src/app.ts::named::./server".to_owned()],
            missing_branches: vec!["src/app.ts::if::ready".to_owned()],
            ..AstDiff::default()
        }
    );
}

#[test]
fn graphs_do_not_differ_from_themselves() {
    let graph = graph_of("/root/a.py", "import os\n\ndef f(x):\n    if x:\n        return 1\n");
    assert!(diff_dependency_graphs(&graph, &graph).is_empty());
    assert!(!diff_dependency_graphs(&graph, &DependencyGraph::default()).is_empty());
}

#[test]
fn ast_parsing_skill_builds_dependency_graph_for_typescript() {
    let parsed = graph_of(
        "/root/src/app.ts",
        r#"
                import { serve } from "./server";
                const version = "1.0.0";
                export class AppService {
                    async run(port: number) {
                        return serve(port);
                    }
                }
                export async function bootstrap(port: number): Promise<void> {
                    return serve(port);
                }
            "#,
    );

    assert_eq!(parsed.files[0].path, "src/app.ts");
    assert_eq!(parsed.files[0].imports[0].source, "./server");
    assert_eq!(parsed.files[0].functions[0].name, "bootstrap");
    assert_eq!(parsed.files[0].classes[0].name, "AppService");
    assert_eq!(parsed.files[0].variables[0].name, "version");
}

#[test]
fn ast_parsing_skill_builds_dependency_graph_for_python() {
    let parsed = graph_of(
        "/root/src/app.py",
        r#"
import requests
from services.server import serve

VERSION = "1.0.0"

class AppService(BaseService):
    async def run(self, port):
        return serve(port)

async def bootstrap(port):
    if port > 0:
        return serve(port)
    return None
"#,
    );
    let file = parsed.files.first().expect("python file should be present");

    assert_eq!(file.path, "src/app.py");
    assert_eq!(file.language, "python");
    assert!(file.imports.iter().any(|import_edge| import_edge.source == "requests"));
    assert!(file.functions.iter().any(|function| function.name == "bootstrap"));
    assert!(file.classes.iter().any(|class_definition| class_definition.name == "AppService"));
    assert!(file.variables.iter().any(|variable| variable.name == "VERSION"));
    assert!(file.branches.iter().any(|branch| branch.kind == "if"));
}

#[test]
fn ast_parsing_skill_builds_dependency_graph_for_go() {
    let parsed = graph_of(
        "/root/src/app.go",
        r#"
package main

import "fmt"

var version = "1.0.0"

type AppService struct{}

func Bootstrap(port int) string {
    if port > 0 {
        return fmt.Sprintf("%d", port)
    }
    return ""
}
"#,
    );
    let file = parsed.files.first().expect("go file should be present");

    assert_eq!(file.path, "src/app.go");
    assert_eq!(file.language, "go");
    assert!(file.imports.iter().any(|import_edge| import_edge.source == "fmt"));
    assert!(file.functions.iter().any(|function| function.name == "Bootstrap"));
    assert!(file.classes.iter().any(|class_definition| class_definition.name == "AppService"));
    assert!(file.variables.iter().any(|variable| variable.name == "version"));
    assert!(file.branches.iter().any(|branch| branch.kind == "if"));
}

#[test]
fn ast_parsing_skill_builds_dependency_graph_for_rust() {
    let parsed = graph_of(
        "/root/src/app.rs",
        r#"
use crate::server::serve;

pub const VERSION: &str = "1.0.0";

pub struct AppService;

pub fn bootstrap(port: u16) -> String {
    if port > 0 {
        return serve(port);
    }
    String::new()
}
"#,
    );
    let file = parsed.files.first().expect("rust file should be present");

    assert_eq!(file.path, "src/app.rs");
    assert_eq!(file.language, "rust");
    assert!(file.imports.iter().any(|import_edge| import_edge.source == "crate::server::serve"));
    assert!(file.functions.iter().any(|function| function.name == "bootstrap"));
    assert!(file.classes.iter().any(|class_definition| class_definition.name == "AppService"));
    assert!(file.variables.iter().any(|variable| variable.name == "VERSION"));
    assert!(file.branches.iter().any(|branch| branch.kind == "if"));
}

#[test]
fn file_io_skill_reads_text_files_and_skips_ignored_directories() {
    let files = vec![
        file("/root/src/app.js", "console.log('hello');"),
        ReadFile { path: text("/root/binary.bin"), bytes: vec![0, 159, 146, 150] },
    ];
    let output = FileIOSkill::collect_directory("/root", &files).expect("skill should succeed");

    assert!(output.contains("// File: src/app.js"));
    assert!(output.contains("console.log('hello');"));
    assert!(!output.contains("binary.bin"));
    assert!(!FileIOSkill::should_descend(true, 1, "node_modules"));
    assert!(FileIOSkill::should_descend(true, 1, "src"));
}

#[test]
fn file_io_skill_can_read_selected_context_files() {
    let paths = vec![text("src/db.js")];
    let files = vec![file("/root/src/db.js", "module.exports = {};")];
    let output = FileIOSkill::collect_selected_files("/root", &files, &paths)
        .expect("skill should read selected files");

    assert!(output.contains("// File: src/db.js"));
    assert!(!output.contains("src/app.js"));
}

#[test]
fn file_write_skill_creates_missing_directories_and_writes_file() {
    let plan = FileWriteSkill::plan(&[
        text("/root/modern_app/src/generated.ts"),
        text("export const value = 1;"),
    ])
    .expect("file write skill should succeed");

    assert_eq!(plan.parent.as_deref(), Some("/root/modern_app/src"));
    assert_eq!(plan.path, "/root/modern_app/src/generated.ts");
    assert_eq!(plan.contents, "export const value = 1;");
}

#[test]
fn text_that_is_no_unicode_is_left_out() {
    assert_eq!(FileIOSkill::read_text_file(&vec![104, 105]).as_deref(), Some("hi"));
    assert_eq!(FileIOSkill::read_text_file(&vec![195, 164]).as_deref(), Some("ä"));
    assert_eq!(FileIOSkill::read_text_file(&vec![255]), None);
    let binary = vec![ReadFile { path: text("/root/b"), bytes: vec![255] }];
    assert_eq!(
        FileIOSkill::collect_directory("/root", &binary).unwrap_err().message(),
        "no readable text files found in legacy directory /root"
    );
}

#[test]
fn context_files_are_resolved_and_checked() {
    assert_eq!(resolve_context_file("/root", "./a.js").unwrap(), "/root/a.js");
    assert!(resolve_context_file("/root", "../a.js").is_err());
    assert!(validate_relative_file("/root/a.js", "a.js", FileState::File).is_ok());
    assert!(validate_relative_file("/root/a.js", "a.js", FileState::Other).is_ok());
    assert_eq!(
        validate_relative_file("/root/a.js", "a.js", FileState::Missing).unwrap_err().message(),
        "context file does not exist: /root/a.js"
    );
    assert_eq!(
        validate_relative_file("/root/a.js", "a.js", FileState::Directory).unwrap_err().message(),
        "context file path points to a directory, expected a file: a.js"
    );
}

#[test]
fn paths_are_sorted_by_their_components() {
    let listed = |path: &str| ListedPath { path: text(path) };
    let sorted = sort_paths(vec![listed("a-b/x"), listed("b"), listed("a/z"), listed("a/y")]);
    let names: Vec<String> = sorted.into_iter().map(|p| p.path).collect();
    assert_eq!(names, vec!["a/y", "a/z", "a-b/x", "b"]);
}

#[test]
fn skills_name_themselves() {
    assert_eq!(ASTParsingSkill.name(), "ast_parsing");
    assert_eq!(FileIOSkill.name(), "file_io");
    assert_eq!(FileWriteSkill.name(), "file_write");
}

#[test]
fn exported_go_names_start_with_a_capital() {
    let graph = graph_of(
        "/root/a.go",
        "package main\n\nfunc Ärger(x int) {}\n\nfunc small() {}\n",
    );
    let function = |name: &str| {
        graph.files[0].functions.iter().find(|f| f.name == name).expect("function").exported
    };
    assert!(function("Ärger"));
    assert!(!function("small"));
}

#[test]
fn unsupported_sources_are_named() {
    assert!(ASTParsingSkill::check_supported("/root/a.rs", "a.rs").is_ok());
    assert!(ASTParsingSkill::check_supported("/root/a.cob", "a.cob")
        .unwrap_err()
        .message()
        .contains("a.cob"));
    assert!(ASTParsingSkill::build_graph("/root", Vec::new()).is_err());
    assert_eq!(
        parse_dependency_graph_json(Err(text("eof"))).unwrap_err().message(),
        "failed to deserialize dependency graph JSON"
    );
}
