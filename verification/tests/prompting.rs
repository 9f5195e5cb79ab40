use migration_pipeline::agents::BlueprinterAgent;
use migration_pipeline::prompts::{render, settle_rendering};

#[test]
fn render_blueprinter_system_template() {
    let result = render("blueprinter/system.j2", &[]);
    assert!(result.is_ok());
    let rendered = result.unwrap();
    assert!(rendered.contains("Staff Software Engineer"));
    assert!(rendered.contains("legacy migrations"));
}

#[test]
fn render_blueprinter_user_template() {
    let context = [
        ("legacy_dir_path".to_string(), "legacy_app".to_string()),
        ("dependency_graph".to_string(), String::from(r#"{"files": []}"#)),
    ];
    let result = render("blueprinter/user.j2", &context);
    assert!(result.is_ok());
    let rendered = result.unwrap();
    assert!(rendered.contains("legacy_app"));
    let expected = r#"{"files": []}"#;
    assert!(rendered.contains(expected));
}

#[test]
fn render_returns_error_for_nonexistent_template() {
    let result = render("nonexistent/template.j2", &[]);
    assert!(result.is_err());
    let error = result.unwrap_err();
    assert!(error.message().contains("failed to load prompt template"));
}

#[test]
fn unknown_templates_name_the_cause() {
    let error = render("nonexistent/template.j2", &[]).unwrap_err();
    let chain = error.chain();
    assert_eq!(chain.len(), 2);
    assert!(chain[1].contains("nonexistent/template.j2"));
}

#[test]
fn rendered_prompts_match_those_of_the_agent() {
    let context = [
        ("legacy_dir_path".to_string(), "legacy_app".to_string()),
        ("dependency_graph".to_string(), "{}".to_string()),
    ];
    let rendered = render("blueprinter/user.j2", &context).unwrap();
    assert_eq!(
        rendered.trim_end(),
        BlueprinterAgent::user_prompt("legacy_app", "{}").trim_end()
    );
}

#[test]
fn failed_renderings_keep_their_cause() {
    let error = settle_rendering("t.j2", Err("boom".to_owned())).unwrap_err();
    assert_eq!(
        error.chain(),
        vec!["failed to render prompt template `t.j2`".to_owned(), "boom".to_owned()]
    );
    assert_eq!(settle_rendering("t.j2", Ok("text".to_owned())).unwrap(), "text");
}
