use migration_pipeline::cli::{
    absolute_project_root, accept_api_key, accept_custom_model, check_project_root,
    current_setting, default_cpu_limit, default_memory_limit, env_assignment_key,
    format_env_value, model_options, model_settings, noninteractive_roots, read_model_choice,
    same_root, update_env_file, MainMenuAction, ModelChoice, SettingsMenuAction,
    DEFAULT_MODERN_ROOT,
};
use migration_pipeline::config::EnvReading;
use migration_pipeline::skills::file_io::FileState;

#[test]
fn env_assignment_key_ignores_comments() {
    assert_eq!(env_assignment_key("# OPENAI_API_KEY=foo").as_deref(), None);
    assert_eq!(
        env_assignment_key(" OPENAI_API_KEY=foo").as_deref(),
        Some("OPENAI_API_KEY")
    );
    assert_eq!(
        env_assignment_key("export TOGETHER_API_KEY=bar").as_deref(),
        Some("TOGETHER_API_KEY")
    );
}

#[test]
fn format_env_value_quotes_special_characters() {
    assert_eq!(format_env_value("abc"), "\"abc\"");
    assert_eq!(format_env_value("a\"b"), "\"a\\\"b\"");
    assert_eq!(format_env_value("a\\b"), "\"a\\\\b\"");
}

#[test]
fn persist_env_value_updates_existing_key_without_dropping_others() {
    let contents = update_env_file(
        "OPENAI_API_KEY=\"old\"\n# comment\nTOGETHER_API_KEY=\"keep\"\n",
        "OPENAI_API_KEY",
        "new-value",
    );

    assert!(contents.contains("OPENAI_API_KEY=\"new-value\""));
    assert!(contents.contains("TOGETHER_API_KEY=\"keep\""));
    assert!(contents.contains("# comment"));
}

#[test]
fn default_modern_root_constant_matches_requested_default() {
    assert_eq!(DEFAULT_MODERN_ROOT, "./modern_app");
}

#[test]
fn settings_file_is_updated_line_by_line() {
    assert_eq!(update_env_file("", "KEY", "v"), "KEY=\"v\"\n");
    assert_eq!(update_env_file("", "KEY", "a\r\nb"), "KEY=\"a\\r\\nb\"\n");
    assert_eq!(update_env_file("KEY=1\r\r\nB=2\n", "KEY", "v"), "KEY=\"v\"\nB=2\n");
    assert_eq!(update_env_file("A=1\r\nB=2", "KEY", "v"), "A=1\nB=2\nKEY=\"v\"\n");
    assert_eq!(
        update_env_file("export KEY=1\nB=2\n KEY = 3\n", "KEY", "v"),
        "KEY=\"v\"\nB=2\nKEY=\"v\"\n"
    );
}

#[test]
fn later_setting_of_a_variable_counts() {
    let once = update_env_file("A=1\n", "KEY", "first");
    assert_eq!(
        update_env_file(once.as_str(), "KEY", "second"),
        update_env_file("A=1\n", "KEY", "second")
    );
}

#[test]
fn quoted_values_keep_line_breaks_in_one_line() {
    assert_eq!(format_env_value("a\nb\r\\\""), "\"a\\nb\\r\\\\\\\"\"");
    assert_eq!(env_assignment_key("=x"), None);
    assert_eq!(env_assignment_key("no assignment"), None);
    assert_eq!(env_assignment_key("   "), None);
}

#[test]
fn menus_name_their_entries() {
    assert_eq!(MainMenuAction::StartMigration.label(), "Start Migration");
    assert_eq!(MainMenuAction::SettingsAndConfiguration.label(), "Settings & Configuration");
    assert_eq!(MainMenuAction::Exit.label(), "Exit");
    assert_eq!(SettingsMenuAction::ManageApiKeys.label(), "Manage API Keys");
    assert_eq!(SettingsMenuAction::ConfigureTaskModels.label(), "Configure Task Models");
    assert_eq!(SettingsMenuAction::ConfigureDockerLimits.label(), "Configure Docker Limits");
    assert_eq!(SettingsMenuAction::BackToMainMenu.label(), "Back to Main Menu");
}

#[test]
fn model_menu_offers_the_current_model_first() {
    let settings = model_settings("lab/model-1");
    assert_eq!(settings.len(), 4);
    assert_eq!(settings[1].env_key, "EXECUTOR_MODEL");
    assert_eq!(
        model_options(&Some("gpt-5.4".to_owned()), &settings[1].recommendations),
        vec!["Current: gpt-5.4", "moonshotai/Kimi-K2.5", "minimax/minimax-m2.5", "Custom model..."]
    );
    assert_eq!(
        model_options(&None, &settings[0].recommendations),
        vec![
            "gpt-5.4",
            "google/gemini-3-flash-preview",
            "lab/model-1",
            "Custom model..."
        ]
    );
    assert_eq!(settings[2].recommendations, vec!["zai-org/GLM-5", "gpt-5.4", "lab/model-1"]);
    assert_eq!(
        settings[3].recommendations,
        vec!["gpt-5.4", "lab/model-1", "google/gemini-3-flash-preview"]
    );
    assert_eq!(
        model_settings("")[3].recommendations,
        vec!["gpt-5.4", "google/gemini-3-flash-preview"]
    );
    assert!(matches!(read_model_choice("Custom model..."), ModelChoice::Custom));
    assert!(matches!(read_model_choice("Current: x"), ModelChoice::Model(m) if m == "x"));
    assert!(matches!(read_model_choice("gpt-5.4"), ModelChoice::Model(m) if m == "gpt-5.4"));
}

#[test]
fn entered_settings_must_not_be_blank() {
    assert_eq!(
        accept_custom_model("EXECUTOR_MODEL", " ").unwrap_err().message(),
        "EXECUTOR_MODEL cannot be empty"
    );
    assert_eq!(accept_custom_model("EXECUTOR_MODEL", " m ").unwrap(), "m");
    assert_eq!(
        accept_api_key("OPENAI_API_KEY", "\t".to_owned()).unwrap_err().message(),
        "OPENAI_API_KEY cannot be empty"
    );
    assert_eq!(accept_api_key("OPENAI_API_KEY", " k".to_owned()).unwrap(), " k");
}

#[test]
fn readings_fall_back_to_defaults() {
    assert_eq!(current_setting(&EnvReading::Missing), None);
    assert_eq!(current_setting(&EnvReading::Value(" ".to_owned())), None);
    assert_eq!(current_setting(&EnvReading::Value("m".to_owned())).as_deref(), Some("m"));
    assert_eq!(default_memory_limit(&EnvReading::Missing), "256m");
    assert_eq!(default_cpu_limit(&EnvReading::Value("2".to_owned())), "2");
}

#[test]
fn roots_are_resolved_and_checked() {
    assert_eq!(absolute_project_root("/work", "app"), "/work/app");
    assert_eq!(absolute_project_root("/work", "/app"), "/app");
    let roots = noninteractive_roots(
        "/work",
        &EnvReading::Missing,
        &EnvReading::Value(" out ".to_owned()),
    );
    assert_eq!(roots.legacy_root, "/work/legacy_app");
    assert_eq!(roots.modern_root, "/work/out");
    assert!(same_root("/work/./app", "/work/app/"));
    assert!(!same_root("/work/app", "/work/app2"));
    assert!(check_project_root("/work", FileState::Directory).is_ok());
    assert_eq!(
        check_project_root("/work", FileState::Missing).unwrap_err().message(),
        "required project directory does not exist: /work"
    );
    assert_eq!(
        check_project_root("/work", FileState::Other).unwrap_err().message(),
        "required project path is not a directory: /work"
    );
    assert_eq!(
        check_project_root("/work", FileState::File).unwrap_err().message(),
        "required project path is not a directory: /work"
    );
}
