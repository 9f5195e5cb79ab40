use migration_pipeline::utils::path::{
    container_path, docker_bind_mount, normalize_relative_path, relative_path_from_root,
};
use migration_pipeline::utils::posix::{
    path_components, path_extension, path_file_name, path_join, path_parent, path_stem,
};
use migration_pipeline::utils::state::{
    loaded_state, resolve_state_path, state_directory, ticket_status_label,
};
use migration_pipeline::agents::TicketStatus;

fn text(value: &str) -> String {
    value.to_owned()
}

#[test]
fn normalize_relative_path_rejects_absolute_windows_paths() {
    let error = normalize_relative_path("C:\\temp\\app.ts", "generated file path")
        .expect_err("absolute windows path should fail");

    assert!(error.message().contains("must be relative"));
}

#[test]
fn normalize_relative_path_preserves_posix_output() {
    let path = normalize_relative_path("src\\server.ts", "generated file path")
        .expect("path should normalize");

    assert_eq!(path.as_str(), "src/server.ts");
}

#[test]
fn relative_path_from_root_uses_posix_separators() {
    assert_eq!(
        relative_path_from_root("modern_app", "modern_app/tests/server.test.ts").as_str(),
        "tests/server.test.ts"
    );
}

#[test]
fn container_path_joins_mount_and_relative_path() {
    assert_eq!(
        container_path("/app", "tests/server.test.ts"),
        "/app/tests/server.test.ts"
    );
}

#[test]
fn docker_bind_mount_rejects_relative_source_paths() {
    let error = docker_bind_mount("modern_app", "/app", true)
        .expect_err("relative source path should fail");

    assert!(error.message().contains("must be absolute"));
}

#[test]
fn docker_bind_mount_spells_out_the_mount() {
    assert_eq!(
        docker_bind_mount("/srv/app", "/app", true).unwrap(),
        "type=bind,source=/srv/app,target=/app,readonly"
    );
    assert_eq!(
        docker_bind_mount("/srv/app", "/app", false).unwrap(),
        "type=bind,source=/srv/app,target=/app"
    );
}

#[test]
fn normalizing_refuses_each_bad_path_with_its_reason() {
    let message = |path: &str| normalize_relative_path(path, "file path").unwrap_err().message();
    assert_eq!(message("  "), "file path cannot be empty");
    assert_eq!(message("/etc/passwd"), "file path must be relative, received `/etc/passwd`");
    assert_eq!(message("\\share\\x"), "file path must be relative, received `\\share\\x`");
    assert_eq!(message("a/../b"), "file path cannot traverse upwards: `a/../b`");
    assert_eq!(message("./."), "file path normalized to an empty value");
}

#[test]
fn normalizing_twice_changes_nothing_more() {
    for path in ["a/./b//c.ts", "src\\x\\y.js", " plain.txt "] {
        let once = normalize_relative_path(path, "file path").unwrap();
        let twice = normalize_relative_path(once.as_str(), "file path").unwrap();
        assert_eq!(once, twice);
    }
    assert_eq!(normalize_relative_path("a/./b//c.ts", "file path").unwrap(), "a/b/c.ts");
}

#[test]
fn normalized_paths_stay_below_their_root() {
    let clean = normalize_relative_path("x/./y.ts", "file path").unwrap();
    assert_eq!(path_join("/out", clean.as_str()), "/out/x/y.ts");
    assert_eq!(relative_path_from_root("/out", "/out/x/y.ts"), "x/y.ts");
    assert_eq!(relative_path_from_root("/other", "/out/x"), "out/x");
}

#[test]
fn paths_are_taken_apart_as_the_standard_library_does() {
    for path in [
        "a/b.c", "/a/b.tar.gz", ".bashrc", "a/..", "/", "", ".", "./x/", "a//b/./c", "dir.d/", "..",
    ] {
        let std_path = std::path::Path::new(path);
        let name = std_path.file_name().and_then(|v| v.to_str()).map(str::to_owned);
        assert_eq!(path_file_name(path), name, "{path}");
        let stem = std_path.file_stem().and_then(|v| v.to_str()).map(str::to_owned);
        assert_eq!(path_stem(path), stem, "{path}");
        let extension = std_path.extension().and_then(|v| v.to_str()).map(str::to_owned);
        assert_eq!(path_extension(path), extension, "{path}");
        assert_eq!(
            path_parent(path),
            std_path.parent().and_then(|p| p.to_str()).map(str::to_owned),
            "{path}"
        );
        let components: Vec<String> = std_path
            .components()
            .map(|c| c.as_os_str().to_str().unwrap().to_owned())
            .collect();
        assert_eq!(path_components(path), components, "{path}");
        assert_eq!(
            path_join("base", path),
            std::path::Path::new("base").join(path).to_str().unwrap(),
            "{path}"
        );
    }
}

#[test]
fn state_paths_are_resolved_against_the_working_directory() {
    assert_eq!(resolve_state_path("/x/state.db", Err(text("gone"))).unwrap(), "/x/state.db");
    assert_eq!(resolve_state_path("state.db", Ok(text("/home"))).unwrap(), "/home/state.db");
    let error = resolve_state_path("state.db", Err(text("gone"))).unwrap_err();
    assert_eq!(
        error.chain(),
        vec![
            text("failed to resolve current working directory for state database"),
            text("gone"),
        ]
    );
    assert_eq!(state_directory("/home/state.db").unwrap(), "/home");
    assert_eq!(
        state_directory("state.db").unwrap_err().message(),
        "state database path must have a parent directory: state.db"
    );
    assert!(state_directory("/").is_err());
}

#[test]
fn status_labels_and_empty_state() {
    assert_eq!(ticket_status_label(&TicketStatus::Todo), "todo");
    assert_eq!(ticket_status_label(&TicketStatus::InProgress), "in_progress");
    assert_eq!(ticket_status_label(&TicketStatus::Verified), "verified");
    assert_eq!(ticket_status_label(&TicketStatus::Failed(text("x"))), "failed");
    assert!(loaded_state(Vec::new()).is_none());
}
