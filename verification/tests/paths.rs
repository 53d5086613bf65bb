use codeharbor::paths::{
    environment_config_path, environment_dir, environments_dir, extension, file_name,
    history_dir, is_plausible_executable_path, path_join_str, projects_dir, prototype_dir_from_root,
    relative_display_path, repo_root_from_current_dir, report_path, reports_dir,
    validate_report_name, validate_workspace_relative_path,
};

#[test]
fn resolves_existing_prototype_directory() {
    let root = "/tmp/codeharbor-test";
    let prototype = "/tmp/codeharbor-test/prototype/docker-workspace";

    let resolved = prototype_dir_from_root(root, |dir| dir == prototype)
        .expect("prototype path should resolve");

    assert_eq!(resolved, prototype);
}

#[test]
fn reports_missing_prototype_directory() {
    let root = "/tmp/codeharbor-missing-test";

    let error = prototype_dir_from_root(root, |_| false).expect_err("missing prototype should fail");

    assert!(error.contains("Prototype Docker introuvable"));
    assert_eq!(
        error,
        "Prototype Docker introuvable: /tmp/codeharbor-missing-test/prototype/docker-workspace"
    );
}

#[test]
fn resolves_repo_root_from_tauri_working_directory() {
    let resolved = repo_root_from_current_dir("/tmp/codeharbor-root-test/src-tauri", |dir| {
        dir == "/tmp/codeharbor-root-test/prototype/docker-workspace"
    })
    .expect("repo root should resolve");

    assert_eq!(resolved, "/tmp/codeharbor-root-test");
}

#[test]
fn repo_root_resolution_fails_without_prototype() {
    assert_eq!(
        repo_root_from_current_dir("/a/b", |_| false),
        Err("Impossible de résoudre la racine du projet depuis /a/b".to_string())
    );
    assert_eq!(repo_root_from_current_dir("/a/b", |dir| dir == "/a/b/prototype/docker-workspace"), Ok("/a/b".to_string()));
    assert_eq!(repo_root_from_current_dir("/a/b", |dir| dir == "/prototype/docker-workspace"), Ok("/".to_string()));
}

#[test]
fn joins_paths_like_std() {
    assert_eq!(path_join_str("/home/u", ".codeharbor"), "/home/u/.codeharbor");
    assert_eq!(path_join_str("/home/u/", "x"), "/home/u/x");
    assert_eq!(path_join_str("", "x"), "x");
    assert_eq!(path_join_str("/home/u", "/etc"), "/etc");
    assert_eq!(path_join_str("a", ""), "a/");
}

#[test]
fn lays_out_codeharbor_directories() {
    let home = Some("/home/me");
    assert_eq!(environments_dir(home), Ok("/home/me/.codeharbor/environments".to_string()));
    assert_eq!(projects_dir(home), Ok("/home/me/.codeharbor/projects".to_string()));
    assert_eq!(
        environment_dir(home, "my-ftp"),
        Ok("/home/me/.codeharbor/environments/my-ftp".to_string())
    );
    assert_eq!(
        environment_config_path(home, "my-ftp"),
        Ok("/home/me/.codeharbor/environments/my-ftp/config.json".to_string())
    );
    assert_eq!(
        history_dir(home, "my-ftp"),
        Ok("/home/me/.codeharbor/environments/my-ftp/history".to_string())
    );
    assert_eq!(
        reports_dir(Some("/home/me/"), "my-ftp"),
        Ok("/home/me/.codeharbor/environments/my-ftp/reports".to_string())
    );
    assert_eq!(environments_dir(None), Err("Variable HOME introuvable".to_string()));
    assert_eq!(reports_dir(None, "x"), Err("Variable HOME introuvable".to_string()));
}

#[test]
fn rejects_unsafe_report_names() {
    assert!(validate_report_name("report-20260809-153000.md").is_ok());
    assert!(validate_report_name("../secret.md").is_err());
    assert!(validate_report_name("nested/report.md").is_err());
    assert!(validate_report_name("/tmp/report.md").is_err());
    assert!(validate_report_name("report.txt").is_err());
}

#[test]
fn report_name_errors_say_why() {
    assert_eq!(validate_report_name(""), Err("Nom de rapport invalide".to_string()));
    assert_eq!(validate_report_name("a\\b.md"), Err("Nom de rapport invalide".to_string()));
    assert_eq!(
        validate_report_name(".md"),
        Err("Le rapport doit être un fichier Markdown .md".to_string())
    );
    assert_eq!(
        validate_report_name("notes.MD"),
        Err("Le rapport doit être un fichier Markdown .md".to_string())
    );
    assert_eq!(
        validate_report_name("."),
        Err("Le rapport doit être un fichier Markdown .md".to_string())
    );
    assert!(validate_report_name("a.b.md").is_ok());
}

#[test]
fn resolves_report_paths_inside_report_directory() {
    assert_eq!(
        report_path(Some("/h"), "env", "report-1.md"),
        Ok("/h/.codeharbor/environments/env/reports/report-1.md".to_string())
    );
    assert_eq!(
        report_path(Some("/h"), "env", "../x.md"),
        Err("Nom de rapport invalide".to_string())
    );
    assert_eq!(
        report_path(None, "env", "report-1.md"),
        Err("Variable HOME introuvable".to_string())
    );
}

#[test]
fn rejects_unsafe_container_relative_paths() {
    assert!(validate_workspace_relative_path("bin/my_binary").is_ok());
    assert!(validate_workspace_relative_path("codeharbor_sample").is_ok());
    assert!(validate_workspace_relative_path("../secret").is_err());
    assert!(validate_workspace_relative_path("/etc/passwd").is_err());
    assert!(validate_workspace_relative_path("bin/foo;touch pwned").is_err());
}

#[test]
fn workspace_path_edge_cases() {
    assert_eq!(validate_workspace_relative_path(""), Err("Chemin de binaire invalide".to_string()));
    assert!(validate_workspace_relative_path("a/..").is_err());
    assert!(validate_workspace_relative_path("a/../b").is_err());
    assert!(validate_workspace_relative_path("..").is_err());
    assert!(validate_workspace_relative_path("a/...").is_err());
    assert!(validate_workspace_relative_path("..a/b..").is_err());
    assert_eq!(validate_workspace_relative_path("a..b"), Err("Chemin de binaire invalide".to_string()));
    assert!(validate_workspace_relative_path("a.b/c.d").is_ok());
    assert!(validate_workspace_relative_path("./bin/app").is_ok());
    assert!(validate_workspace_relative_path("bin app").is_err());
}

#[test]
fn finds_file_names_and_extensions_like_std() {
    assert_eq!(file_name("a/b.tar.gz"), Some("b.tar.gz".to_string()));
    assert_eq!(extension("a/b.tar.gz"), Some("gz".to_string()));
    assert_eq!(file_name("a/b/"), Some("b".to_string()));
    assert_eq!(file_name("a/."), Some("a".to_string()));
    assert_eq!(file_name("a/.."), None);
    assert_eq!(file_name("/"), None);
    assert_eq!(file_name("."), None);
    assert_eq!(extension(".bashrc"), None);
    assert_eq!(extension("a."), Some("".to_string()));
    assert_eq!(extension("dir.d/file"), None);
}

#[test]
fn recognises_plausible_executables() {
    assert!(is_plausible_executable_path("/p/my_binary"));
    assert!(is_plausible_executable_path("bin/app.exe"));
    assert!(is_plausible_executable_path(".bashrc"));
    assert!(!is_plausible_executable_path("/p/Makefile"));
    assert!(!is_plausible_executable_path("README.md"));
    assert!(!is_plausible_executable_path("DockerFile"));
    assert!(!is_plausible_executable_path("da/Back.PNG"));
    assert!(!is_plausible_executable_path("lib/libx.so"));
}

#[test]
fn displays_paths_relative_to_project_root() {
    assert_eq!(relative_display_path("/p", "/p/src/main.c"), "src/main.c");
    assert_eq!(relative_display_path("/p/", "/p/a"), "a");
    assert_eq!(relative_display_path("/q", "/p/a\\b"), "/p/a/b");
}
