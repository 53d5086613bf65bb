use codeharbor::environment::{
    compose_yaml, container_name, container_status_filter, environment_runtime_status,
    environment_status_from_docker_status, next_available_ide_port, sanitize_environment_id,
    select_available_port, sort_environments_by_creation, validate_environment_id,
    environment_id_for_name, environment_source, new_environment_config, EnvironmentConfig,
    EnvironmentSource,
};

fn config(id: &str, ide_port: u16, created_at: u64) -> EnvironmentConfig {
    EnvironmentConfig {
        id: id.into(),
        name: id.to_uppercase(),
        profile: "epitech-cpp".into(),
        host_path: format!("/projects/{id}"),
        container_path: "/workspace".into(),
        ide_port,
        created_at,
    }
}

#[test]
fn sanitizes_environment_name_for_file_system_and_container_names() {
    assert_eq!(
        sanitize_environment_id("My FTP / Student #42"),
        "my-ftp-student-42"
    );
}

#[test]
fn sanitizes_edge_cases() {
    assert_eq!(sanitize_environment_id("  --Hello__World--  "), "hello-world");
    assert_eq!(sanitize_environment_id(""), "");
    assert_eq!(sanitize_environment_id("#!?"), "");
    assert_eq!(sanitize_environment_id("\u{3000}Été 2024\t"), "t-2024");
    // Unicode lowercasing can produce ASCII letters.
    assert_eq!(sanitize_environment_id("\u{212A}elvin"), "kelvin");
    assert_eq!(sanitize_environment_id("\u{130}stanbul"), "i-stanbul");
}

#[test]
fn sanitizing_twice_changes_nothing() {
    for name in ["My FTP / Student #42", "  A--b  c ", "x", "-_-", "ÀÉ 9"] {
        let once = sanitize_environment_id(name);
        assert_eq!(sanitize_environment_id(&once), once);
        if !once.is_empty() {
            assert!(validate_environment_id(&once).is_ok());
        }
    }
}

#[test]
fn deleting_environment_files_rejects_invalid_environment_id() {
    let result = validate_environment_id("../outside");

    assert_eq!(result, Err("Identifiant d'environnement invalide".into()));
}

#[test]
fn validates_environment_ids() {
    assert_eq!(validate_environment_id("my-ftp"), Ok(()));
    assert!(validate_environment_id("").is_err());
    assert!(validate_environment_id("My-ftp").is_err());
    assert!(validate_environment_id("a--b").is_err());
    assert!(validate_environment_id("a-").is_err());
}

#[test]
fn builds_stable_container_name_from_environment_id() {
    assert_eq!(container_name("my-ftp"), "codeharbor-my-ftp");
}

#[test]
fn builds_exact_docker_status_filter() {
    assert_eq!(container_status_filter("my-ftp"), "name=^/codeharbor-my-ftp$");
}

#[test]
fn maps_docker_status_to_environment_status() {
    assert_eq!(
        environment_status_from_docker_status("Up 3 minutes"),
        "running"
    );
    assert_eq!(
        environment_status_from_docker_status("Exited (0) 1 minute ago"),
        "stopped"
    );
    assert_eq!(environment_status_from_docker_status(""), "not_created");
}

#[test]
fn maps_docker_status_edge_cases() {
    assert_eq!(environment_status_from_docker_status("  Up 2 hours \n"), "running");
    assert_eq!(environment_status_from_docker_status("Upgrading"), "stopped");
    assert_eq!(environment_status_from_docker_status(" \n "), "not_created");
    assert_eq!(environment_status_from_docker_status("Up"), "stopped");
}

#[test]
fn runtime_status_of_missing_container() {
    let status = environment_runtime_status(&config("my-ftp", 8080, 1), Err("docker".into()));
    assert_eq!(status.environment_id, "my-ftp");
    assert_eq!(status.status, "not_created");
    assert_eq!(status.container_name, "codeharbor-my-ftp");
    let status = environment_runtime_status(&config("my-ftp", 8080, 1), Ok("Up 1 second".into()));
    assert_eq!(status.status, "running");
}

#[test]
fn selects_first_free_ide_port_after_used_and_unavailable_ports() {
    let selected = select_available_port(8080, &[8081], |port| port != 8080)
        .expect("port should be selected");

    assert_eq!(selected, 8082);
}

#[test]
fn reports_when_no_ide_port_is_available() {
    let error =
        select_available_port(8999, &[], |_| false).expect_err("no port should be selected");

    assert_eq!(error, "Aucun port IDE libre entre 8080 et 8999");
}

#[test]
fn port_search_edge_cases() {
    assert!(select_available_port(9000, &[], |_| true).is_err());
    assert_eq!(select_available_port(8999, &[], |_| true), Ok(8999));
    assert!(select_available_port(8998, &[8998, 8999], |_| true).is_err());
}

#[test]
fn next_ide_port_skips_ports_of_other_environments() {
    let configs = vec![config("a", 8080, 1), config("b", 8081, 2)];
    assert_eq!(next_available_ide_port(&configs, None, |_| true), Ok(8082));
    assert_eq!(next_available_ide_port(&configs, Some("a"), |_| true), Ok(8080));
    assert_eq!(
        next_available_ide_port(&configs, Some("b"), |port| port != 8080),
        Ok(8081)
    );
}

#[test]
fn sorts_environments_oldest_first() {
    let sorted = sort_environments_by_creation(vec![
        config("c", 8082, 30),
        config("a", 8080, 10),
        config("b", 8081, 20),
        config("d", 8083, 10),
    ]);
    let ids: Vec<&str> = sorted.iter().map(|c| c.id.as_str()).collect();
    assert_eq!(ids, vec!["a", "d", "b", "c"]);
}

#[test]
fn generated_compose_mounts_host_project_to_workspace() {
    let config = EnvironmentConfig {
        id: "my-ftp".into(),
        name: "My FTP".into(),
        profile: "epitech-cpp".into(),
        host_path: "/Users/me/projects/myftp".into(),
        container_path: "/workspace".into(),
        ide_port: 8083,
        created_at: 1,
    };

    let compose = compose_yaml(&config);

    assert!(compose.contains("container_name: codeharbor-my-ftp"));
    assert!(compose.contains("127.0.0.1:8083:8080"));
    assert!(compose.contains("\"/Users/me/projects/myftp:/workspace\""));
}

#[test]
fn compose_escapes_quotes_in_host_path() {
    let mut c = config("q", 8090, 1);
    c.host_path = "/tmp/a\"b".into();
    let compose = compose_yaml(&c);
    assert!(compose.starts_with("services:\n  workspace:\n    platform: linux/amd64\n"));
    assert!(compose.contains("      - \"/tmp/a\\\"b:/workspace\"\n"));
    assert!(compose.ends_with("volumes:\n  vscode-data:\n  vscode-config:\n  shell-history:\n"));
}

#[test]
fn new_environment_names_give_sanitized_identifiers() {
    assert_eq!(environment_id_for_name("  My Project 42 "), Ok("my-project-42".to_string()));
    assert_eq!(
        environment_id_for_name(" -- !! "),
        Err("Nom d'environnement invalide".to_string())
    );
}

#[test]
fn local_folder_source_must_be_an_existing_directory() {
    let source = environment_source(Some("/home/u"), "demo", "  /work/demo ", "  ", |dir| dir == "/work/demo", |_| false);
    assert_eq!(source, Ok(EnvironmentSource::LocalFolder { path: "/work/demo".into() }));

    let missing = environment_source(Some("/home/u"), "demo", "/nowhere", "", |_| false, |_| false);
    assert_eq!(missing, Err("Dossier local introuvable: /nowhere".to_string()));

    let nothing = environment_source(Some("/home/u"), "demo", "  ", "", |_| true, |_| false);
    assert_eq!(nothing, Err("Renseigne un dossier local ou une URL Git".to_string()));
}

#[test]
fn git_source_clones_into_projects_directory_by_default() {
    let source = environment_source(
        Some("/home/u"),
        "demo",
        "",
        " https://example.com/demo.git ",
        |_| false,
        |_| false,
    );
    assert_eq!(
        source,
        Ok(EnvironmentSource::GitClone {
            url: "https://example.com/demo.git".into(),
            path: "/home/u/.codeharbor/projects/demo".into(),
        })
    );

    let taken = environment_source(Some("/home/u"), "demo", "/work/clone", "git@host:demo", |_| false, |p| p == "/work/clone");
    assert_eq!(taken, Err("Le dossier de clone existe déjà: /work/clone".to_string()));

    let no_home = environment_source(None, "demo", "", "git@host:demo", |_| false, |_| false);
    assert_eq!(no_home, Err("Variable HOME introuvable".to_string()));
}

#[test]
fn new_environment_config_uses_the_cpp_profile() {
    let config = new_environment_config("demo".into(), "  Demo  ", "/work/demo".into(), 8081, 1_700_000_000);
    assert_eq!(config.id, "demo");
    assert_eq!(config.name, "Demo");
    assert_eq!(config.profile, "epitech-cpp");
    assert_eq!(config.host_path, "/work/demo");
    assert_eq!(config.container_path, "/workspace");
    assert_eq!(config.ide_port, 8081);
    assert_eq!(config.created_at, 1_700_000_000);
}

#[test]
fn sanitizing_non_ascii_names_twice_changes_nothing() {
    for name in ["Élan Été 2", "  Mon Projet — C++ ", "ÀÉÎ", "plain-id", "Kelvin \u{212A}"] {
        let once = sanitize_environment_id(name);
        assert_eq!(sanitize_environment_id(&once), once);
        if !once.is_empty() {
            assert!(validate_environment_id(&once).is_ok());
        }
    }
}
