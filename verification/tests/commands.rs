use codeharbor::commands::{
    build_script, clean_script, diagnostics_report, format_command_result, tests_script, valgrind_script,
    valgrind_target_script,
};

#[test]
fn formats_failed_command_with_stderr() {
    let message = format_command_result("docker compose", false, "", "daemon unavailable");

    assert_eq!(
        message,
        Err("docker compose a échoué: daemon unavailable".into())
    );
}

#[test]
fn formats_command_results_for_each_outcome() {
    assert_eq!(
        format_command_result("make", true, "  built\n", "warning"),
        Ok("built".to_string())
    );
    assert_eq!(
        format_command_result("make", true, " \n\t", ""),
        Ok("make terminé avec succès.".to_string())
    );
    assert_eq!(
        format_command_result("make", false, "out", "  \n"),
        Err("make a échoué.".to_string())
    );
    assert_eq!(
        format_command_result("make", false, "", "\u{3000}boom\u{a0}"),
        Err("make a échoué: boom".to_string())
    );
}

#[test]
fn build_script_runs_make_in_workspace() {
    assert_eq!(build_script(), "cd /workspace && make");
}

#[test]
fn tests_script_runs_tests_run_target() {
    assert_eq!(tests_script(), "cd /workspace && make tests_run");
}

#[test]
fn clean_script_runs_fclean_then_clean_without_failing() {
    assert_eq!(
        clean_script(),
        "cd /workspace && (make fclean || true) && (make clean || true)"
    );
}

#[test]
fn valgrind_script_lists_executables_when_target_is_ambiguous() {
    assert!(valgrind_script().contains("find . -maxdepth 2 -type f -perm -111"));
    assert!(valgrind_script().contains("Valgrind: plusieurs exécutables possibles"));
}

#[test]
fn valgrind_scripts_run_under_virtual_x_server() {
    assert!(valgrind_script().contains("xvfb-run -a"));
    assert!(valgrind_target_script("my_hunter").contains("xvfb-run -a"));
}

#[test]
fn valgrind_scripts_have_runtime_timeout_for_interactive_programs() {
    assert!(valgrind_script().contains("timeout 15s"));
    assert!(valgrind_target_script("my_hunter").contains("timeout 15s"));
}

#[test]
fn valgrind_scripts_explain_timeout_failures() {
    assert!(valgrind_script().contains("Valgrind: timeout après 15s"));
    assert!(valgrind_target_script("my_hunter").contains("Valgrind: timeout après 15s"));
}

#[test]
fn valgrind_script_keeps_line_continuations() {
    let script = valgrind_script();
    assert!(script.starts_with("cd /workspace && \\\nexecutables=$(find"));
    assert!(script.ends_with("\"$executables\"; \\\nfi"));
    assert!(script.contains("printf '%s\\n' \"$executables\""));
}

#[test]
fn valgrind_target_script_escapes_quotes_in_target() {
    let script = valgrind_target_script("bin/a\"b");
    assert_eq!(
        script,
        "cd /workspace && timeout 15s xvfb-run -a valgrind --leak-check=full --show-leak-kinds=all --track-origins=yes ./bin/a\\\"b; status=$?; if [ \"$status\" = \"124\" ]; then printf 'Valgrind: timeout après 15s. Le programme semble interactif ou ne se termine pas seul.\\n' >&2; fi; exit \"$status\""
    );
}

#[test]
fn diagnostics_report_falls_back_on_errors() {
    let text = diagnostics_report(
        Ok("Docker version 27.0.1".to_string()),
        3,
        Err("port 1420 a échoué.".to_string()),
    );
    assert_eq!(
        text,
        "Docker: Docker version 27.0.1\nEnvironnements: 3\nDev server: Port dev 1420 libre."
    );

    let text = diagnostics_report(
        Err("docker --version a échoué.".to_string()),
        0,
        Ok("node 123 LISTEN".to_string()),
    );
    assert_eq!(
        text,
        "Docker: docker --version a échoué.\nEnvironnements: 0\nDev server: node 123 LISTEN"
    );
}
