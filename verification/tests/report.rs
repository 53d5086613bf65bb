use codeharbor::environment::EnvironmentConfig;
use codeharbor::evaluation::EvaluationRunRecord;
use codeharbor::paths::validate_report_name;
use codeharbor::project::ProjectInspection;
use codeharbor::report::{
    markdown_list, next_report_path, render_evaluation_report, report_file_name,
    select_report_files, truncate_block, ReportFile,
};

fn run(command: &str, label: &str, started_at: u64, success: bool) -> EvaluationRunRecord {
    EvaluationRunRecord {
        id: format!("{started_at}-{command}"),
        command: command.into(),
        label: label.into(),
        started_at,
        duration_ms: 7,
        success,
        stdout: format!("{label} out"),
        stderr: if success { String::new() } else { "err".into() },
    }
}

fn config() -> EnvironmentConfig {
    EnvironmentConfig {
        id: "report-render-test".into(),
        name: "Report Render Test".into(),
        profile: "epitech-cpp".into(),
        host_path: "/tmp/report-render-test".into(),
        container_path: "/workspace".into(),
        ide_port: 8080,
        created_at: 1,
    }
}

#[test]
fn truncates_long_report_blocks_with_marker() {
    let input = "x".repeat(12);
    let truncated = truncate_block(&input, 5);

    assert!(truncated.starts_with("xxxxx"));
    assert!(truncated.contains("[truncated"));
}

#[test]
fn truncation_is_exact() {
    assert_eq!(
        truncate_block(&"x".repeat(12), 5),
        "xxxxx\n\n[truncated: original output exceeded 5 characters]"
    );
    assert_eq!(truncate_block("éàü", 3), "éàü");
    assert_eq!(truncate_block("éàüö", 3), "éàü\n\n[truncated: original output exceeded 3 characters]");
    assert_eq!(truncate_block("", 0), "");
}

#[test]
fn lists_items_in_markdown() {
    assert_eq!(markdown_list(&vec![]), "- none\n");
    assert_eq!(
        markdown_list(&vec!["all".to_string(), "re".to_string()]),
        "- `all`\n- `re`\n"
    );
}

#[test]
fn renders_required_report_sections() {
    let config = config();
    let inspection = Ok(ProjectInspection {
        has_makefile: true,
        make_targets: vec!["all".into(), "tests_run".into()],
        language_counts: vec![("c".into(), 2usize)],
        executables: vec!["my_binary".into()],
        artifacts: vec!["coverage.gcov".into()],
    });
    let history = vec![EvaluationRunRecord {
        id: "run-1".into(),
        command: "valgrind".into(),
        label: "valgrind my_binary".into(),
        started_at: 42,
        duration_ms: 100,
        success: true,
        stdout: "ok".into(),
        stderr: "".into(),
    }];

    let markdown = render_evaluation_report(
        &config,
        100,
        inspection,
        history,
        Ok("services:\n  workspace:".into()),
        Ok("container logs".into()),
    );

    assert!(markdown.contains("# CodeHarbor Evaluation Report"));
    assert!(markdown.contains("## Summary"));
    assert!(markdown.contains("## Project"));
    assert!(markdown.contains("## Evaluation History"));
    assert!(markdown.contains("## Latest Outputs"));
    assert!(markdown.contains("## Valgrind"));
    assert!(markdown.contains("## Docker"));
    assert!(markdown.contains("## Manual Review Notes"));
    assert!(markdown.contains("not an automated grade"));
    assert!(markdown.contains("my_binary"));
}

#[test]
fn renders_exact_report_lines() {
    let history = vec![
        run("valgrind", "valgrind a.out", 42, true),
        run("build", "make", 41, false),
    ];
    let markdown = render_evaluation_report(
        &config(),
        100,
        Ok(ProjectInspection {
            has_makefile: false,
            make_targets: vec![],
            language_counts: vec![("c".into(), 2), ("h".into(), 1)],
            executables: vec![],
            artifacts: vec![],
        }),
        history,
        Err("no docker".into()),
        Ok("logs".into()),
    );
    assert!(markdown.starts_with("# CodeHarbor Evaluation Report\n\n## Summary\n\n- Environment: Report Render Test\n- Environment ID: `report-render-test`\n- Generated at: `100`\n- Host path: `/tmp/report-render-test`\n"));
    assert!(markdown.contains("## Project\n\n- Makefile: missing\n- Make targets:\n- none\n- Language counts:\n- `c`: 2\n- `h`: 1\n- Executables:\n- none\n- Artifacts:\n- none\n\n"));
    assert!(markdown.contains("- `valgrind` `valgrind a.out`: OK in 7ms at `42`\n- `build` `make`: FAIL in 7ms at `41`\n\n"));
    assert!(markdown.contains("### build - make\n\n```text\nmake out\n\n[stderr]\nerr\n```\n\n"));
    assert!(markdown.contains("## Valgrind\n\n### valgrind a.out\n\n- Status: OK\n- Duration: 7ms\n\n```text\nvalgrind a.out out\n\n```\n\n## Docker"));
    assert!(markdown.contains("```yaml\nDocker compose config failed: no docker\n```"));
    assert!(markdown.ends_with("- Treat this report as supporting evidence, not a final grade.\n"));
}

#[test]
fn renders_empty_history_and_failed_inspection() {
    let markdown = render_evaluation_report(
        &config(),
        0,
        Err("Dossier projet introuvable: /x".into()),
        vec![],
        Ok("c".into()),
        Err("down".into()),
    );
    assert!(markdown.contains("Project inspection failed: `Dossier projet introuvable: /x`\n\n"));
    assert!(markdown.contains("No evaluation runs recorded.\n\n"));
    assert!(markdown.contains("No command output recorded.\n\n"));
    assert!(markdown.contains("No Valgrind runs recorded.\n\n"));
    assert!(markdown.contains("Docker logs failed: down"));
}

#[test]
fn report_lists_at_most_twenty_runs_and_five_outputs() {
    let history: Vec<EvaluationRunRecord> =
        (0..25).map(|i| run("valgrind", &format!("run{i}"), 100 - i, true)).collect();
    let markdown = render_evaluation_report(
        &config(),
        1,
        Err("x".into()),
        history,
        Ok(String::new()),
        Ok(String::new()),
    );
    assert!(markdown.contains("`run19`: OK"));
    assert!(!markdown.contains("`run20`: OK"));
    assert!(markdown.contains("### valgrind - run4\n"));
    assert!(!markdown.contains("### valgrind - run5\n"));
    assert!(markdown.contains("### run4\n"));
    assert!(!markdown.contains("### run5\n"));
}

#[test]
fn names_report_files() {
    assert_eq!(report_file_name(1754750000, None), "report-1754750000.md");
    assert_eq!(report_file_name(17, Some(3)), "report-17-3.md");
    assert!(validate_report_name(&report_file_name(0, Some(999))).is_ok());
}

#[test]
fn picks_first_free_report_name() {
    let taken = "/h/.codeharbor/environments/env/reports/report-5.md";
    let (name, path) = next_report_path(Some("/h"), "env", 5, |p| p == taken).expect("free name");
    assert_eq!(name, "report-5-1.md");
    assert_eq!(path, "/h/.codeharbor/environments/env/reports/report-5-1.md");
    assert_eq!(
        next_report_path(Some("/h"), "env", 5, |_| false),
        Ok(("report-5.md".to_string(), "/h/.codeharbor/environments/env/reports/report-5.md".to_string()))
    );
    assert_eq!(
        next_report_path(Some("/h"), "env", 5, |_| true),
        Err("Impossible de trouver un nom de rapport libre".to_string())
    );
    assert_eq!(
        next_report_path(None, "env", 5, |_| false),
        Err("Variable HOME introuvable".to_string())
    );
}

fn file(name: &str) -> ReportFile {
    ReportFile {
        name: name.into(),
        path: format!("/r/{name}"),
        created_at: 0,
        size_bytes: 5,
    }
}

#[test]
fn lists_report_files_newest_first() {
    let files = select_report_files(vec![
        file("report-20260809-120000.md"),
        file("report-20260809-130000.md"),
    ]);

    assert_eq!(
        files
            .iter()
            .map(|file| file.name.as_str())
            .collect::<Vec<_>>(),
        vec!["report-20260809-130000.md", "report-20260809-120000.md"]
    );
    assert!(files.iter().all(|file| file.path.ends_with(&file.name)));
    assert!(files.iter().all(|file| file.size_bytes > 0));
}

#[test]
fn report_listing_skips_other_files() {
    let files = select_report_files(vec![
        file("notes.txt"),
        file("report-2.md"),
        file(".md"),
        file("report-10.md"),
        file("report-1.md"),
    ]);
    let names: Vec<&str> = files.iter().map(|f| f.name.as_str()).collect();
    assert_eq!(names, vec!["report-2.md", "report-10.md", "report-1.md"]);
}

#[test]
fn every_generated_report_name_passes_the_check() {
    for suffix in [None, Some(0), Some(1), Some(usize::MAX)] {
        for timestamp in [0, 1_754_750_000, u64::MAX] {
            assert_eq!(validate_report_name(&report_file_name(timestamp, suffix)), Ok(()));
        }
    }
}
