use codeharbor::evaluation::{
    evaluation_run_record, format_full_evaluation_summary, recorded_step,
    should_stop_full_evaluation_after_step, sort_history_newest_first, EvaluationRunRecord,
    EvaluationStage, FullEvaluation, FullEvaluationAction, FullEvaluationStep,
};
use codeharbor::report::ReportFile;

fn record(id: &str, started_at: u64) -> EvaluationRunRecord {
    EvaluationRunRecord {
        id: id.into(),
        command: "build".into(),
        label: "make".into(),
        started_at,
        duration_ms: 5,
        success: true,
        stdout: "ok".into(),
        stderr: "".into(),
    }
}

#[test]
fn writes_and_reads_history_records_newest_first() {
    let older = record("older", 10);
    let newer = record("newer", 20);

    let records = sort_history_newest_first(vec![older, newer]);

    assert_eq!(
        records
            .iter()
            .map(|record| record.id.as_str())
            .collect::<Vec<_>>(),
        vec!["newer", "older"]
    );
}

#[test]
fn history_sort_keeps_ties_in_order() {
    let records = sort_history_newest_first(vec![
        record("a", 5),
        record("b", 30),
        record("c", 5),
        record("d", 30),
        record("e", 1),
    ]);
    let ids: Vec<&str> = records.iter().map(|r| r.id.as_str()).collect();
    assert_eq!(ids, vec!["b", "d", "a", "c", "e"]);
}

#[test]
fn records_runs_with_their_outcome() {
    let ok = evaluation_run_record(10, 42, "build", "make", 7, &Ok("built".into()));
    assert_eq!(ok.id, "10-build-42");
    assert!(ok.success);
    assert_eq!(ok.stdout, "built");
    assert_eq!(ok.stderr, "");
    let failed = evaluation_run_record(11, 1, "tests", "make tests_run", 3, &Err("boom".into()));
    assert_eq!(failed.id, "11-tests-1");
    assert!(!failed.success);
    assert_eq!(failed.stdout, "");
    assert_eq!(failed.stderr, "boom");
    assert_eq!(failed.duration_ms, 3);
}

#[test]
fn full_evaluation_summary_includes_step_statuses_and_report() {
    let steps = vec![
        FullEvaluationStep {
            name: "Clean".into(),
            success: true,
            details: "clean ok".into(),
            stops_pipeline: false,
        },
        FullEvaluationStep {
            name: "Build".into(),
            success: true,
            details: "build ok".into(),
            stops_pipeline: true,
        },
        FullEvaluationStep {
            name: "Tests".into(),
            success: false,
            details: "tests failed".into(),
            stops_pipeline: false,
        },
    ];
    let report = ReportFile {
        name: "report-1.md".into(),
        path: "/tmp/report-1.md".into(),
        created_at: 1,
        size_bytes: 10,
    };

    let summary = format_full_evaluation_summary(&steps, Ok(&report));

    assert!(summary.contains("Full evaluation summary"));
    assert!(summary.contains("Clean: OK"));
    assert!(summary.contains("Tests: FAIL"));
    assert!(summary.contains("Report: report-1.md"));
}

#[test]
fn summary_keeps_only_first_line_of_details() {
    let steps = vec![FullEvaluationStep {
        name: "Build".into(),
        success: false,
        details: "first\r\nsecond\nthird".into(),
        stops_pipeline: true,
    }];
    let error = "disk full".to_string();
    assert_eq!(
        format_full_evaluation_summary(&steps, Err(&error)),
        "Full evaluation summary\n- Build: FAIL - first\n- Report: FAIL - disk full\n"
    );
    let steps = vec![FullEvaluationStep {
        name: "Tests".into(),
        success: true,
        details: "".into(),
        stops_pipeline: false,
    }];
    assert_eq!(
        format_full_evaluation_summary(&steps, Err(&error)),
        "Full evaluation summary\n- Tests: OK - \n- Report: FAIL - disk full\n"
    );
}

#[test]
fn full_evaluation_stops_only_after_failed_stop_step() {
    let build_failure = FullEvaluationStep {
        name: "Build".into(),
        success: false,
        details: "build failed".into(),
        stops_pipeline: true,
    };
    let tests_failure = FullEvaluationStep {
        name: "Tests".into(),
        success: false,
        details: "tests failed".into(),
        stops_pipeline: false,
    };

    assert!(should_stop_full_evaluation_after_step(&build_failure));
    assert!(!should_stop_full_evaluation_after_step(&tests_failure));
}

#[test]
fn full_evaluation_inner_exposes_required_orchestration_signature() {
    let _: fn(Option<String>) -> Result<(FullEvaluation, FullEvaluationAction), String> =
        FullEvaluation::start;
}

#[test]
fn full_evaluation_rejects_invalid_target_before_orchestration() {
    let result = FullEvaluation::start(Some("../secret".into()));

    assert_eq!(result.err(), Some("Chemin de binaire invalide".into()));
}

#[test]
fn records_steps() {
    let step = recorded_step("Build", true, Err("no make".into()));
    assert_eq!(step.name, "Build");
    assert!(!step.success);
    assert_eq!(step.details, "no make");
    assert!(step.stops_pipeline);
}

fn expect_step(action: &FullEvaluationAction, name: &str, label: &str) -> String {
    match action {
        FullEvaluationAction::RunStep(request) => {
            assert_eq!(request.name, name);
            assert_eq!(request.label, label);
            request.script.clone()
        }
        FullEvaluationAction::GenerateReport => panic!("expected step {name}"),
    }
}

#[test]
fn full_evaluation_runs_all_steps_with_target() {
    let (mut evaluation, action) = FullEvaluation::start(Some("bin/app".into())).expect("start");
    assert_eq!(
        expect_step(&action, "Clean", "make clean"),
        "cd /workspace && (make fclean || true) && (make clean || true)"
    );
    let action = evaluation.step_finished(Ok("cleaned".into()));
    assert_eq!(expect_step(&action, "Build", "make"), "cd /workspace && make");
    let action = evaluation.step_finished(Ok("built".into()));
    assert_eq!(expect_step(&action, "Tests", "make tests_run"), "cd /workspace && make tests_run");
    let action = evaluation.step_finished(Err("2 tests failed".into()));
    let script = expect_step(&action, "Valgrind", "valgrind bin/app");
    assert!(script.contains("./bin/app;"));
    let action = evaluation.step_finished(Ok("no leaks".into()));
    assert_eq!(action, FullEvaluationAction::GenerateReport);
    assert_eq!(evaluation.stage, EvaluationStage::Report);
    let report = ReportFile {
        name: "report-9.md".into(),
        path: "/r/report-9.md".into(),
        created_at: 9,
        size_bytes: 1,
    };
    let summary = evaluation.report_finished(Ok(report));
    assert_eq!(
        summary,
        "Full evaluation summary\n- Clean: OK - cleaned\n- Build: OK - built\n- Tests: FAIL - 2 tests failed\n- Valgrind: OK - no leaks\n- Report: report-9.md\n"
    );
    assert_eq!(evaluation.stage, EvaluationStage::Finished);
}

#[test]
fn full_evaluation_stops_after_failed_build() {
    let (mut evaluation, _) = FullEvaluation::start(Some("bin/app".into())).expect("start");
    evaluation.step_finished(Ok("cleaned".into()));
    let action = evaluation.step_finished(Err("make: *** error".into()));
    assert_eq!(action, FullEvaluationAction::GenerateReport);
    let summary = evaluation.report_finished(Err("no config".into()));
    assert_eq!(
        summary,
        "Full evaluation summary\n- Clean: OK - cleaned\n- Build: FAIL - make: *** error\n- Report: FAIL - no config\n"
    );
}

#[test]
fn full_evaluation_skips_valgrind_without_target() {
    let (mut evaluation, _) = FullEvaluation::start(Some("   ".into())).expect("start");
    assert_eq!(evaluation.target, None);
    evaluation.step_finished(Err("".into()));
    evaluation.step_finished(Ok("built".into()));
    let action = evaluation.step_finished(Ok("tests ok".into()));
    assert_eq!(action, FullEvaluationAction::GenerateReport);
    assert_eq!(evaluation.steps.len(), 4);
    assert_eq!(evaluation.steps[3].name, "Valgrind");
    assert_eq!(evaluation.steps[3].details, "skipped: no target selected");
    assert!(evaluation.steps[3].success);
}
