//! Evaluation runs: recorded command results, the evaluation history, and
//! the full-evaluation pipeline (Clean, Build, Tests, Valgrind, report).
use vstd::prelude::*;

use crate::commands::valgrind_target_script_text;
use crate::paths::{invalid_binary_path_error, valid_workspace_relative_path};
use crate::report::{ok_fail, ReportFile};
use crate::sorting::{key_is, stable_sort, SortKey};
use crate::text::{copy_str, decimal, has_double_dot, first_line, first_line_str, push_decimal, trim, trim_str};

verus! {

/// One recorded evaluation command (Build, Tests, Clean, Valgrind).
#[derive(Debug, Clone, PartialEq, Eq)]
pub struct EvaluationRunRecord {
    pub id: String,
    pub command: String,
    pub label: String,
    pub started_at: u64,
    pub duration_ms: u128,
    pub success: bool,
    pub stdout: String,
    pub stderr: String,
}

/// The outcome of one step of a full evaluation.
#[derive(Debug, Clone, PartialEq, Eq)]
pub struct FullEvaluationStep {
    pub name: String,
    pub success: bool,
    pub details: String,
    pub stops_pipeline: bool,
}

/// The text of a command's result: its output, or its error.
pub open spec fn result_text(result: Result<String, String>) -> Seq<char> {
    match result {
        Ok(output) => output@,
        Err(error) => error@,
    }
}

/// The identifier of a run record: start time, command and process id.
pub open spec fn run_record_id(started_at: u64, command: Seq<char>, process_id: u32) -> Seq<char> {
    decimal(started_at as nat) + "-"@ + command + "-"@ + decimal(process_id as nat)
}

/// The history record of an evaluation command that started at
/// `started_at`, ran for `duration_ms` and gave `result`: the output is
/// stored as stdout on success and the error as stderr on failure.
pub fn evaluation_run_record(
    started_at: u64,
    process_id: u32,
    command: &str,
    label: &str,
    duration_ms: u128,
    result: &Result<String, String>,
) -> (r: EvaluationRunRecord)
    ensures
        r.id@ == run_record_id(started_at, command@, process_id),
        r.command@ == command@,
        r.label@ == label@,
        r.started_at == started_at,
        r.duration_ms == duration_ms,
        r.success == result is Ok,
        r.stdout@ == (if result is Ok {
            result_text(*result)
        } else {
            Seq::empty()
        }),
        r.stderr@ == (if result is Ok {
            Seq::empty()
        } else {
            result_text(*result)
        }),
{
    let mut id = String::new();
    push_decimal(&mut id, started_at as u128);
    id.append("-");
    id.append(command);
    id.append("-");
    push_decimal(&mut id, process_id as u128);
    assert(id@ =~= run_record_id(started_at, command@, process_id));
    match result {
        Ok(output) => EvaluationRunRecord {
            id,
            command: copy_str(command),
            label: copy_str(label),
            started_at,
            duration_ms,
            success: true,
            stdout: copy_str(output.as_str()),
            stderr: String::new(),
        },
        Err(error) => EvaluationRunRecord {
            id,
            command: copy_str(command),
            label: copy_str(label),
            started_at,
            duration_ms,
            success: false,
            stdout: String::new(),
            stderr: copy_str(error.as_str()),
        },
    }
}

/// Whether the records are in decreasing order of start time.
pub open spec fn newest_first(records: Seq<EvaluationRunRecord>) -> bool {
    forall|i: int, j: int|
        0 <= i < j < records.len() ==> records[i].started_at >= records[j].started_at
}

/// Whether a run started at time `t`.
pub open spec fn started_at_is(t: u64) -> spec_fn(EvaluationRunRecord) -> bool {
    |run: EvaluationRunRecord| run.started_at == t
}

/// Orders history records newest first; records that started at the same
/// time keep their order.
pub fn sort_history_newest_first(records: Vec<EvaluationRunRecord>) -> (r: Vec<
    EvaluationRunRecord,
>)
    ensures
        newest_first(r@),
        r@.to_multiset() == records@.to_multiset(),
        forall|t: u64| #[trigger] r@.filter(started_at_is(t)) == records@.filter(started_at_is(t)),
{
    let r = stable_sort(records);
    proof {
        assert forall|i: int, j: int| 0 <= i < j < r@.len() implies r@[i].started_at
            >= r@[j].started_at by {
            assert(!EvaluationRunRecord::key_before(r@[j].sort_key(), r@[i].sort_key()));
        }
        assert forall|t: u64| #[trigger] r@.filter(started_at_is(t)) == records@.filter(
            started_at_is(t),
        ) by {
            assert(started_at_is(t) =~= key_is::<EvaluationRunRecord>(t));
        }
    }
    r
}

/// History records are listed by start time, newest first.
impl SortKey for EvaluationRunRecord {
    type Key = u64;

    open spec fn sort_key(&self) -> u64 {
        self.started_at
    }

    open spec fn key_before(a: u64, b: u64) -> bool {
        a > b
    }

    proof fn lemma_key_irreflexive(a: u64) {
    }

    proof fn lemma_key_transitive(a: u64, b: u64, c: u64) {
    }

    fn goes_before(&self, other: &Self) -> (r: bool) {
        self.started_at > other.started_at
    }
}

/// Whether a full evaluation stops after the given step: only a failed
/// step that is marked as stopping the pipeline stops it.
pub fn should_stop_full_evaluation_after_step(step: &FullEvaluationStep) -> (r: bool)
    ensures
        r == (step.stops_pipeline && !step.success),
{
    step.stops_pipeline && !step.success
}

/// The step recorded for a command named `name` that gave `result`.
pub fn recorded_step(name: &str, stops_pipeline: bool, result: Result<String, String>) -> (r:
    FullEvaluationStep)
    ensures
        step_is(r, name@, stops_pipeline, result),
{
    match result {
        Ok(output) => FullEvaluationStep {
            name: copy_str(name),
            success: true,
            details: output,
            stops_pipeline,
        },
        Err(error) => FullEvaluationStep {
            name: copy_str(name),
            success: false,
            details: error,
            stops_pipeline,
        },
    }
}

/// `step` records the command named `name` that gave `result`.
pub open spec fn step_is(
    step: FullEvaluationStep,
    name: Seq<char>,
    stops_pipeline: bool,
    result: Result<String, String>,
) -> bool {
    &&& step.name@ == name
    &&& step.success == result is Ok
    &&& step.details@ == result_text(result)
    &&& step.stops_pipeline == stops_pipeline
}

/// The summary line of one step: its name, status and the first line of its
/// details.
pub open spec fn summary_line(step: FullEvaluationStep) -> Seq<char> {
    "- "@ + step.name@ + ": "@ + ok_fail(step.success) + " - "@ + first_line(step.details@)
        + "\n"@
}

/// The summary lines of the steps.
pub open spec fn summary_lines(steps: Seq<FullEvaluationStep>) -> Seq<char>
    decreases steps.len(),
{
    if steps.len() == 0 {
        Seq::empty()
    } else {
        summary_lines(steps.drop_last()) + summary_line(steps.last())
    }
}

/// The last summary line: the report's name, or why it failed.
pub open spec fn summary_report_line(report: Result<&ReportFile, &String>) -> Seq<char> {
    match report {
        Ok(file) => "- Report: "@ + file.name@ + "\n"@,
        Err(error) => "- Report: FAIL - "@ + error@ + "\n"@,
    }
}

/// The summary of a full evaluation.
pub open spec fn full_evaluation_summary(
    steps: Seq<FullEvaluationStep>,
    report: Result<&ReportFile, &String>,
) -> Seq<char> {
    "Full evaluation summary\n"@ + summary_lines(steps) + summary_report_line(report)
}

/// Sums up a full evaluation: one line per step and one for the report.
pub fn format_full_evaluation_summary(
    steps: &[FullEvaluationStep],
    report: Result<&ReportFile, &String>,
) -> (r: String)
    ensures
        r@ == full_evaluation_summary(steps@, report),
{
    let mut s = copy_str("Full evaluation summary\n");
    let ghost start = s@;
    let mut i: usize = 0;
    assert(steps@.take(0) =~= Seq::<FullEvaluationStep>::empty());
    while i < steps.len()
        invariant
            i <= steps@.len(),
            s@ == start + summary_lines(steps@.take(i as int)),
        decreases steps@.len() - i,
    {
        let step = &steps[i];
        let ghost before = s@;
        s.append("- ");
        s.append(step.name.as_str());
        s.append(": ");
        if step.success {
            s.append("OK");
        } else {
            s.append("FAIL");
        }
        s.append(" - ");
        let line = first_line_str(step.details.as_str());
        s.append(line.as_str());
        s.append("\n");
        assert(s@ =~= before + summary_line(steps@[i as int]));
        assert(steps@.take(i + 1).drop_last() =~= steps@.take(i as int));
        i = i + 1;
    }
    assert(steps@.take(i as int) =~= steps@);
    let ghost mid = s@;
    match report {
        Ok(file) => {
            s.append("- Report: ");
            s.append(file.name.as_str());
            s.append("\n");
        },
        Err(error) => {
            s.append("- Report: FAIL - ");
            s.append(error.as_str());
            s.append("\n");
        },
    }
    assert(s@ =~= mid + summary_report_line(report));
    s
}

/// Where a full evaluation stands.
#[derive(Debug, Clone, Copy, PartialEq, Eq)]
pub enum EvaluationStage {
    Clean,
    Build,
    Tests,
    Valgrind,
    Report,
    Finished,
}

/// A command that the full evaluation asks to run and record.
#[derive(Debug, Clone, PartialEq, Eq)]
pub struct StepRequest {
    pub name: String,
    pub command: String,
    pub label: String,
    pub script: String,
    pub stops_pipeline: bool,
}

/// What a full evaluation asks its driver to do next.
#[derive(Debug, Clone, PartialEq, Eq)]
pub enum FullEvaluationAction {
    /// Run and record this command, then call `step_finished`.
    RunStep(StepRequest),
    /// Generate the report, then call `report_finished`.
    GenerateReport,
}

/// A full evaluation in progress: the Valgrind target, if one was chosen,
/// the steps so far, and the stage it has reached.
#[derive(Debug)]
pub struct FullEvaluation {
    pub target: Option<String>,
    pub steps: Vec<FullEvaluationStep>,
    pub stage: EvaluationStage,
}

/// The Valgrind target of a full evaluation: the given path, unless it is
/// missing or blank.
pub open spec fn selected_target(target_path: Option<String>) -> Option<Seq<char>> {
    match target_path {
        Some(t) => if trim(t@).len() > 0 {
            Some(t@)
        } else {
            None
        },
        None => None,
    }
}

/// The view of an optional string.
pub open spec fn option_view(o: Option<String>) -> Option<Seq<char>> {
    match o {
        Some(s) => Some(s@),
        None => None,
    }
}

/// `req` asks for the given command.
pub open spec fn request_is(
    req: StepRequest,
    name: Seq<char>,
    command: Seq<char>,
    label: Seq<char>,
    script: Seq<char>,
    stops_pipeline: bool,
) -> bool {
    &&& req.name@ == name
    &&& req.command@ == command
    &&& req.label@ == label
    &&& req.script@ == script
    &&& req.stops_pipeline == stops_pipeline
}

/// The request of the step run at `stage`, given the Valgrind target.
pub open spec fn stage_request(
    req: StepRequest,
    stage: EvaluationStage,
    target: Option<Seq<char>>,
) -> bool {
    match stage {
        EvaluationStage::Clean => request_is(
            req,
            "Clean"@,
            "clean"@,
            "make clean"@,
            "cd /workspace && (make fclean || true) && (make clean || true)"@,
            false,
        ),
        EvaluationStage::Build => request_is(
            req,
            "Build"@,
            "build"@,
            "make"@,
            "cd /workspace && make"@,
            true,
        ),
        EvaluationStage::Tests => request_is(
            req,
            "Tests"@,
            "tests"@,
            "make tests_run"@,
            "cd /workspace && make tests_run"@,
            false,
        ),
        EvaluationStage::Valgrind => target is Some && request_is(
            req,
            "Valgrind"@,
            "valgrind"@,
            "valgrind "@ + target->0,
            valgrind_target_script_text(target->0),
            false,
        ),
        _ => false,
    }
}

/// The name of the step run at a stage.
pub open spec fn stage_name(stage: EvaluationStage) -> Seq<char> {
    match stage {
        EvaluationStage::Clean => "Clean"@,
        EvaluationStage::Build => "Build"@,
        EvaluationStage::Tests => "Tests"@,
        _ => "Valgrind"@,
    }
}

/// Whether a stage runs a command.
pub open spec fn is_step_stage(stage: EvaluationStage) -> bool {
    stage == EvaluationStage::Clean || stage == EvaluationStage::Build || stage
        == EvaluationStage::Tests || stage == EvaluationStage::Valgrind
}

/// The step recorded when no Valgrind target was chosen.
pub open spec fn is_skipped_valgrind_step(step: FullEvaluationStep) -> bool {
    &&& step.name@ == "Valgrind"@
    &&& step.success
    &&& step.details@ == "skipped: no target selected"@
    &&& !step.stops_pipeline
}

/// The stage and action that follow the step of `stage` with outcome
/// `success`: Clean, Build, Tests, then Valgrind when a target was chosen,
/// then the report; a failed Build goes straight to the report.
pub open spec fn next_stage(
    stage: EvaluationStage,
    success: bool,
    target: Option<Seq<char>>,
) -> EvaluationStage {
    match stage {
        EvaluationStage::Clean => EvaluationStage::Build,
        EvaluationStage::Build => if success {
            EvaluationStage::Tests
        } else {
            EvaluationStage::Report
        },
        EvaluationStage::Tests => if target is Some {
            EvaluationStage::Valgrind
        } else {
            EvaluationStage::Report
        },
        _ => EvaluationStage::Report,
    }
}

/// The action that leads into a stage.
pub open spec fn action_for(
    action: FullEvaluationAction,
    stage: EvaluationStage,
    target: Option<Seq<char>>,
) -> bool {
    if stage == EvaluationStage::Report {
        action == FullEvaluationAction::GenerateReport
    } else {
        action matches FullEvaluationAction::RunStep(req) && stage_request(req, stage, target)
    }
}

/// The position of a stage in the pipeline.
pub open spec fn stage_rank(stage: EvaluationStage) -> int {
    match stage {
        EvaluationStage::Clean => 0,
        EvaluationStage::Build => 1,
        EvaluationStage::Tests => 2,
        EvaluationStage::Valgrind => 3,
        EvaluationStage::Report => 4,
        EvaluationStage::Finished => 5,
    }
}

/// The order of a full evaluation: each step moves the pipeline forward,
/// so that the report is always reached; a failed Build goes straight to
/// the report, so Tests and Valgrind never run after it; a failed Tests
/// step does not stop the pipeline; and Valgrind runs only when a target
/// was chosen.
pub proof fn lemma_full_evaluation_order(stage: EvaluationStage, success: bool, target: Option<
    Seq<char>,
>)
    ensures
        is_step_stage(stage) ==> stage_rank(next_stage(stage, success, target)) > stage_rank(
            stage,
        ) && stage_rank(next_stage(stage, success, target)) <= stage_rank(
            EvaluationStage::Report,
        ),
        next_stage(EvaluationStage::Build, false, target) == EvaluationStage::Report,
        next_stage(EvaluationStage::Tests, success, target) != EvaluationStage::Report
            <== target is Some,
        next_stage(stage, success, target) == EvaluationStage::Valgrind ==> target is Some,
{
}

/// A full evaluation asks first to run `make clean` as the command `clean`
/// (its failure does not stop the pipeline), then `make` as `build` (its
/// failure stops it), then `make tests_run` as `tests` (its failure does
/// not); each request runs its make command inside `/workspace`.
pub proof fn lemma_pipeline_step_requests(
    stage: EvaluationStage,
    target: Option<Seq<char>>,
    action: FullEvaluationAction,
)
    requires
        action_for(action, stage, target),
    ensures
        stage == EvaluationStage::Clean ==> (action matches FullEvaluationAction::RunStep(req)
            && req.name@ == "Clean"@ && req.command@ == "clean"@ && req.label@ == "make clean"@
            && !req.stops_pipeline),
        stage == EvaluationStage::Build ==> (action matches FullEvaluationAction::RunStep(req)
            && req.name@ == "Build"@ && req.command@ == "build"@ && req.label@ == "make"@
            && req.script@ == "cd /workspace && make"@ && req.stops_pipeline),
        stage == EvaluationStage::Tests ==> (action matches FullEvaluationAction::RunStep(req)
            && req.name@ == "Tests"@ && req.command@ == "tests"@ && req.label@
            == "make tests_run"@ && req.script@ == "cd /workspace && make tests_run"@
            && !req.stops_pipeline),
        stage == EvaluationStage::Report ==> action == FullEvaluationAction::GenerateReport,
{
}

/// After the tests of a full evaluation with a chosen target, passed or
/// failed, the step asked for is Valgrind on that target, run as the
/// command `valgrind` and labelled `valgrind <target>`; so the run recorded
/// from it is one that the report's Valgrind section lists.
pub proof fn lemma_valgrind_step_after_tests(
    target: Seq<char>,
    tests_passed: bool,
    action: FullEvaluationAction,
    run: EvaluationRunRecord,
)
    requires
        action_for(action, next_stage(EvaluationStage::Tests, tests_passed, Some(target)), Some(target)),
    ensures
        action matches FullEvaluationAction::RunStep(req) && req.name@ == "Valgrind"@
            && req.command@ == "valgrind"@ && req.label@ == "valgrind "@ + target
            && !req.stops_pipeline,
        action matches FullEvaluationAction::RunStep(req) ==> (run.command@ == req.command@
            ==> crate::report::is_valgrind_run(run)),
{
}

fn request(name: &str, command: &str, label: &str, script: &str, stops_pipeline: bool) -> (r:
    FullEvaluationAction)
    ensures
        r matches FullEvaluationAction::RunStep(req) && request_is(
            req,
            name@,
            command@,
            label@,
            script@,
            stops_pipeline,
        ),
{
    FullEvaluationAction::RunStep(
        StepRequest {
            name: copy_str(name),
            command: copy_str(command),
            label: copy_str(label),
            script: copy_str(script),
            stops_pipeline,
        },
    )
}

impl FullEvaluation {
    /// Starts a full evaluation. A chosen Valgrind target that could leave
    /// `/workspace` is rejected before anything runs.
    pub fn start(target_path: Option<String>) -> (r: Result<
        (FullEvaluation, FullEvaluationAction),
        String,
    >)
        ensures
            r is Err <==> (selected_target(target_path) matches Some(t)
                && !valid_workspace_relative_path(t)),
            r matches Err(e) ==> e@ == invalid_binary_path_error(),
            r matches Ok((ev, action)) ==> {
                &&& ev.stage == EvaluationStage::Clean
                &&& ev.steps@.len() == 0
                &&& option_view(ev.target) == selected_target(target_path)
                &&& action_for(action, EvaluationStage::Clean, option_view(ev.target))
            },
            (target_path matches Some(t) && t@.len() > 0 && t@[0] != '/' && !has_double_dot(t@)
                && forall|i: int|
                0 <= i < t@.len() ==> {
                    let u = #[trigger] t@[i] as u32;
                    ||| 0x61 <= u && u <= 0x7a
                    ||| 0x41 <= u && u <= 0x5a
                    ||| 0x30 <= u && u <= 0x39
                    ||| t@[i] == '/'
                    ||| t@[i] == '.'
                    ||| t@[i] == '_'
                    ||| t@[i] == '-'
                }) ==> r is Ok,
    {
        let target = match target_path {
            Some(t) => {
                let trimmed = trim_str(t.as_str());
                if trimmed.as_str().unicode_len() == 0 {
                    None
                } else {
                    Some(t)
                }
            },
            None => None,
        };
        if let Some(t) = &target {
            if let Err(e) = crate::paths::validate_workspace_relative_path(t.as_str()) {
                return Err(e);
            }
        }
        let action = request(
            "Clean",
            "clean",
            "make clean",
            crate::commands::clean_script(),
            false,
        );
        Ok((FullEvaluation { target, steps: Vec::new(), stage: EvaluationStage::Clean }, action))
    }

    /// Records the outcome of the step just run and says what comes next.
    pub fn step_finished(&mut self, result: Result<String, String>) -> (action:
        FullEvaluationAction)
        requires
            is_step_stage(old(self).stage),
            old(self).stage == EvaluationStage::Valgrind ==> old(self).target is Some,
        ensures
            final(self).target == old(self).target,
            final(self).stage == next_stage(
                old(self).stage,
                result is Ok,
                option_view(old(self).target),
            ),
            action_for(action, final(self).stage, option_view(final(self).target)),
            final(self).steps@.len() == old(self).steps@.len() + (if old(self).stage
                == EvaluationStage::Tests && old(self).target is None {
                2int
            } else {
                1int
            }),
            final(self).steps@.take(old(self).steps@.len() as int) == old(self).steps@,
            step_is(
                final(self).steps@[old(self).steps@.len() as int],
                stage_name(old(self).stage),
                old(self).stage == EvaluationStage::Build,
                result,
            ),
            old(self).stage == EvaluationStage::Tests && old(self).target is None
                ==> is_skipped_valgrind_step(final(self).steps@.last()),
    {
        let ghost old_steps = self.steps@;
        match self.stage {
            EvaluationStage::Clean => {
                self.steps.push(recorded_step("Clean", false, result));
                self.stage = EvaluationStage::Build;
                request("Build", "build", "make", crate::commands::build_script(), true)
            },
            EvaluationStage::Build => {
                let step = recorded_step("Build", true, result);
                let stop = should_stop_full_evaluation_after_step(&step);
                self.steps.push(step);
                if stop {
                    self.stage = EvaluationStage::Report;
                    FullEvaluationAction::GenerateReport
                } else {
                    self.stage = EvaluationStage::Tests;
                    request(
                        "Tests",
                        "tests",
                        "make tests_run",
                        crate::commands::tests_script(),
                        false,
                    )
                }
            },
            EvaluationStage::Tests => {
                self.steps.push(recorded_step("Tests", false, result));
                match &self.target {
                    Some(t) => {
                        let mut label = copy_str("valgrind ");
                        label.append(t.as_str());
                        let script = crate::commands::valgrind_target_script(t.as_str());
                        self.stage = EvaluationStage::Valgrind;
                        request("Valgrind", "valgrind", label.as_str(), script.as_str(), false)
                    },
                    None => {
                        self.steps.push(
                            FullEvaluationStep {
                                name: copy_str("Valgrind"),
                                success: true,
                                details: copy_str("skipped: no target selected"),
                                stops_pipeline: false,
                            },
                        );
                        self.stage = EvaluationStage::Report;
                        FullEvaluationAction::GenerateReport
                    },
                }
            },
            _ => {
                self.steps.push(recorded_step("Valgrind", false, result));
                self.stage = EvaluationStage::Report;
                FullEvaluationAction::GenerateReport
            },
        }
    }

    /// Takes the outcome of report generation and gives the summary of the
    /// whole evaluation.
    pub fn report_finished(&mut self, report: Result<ReportFile, String>) -> (r: String)
        requires
            old(self).stage == EvaluationStage::Report,
        ensures
            final(self).stage == EvaluationStage::Finished,
            final(self).steps == old(self).steps,
            r@ == full_evaluation_summary(
                old(self).steps@,
                match report {
                    Ok(ref f) => Ok(f),
                    Err(ref e) => Err(e),
                },
            ),
    {
        self.stage = EvaluationStage::Finished;
        match &report {
            Ok(f) => format_full_evaluation_summary(self.steps.as_slice(), Ok(f)),
            Err(e) => format_full_evaluation_summary(self.steps.as_slice(), Err(e)),
        }
    }
}

} // verus!
