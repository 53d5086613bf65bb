//! Markdown evaluation reports: their text, their file names and the list of
//! report files of an environment.
use vstd::prelude::*;

use crate::environment::EnvironmentConfig;
use crate::evaluation::EvaluationRunRecord;
use crate::project::ProjectInspection;
use crate::sorting::{key_is, stable_sort, SortKey};
use crate::paths::{answered, missing_home_error, path_join, path_join_str, reports_dir, reports_path, valid_report_name};
use crate::text::{
    chars_of, copy_str, decimal, lemma_lex_lt_irreflexive, lemma_lex_lt_transitive, lemma_lex_total, lex_le, lex_lt,
    push_chars, push_decimal, range_equals, str_is_empty, string_lt,
};

verus! {

/// How many characters of a command's output a report quotes.
pub const COMMAND_OUTPUT_REPORT_LIMIT: usize = 4000;

/// How many characters of Docker output a report quotes.
pub const DOCKER_REPORT_LIMIT: usize = 8000;

/// How many recorded runs the history section lists.
pub const REPORT_HISTORY_LIMIT: usize = 20;

/// How many runs the output and Valgrind sections quote.
pub const REPORT_OUTPUT_LIMIT: usize = 5;

/// A report file of an environment, as listed to the user.
#[derive(Debug, Clone, PartialEq, Eq)]
pub struct ReportFile {
    pub name: String,
    pub path: String,
    pub created_at: u64,
    pub size_bytes: u64,
}

/// `input`, or its first `limit` characters followed by a marker that says
/// that the output was cut.
pub open spec fn truncated(input: Seq<char>, limit: nat) -> Seq<char> {
    if input.len() <= limit {
        input
    } else {
        input.take(limit as int) + "\n\n[truncated: original output exceeded "@ + decimal(limit)
            + " characters]"@
    }
}

/// The first `n` elements of `s`, or all of them when there are fewer.
pub open spec fn first_n<A>(s: Seq<A>, n: int) -> Seq<A> {
    if s.len() <= n {
        s
    } else {
        s.take(n)
    }
}

/// `"OK"` or `"FAIL"`.
pub open spec fn ok_fail(success: bool) -> Seq<char> {
    if success {
        "OK"@
    } else {
        "FAIL"@
    }
}

/// One list item per string, each in backquotes.
pub open spec fn list_items(items: Seq<String>) -> Seq<char>
    decreases items.len(),
{
    if items.len() == 0 {
        Seq::empty()
    } else {
        list_items(items.drop_last()) + "- `"@ + items.last()@ + "`\n"@
    }
}

/// A Markdown list of the strings, or `- none` when there are none.
pub open spec fn markdown_list_text(items: Seq<String>) -> Seq<char> {
    if items.len() == 0 {
        "- none\n"@
    } else {
        list_items(items)
    }
}

/// One list item per language with its file count.
pub open spec fn language_lines(counts: Seq<(String, usize)>) -> Seq<char>
    decreases counts.len(),
{
    if counts.len() == 0 {
        Seq::empty()
    } else {
        language_lines(counts.drop_last()) + "- `"@ + counts.last().0@ + "`: "@ + decimal(
            counts.last().1 as nat,
        ) + "\n"@
    }
}

/// The header and summary section of a report.
pub open spec fn summary_section(config: EnvironmentConfig, generated_at: u64) -> Seq<char> {
    "# CodeHarbor Evaluation Report\n\n"@ + "## Summary\n\n"@ + "- Environment: "@ + config.name@
        + "\n"@ + "- Environment ID: `"@ + config.id@ + "`\n"@ + "- Generated at: `"@ + decimal(
        generated_at as nat,
    ) + "`\n"@ + "- Host path: `"@ + config.host_path@ + "`\n"@
        + "- Note: this report is not an automated grade; manual review is required.\n\n"@
}

/// What the project section says of a successful inspection.
pub open spec fn inspection_text(project: ProjectInspection) -> Seq<char> {
    "- Makefile: "@ + (if project.has_makefile {
        "present"@
    } else {
        "missing"@
    }) + "\n"@ + "- Make targets:\n"@ + markdown_list_text(project.make_targets@)
        + "- Language counts:\n"@ + (if project.language_counts@.len() == 0 {
        "- none\n"@
    } else {
        language_lines(project.language_counts@)
    }) + "- Executables:\n"@ + markdown_list_text(project.executables@) + "- Artifacts:\n"@
        + markdown_list_text(project.artifacts@)
}

/// The project section of a report.
pub open spec fn project_section(inspection: Result<ProjectInspection, String>) -> Seq<char> {
    "## Project\n\n"@ + match inspection {
        Ok(project) => inspection_text(project),
        Err(error) => "Project inspection failed: `"@ + error@ + "`\n"@,
    } + "\n"@
}

/// One line of the history section.
pub open spec fn history_line(run: EvaluationRunRecord) -> Seq<char> {
    "- `"@ + run.command@ + "` `"@ + run.label@ + "`: "@ + ok_fail(run.success) + " in "@
        + decimal(run.duration_ms as nat) + "ms at `"@ + decimal(run.started_at as nat) + "`\n"@
}

/// The history lines of the given runs.
pub open spec fn history_lines(runs: Seq<EvaluationRunRecord>) -> Seq<char>
    decreases runs.len(),
{
    if runs.len() == 0 {
        Seq::empty()
    } else {
        history_lines(runs.drop_last()) + history_line(runs.last())
    }
}

/// The evaluation history section: the first twenty runs.
pub open spec fn history_section(history: Seq<EvaluationRunRecord>) -> Seq<char> {
    "## Evaluation History\n\n"@ + if history.len() == 0 {
        "No evaluation runs recorded.\n\n"@
    } else {
        history_lines(first_n(history, REPORT_HISTORY_LIMIT as int)) + "\n"@
    }
}

/// The quoted output of one run.
pub open spec fn output_block(run: EvaluationRunRecord) -> Seq<char> {
    "### "@ + run.command@ + " - "@ + run.label@ + "\n\n"@ + "```text\n"@ + truncated(
        run.stdout@,
        COMMAND_OUTPUT_REPORT_LIMIT as nat,
    ) + (if run.stderr@.len() > 0 {
        "\n\n[stderr]\n"@ + truncated(run.stderr@, COMMAND_OUTPUT_REPORT_LIMIT as nat)
    } else {
        Seq::empty()
    }) + "\n```\n\n"@
}

/// The output blocks of the given runs.
pub open spec fn output_blocks(runs: Seq<EvaluationRunRecord>) -> Seq<char>
    decreases runs.len(),
{
    if runs.len() == 0 {
        Seq::empty()
    } else {
        output_blocks(runs.drop_last()) + output_block(runs.last())
    }
}

/// The latest outputs section: the outputs of the first five runs.
pub open spec fn outputs_section(history: Seq<EvaluationRunRecord>) -> Seq<char> {
    "## Latest Outputs\n\n"@ + if history.len() == 0 {
        "No command output recorded.\n\n"@
    } else {
        output_blocks(first_n(history, REPORT_OUTPUT_LIMIT as int))
    }
}

/// Whether a run is a Valgrind run.
pub open spec fn is_valgrind_run(run: EvaluationRunRecord) -> bool {
    run.command@ == "valgrind"@
}

/// The Valgrind runs among the given runs, in their order.
pub open spec fn valgrind_runs(history: Seq<EvaluationRunRecord>) -> Seq<EvaluationRunRecord> {
    history.filter(|run: EvaluationRunRecord| is_valgrind_run(run))
}

/// The block of one Valgrind run.
pub open spec fn valgrind_block(run: EvaluationRunRecord) -> Seq<char> {
    "### "@ + run.label@ + "\n\n"@ + "- Status: "@ + ok_fail(run.success) + "\n"@
        + "- Duration: "@ + decimal(run.duration_ms as nat) + "ms\n\n"@ + "```text\n"@
        + truncated(run.stdout@ + "\n"@ + run.stderr@, COMMAND_OUTPUT_REPORT_LIMIT as nat)
        + "\n```\n\n"@
}

/// The blocks of the given Valgrind runs.
pub open spec fn valgrind_blocks(runs: Seq<EvaluationRunRecord>) -> Seq<char>
    decreases runs.len(),
{
    if runs.len() == 0 {
        Seq::empty()
    } else {
        valgrind_blocks(runs.drop_last()) + valgrind_block(runs.last())
    }
}

/// The Valgrind section: the first five Valgrind runs.
pub open spec fn valgrind_section(history: Seq<EvaluationRunRecord>) -> Seq<char> {
    "## Valgrind\n\n"@ + if valgrind_runs(history).len() == 0 {
        "No Valgrind runs recorded.\n\n"@
    } else {
        valgrind_blocks(first_n(valgrind_runs(history), REPORT_OUTPUT_LIMIT as int))
    }
}

/// The text quoted for a Docker command: its output, or why it failed.
pub open spec fn docker_text(result: Result<String, String>, failure: Seq<char>) -> Seq<char> {
    match result {
        Ok(output) => output@,
        Err(error) => failure + error@,
    }
}

/// The Docker section of a report.
pub open spec fn docker_section(
    compose_config: Result<String, String>,
    docker_logs: Result<String, String>,
) -> Seq<char> {
    "## Docker\n\n"@ + "### Compose Config\n\n```yaml\n"@ + truncated(
        docker_text(compose_config, "Docker compose config failed: "@),
        DOCKER_REPORT_LIMIT as nat,
    ) + "\n```\n\n### Recent Logs\n\n```text\n"@ + truncated(
        docker_text(docker_logs, "Docker logs failed: "@),
        DOCKER_REPORT_LIMIT as nat,
    ) + "\n```\n\n"@
}

/// The closing notes of a report.
pub open spec fn notes_section() -> Seq<char> {
    "## Manual Review Notes\n\n"@ + "- Check subject-specific requirements manually.\n"@
        + "- Confirm generated outputs match the expected correction protocol.\n"@
        + "- Treat this report as supporting evidence, not a final grade.\n"@
}

/// The whole Markdown text of an evaluation report.
pub open spec fn report_text(
    config: EnvironmentConfig,
    generated_at: u64,
    inspection: Result<ProjectInspection, String>,
    history: Seq<EvaluationRunRecord>,
    compose_config: Result<String, String>,
    docker_logs: Result<String, String>,
) -> Seq<char> {
    summary_section(config, generated_at) + project_section(inspection) + history_section(history)
        + outputs_section(history) + valgrind_section(history) + docker_section(
        compose_config,
        docker_logs,
    ) + notes_section()
}

/// Whether `t` occurs in `s`.
pub open spec fn contains_text(s: Seq<char>, t: Seq<char>) -> bool {
    exists|i: int| 0 <= i && i + t.len() <= s.len() && #[trigger] s.subrange(i, i + t.len()) == t
}

proof fn lemma_contains_left(a: Seq<char>, b: Seq<char>, t: Seq<char>)
    requires
        contains_text(a, t),
    ensures
        contains_text(a + b, t),
{
    let i = choose|i: int| 0 <= i && i + t.len() <= a.len() && #[trigger] a.subrange(i, i + t.len()) == t;
    assert((a + b).subrange(i, i + t.len()) =~= a.subrange(i, i + t.len()));
}

proof fn lemma_contains_right(a: Seq<char>, b: Seq<char>, t: Seq<char>)
    requires
        contains_text(b, t),
    ensures
        contains_text(a + b, t),
{
    let i = choose|i: int| 0 <= i && i + t.len() <= b.len() && #[trigger] b.subrange(i, i + t.len()) == t;
    assert((a + b).subrange(a.len() + i, a.len() + i + t.len()) =~= b.subrange(i, i + t.len()));
}

proof fn lemma_contains_start(a: Seq<char>, b: Seq<char>)
    ensures
        contains_text(a + b, a),
{
    let i: int = 0;
    assert((a + b).subrange(i, i + a.len()) =~= a);
}

proof fn lemma_contains_end(a: Seq<char>, b: Seq<char>)
    ensures
        contains_text(a + b, b),
{
    assert((a + b).subrange(a.len() as int, (a.len() + b.len()) as int) =~= b);
}

/// `t` occurs in one of seven consecutive parts, so it occurs in the whole.
proof fn lemma_contains_in_parts(
    s: Seq<char>,
    p: Seq<char>,
    h: Seq<char>,
    o: Seq<char>,
    v: Seq<char>,
    d: Seq<char>,
    n: Seq<char>,
    t: Seq<char>,
)
    requires
        contains_text(s, t) || contains_text(p, t) || contains_text(h, t) || contains_text(o, t)
            || contains_text(v, t) || contains_text(d, t) || contains_text(n, t),
    ensures
        contains_text(s + p + h + o + v + d + n, t),
{
    if contains_text(s, t) {
        lemma_contains_left(s, p, t);
    } else if contains_text(p, t) {
        lemma_contains_right(s, p, t);
    }
    if contains_text(s + p, t) {
        lemma_contains_left(s + p, h, t);
    } else if contains_text(h, t) {
        lemma_contains_right(s + p, h, t);
    }
    if contains_text(s + p + h, t) {
        lemma_contains_left(s + p + h, o, t);
    } else if contains_text(o, t) {
        lemma_contains_right(s + p + h, o, t);
    }
    if contains_text(s + p + h + o, t) {
        lemma_contains_left(s + p + h + o, v, t);
    } else if contains_text(v, t) {
        lemma_contains_right(s + p + h + o, v, t);
    }
    if contains_text(s + p + h + o + v, t) {
        lemma_contains_left(s + p + h + o + v, d, t);
    } else if contains_text(d, t) {
        lemma_contains_right(s + p + h + o + v, d, t);
    }
    if contains_text(s + p + h + o + v + d, t) {
        lemma_contains_left(s + p + h + o + v + d, n, t);
    } else if contains_text(n, t) {
        lemma_contains_right(s + p + h + o + v + d, n, t);
    }
}

proof fn lemma_summary_contents(config: EnvironmentConfig, generated_at: u64)
    ensures
        contains_text(summary_section(config, generated_at), "# CodeHarbor Evaluation Report\n\n"@),
        contains_text(summary_section(config, generated_at), "## Summary\n\n"@),
        contains_text(
            summary_section(config, generated_at),
            "- Note: this report is not an automated grade; manual review is required.\n\n"@,
        ),
{
    let title = "# CodeHarbor Evaluation Report\n\n"@;
    let heading = "## Summary\n\n"@;
    let note = "- Note: this report is not an automated grade; manual review is required.\n\n"@;
    let s = summary_section(config, generated_at);
    let middle = s.subrange((title.len() + heading.len()) as int, s.len() - note.len());
    assert(s =~= title + heading + middle + note);
    lemma_contains_start(title, heading + (middle + note));
    assert(s =~= title + (heading + (middle + note)));
    lemma_contains_start(heading, middle + note);
    lemma_contains_right(title, heading + (middle + note), heading);
    lemma_contains_end(title + heading + middle, note);
}

/// The Makefile line of a successful inspection.
spec fn makefile_line(has_makefile: bool) -> Seq<char> {
    "- Makefile: "@ + (if has_makefile {
        "present"@
    } else {
        "missing"@
    }) + "\n"@
}

proof fn lemma_makefile_line_text(has_makefile: bool)
    ensures
        has_makefile ==> "## Project\n\n"@ + makefile_line(has_makefile)
            == "## Project\n\n- Makefile: present\n"@,
        !has_makefile ==> "## Project\n\n"@ + makefile_line(has_makefile)
            == "## Project\n\n- Makefile: missing\n"@,
        has_makefile ==> makefile_line(has_makefile) == "- Makefile: present\n"@,
        !has_makefile ==> makefile_line(has_makefile) == "- Makefile: missing\n"@,
{
    reveal_strlit("## Project\n\n");
    reveal_strlit("- Makefile: ");
    reveal_strlit("\n");
    reveal_strlit("present");
    reveal_strlit("missing");
    reveal_strlit("## Project\n\n- Makefile: present\n");
    reveal_strlit("## Project\n\n- Makefile: missing\n");
    reveal_strlit("- Makefile: present\n");
    reveal_strlit("- Makefile: missing\n");
    if has_makefile {
        assert("## Project\n\n"@ + makefile_line(has_makefile) =~= "## Project\n\n- Makefile: present\n"@);
        assert(makefile_line(has_makefile) =~= "- Makefile: present\n"@);
    } else {
        assert("## Project\n\n"@ + makefile_line(has_makefile) =~= "## Project\n\n- Makefile: missing\n"@);
        assert(makefile_line(has_makefile) =~= "- Makefile: missing\n"@);
    }
}

/// What opens the second of seven consecutive parts appears right after the
/// first, and so occurs in the whole.
proof fn lemma_second_part_opens_with(
    s: Seq<char>,
    p: Seq<char>,
    h: Seq<char>,
    o: Seq<char>,
    v: Seq<char>,
    d: Seq<char>,
    n: Seq<char>,
    x: Seq<char>,
)
    requires
        x.len() <= p.len(),
        p.subrange(0, x.len() as int) == x,
    ensures
        (s + p + h + o + v + d + n).subrange(s.len() as int, (s.len() + x.len()) as int) == x,
        contains_text(s + p + h + o + v + d + n, x),
{
    let w = s + p + h + o + v + d + n;
    assert(w.subrange(s.len() as int, (s.len() + x.len()) as int) =~= x) by {
        assert forall|i: int| 0 <= i < x.len() implies w[s.len() + i] == x[i] by {
            assert(p[i] == x[i]);
        }
    }
}

proof fn lemma_project_section_opens_with(project: ProjectInspection)
    ensures
        ({
            let line = "## Project\n\n"@ + makefile_line(project.has_makefile);
            &&& line.len() <= project_section(Ok(project)).len()
            &&& project_section(Ok(project)).subrange(0, line.len() as int) == line
        }),
{
    let head = "## Project\n\n"@;
    let t = makefile_line(project.has_makefile);
    let p = project_section(Ok(project));
    let it = inspection_text(project);
    assert(it.subrange(0, t.len() as int) =~= t);
    assert(p.subrange(0, (head.len() + t.len()) as int) =~= head + t);
}

proof fn lemma_report_opens_project_with(
    config: EnvironmentConfig,
    generated_at: u64,
    project: ProjectInspection,
    history: Seq<EvaluationRunRecord>,
    compose_config: Result<String, String>,
    docker_logs: Result<String, String>,
)
    ensures
        ({
            let r = report_text(
                config,
                generated_at,
                Ok(project),
                history,
                compose_config,
                docker_logs,
            );
            let k = summary_section(config, generated_at).len() as int;
            let line = "## Project\n\n"@ + makefile_line(project.has_makefile);
            &&& r.subrange(k, k + line.len()) == line
            &&& contains_text(r, line)
        }),
{
    lemma_project_section_opens_with(project);
    lemma_second_part_opens_with(
        summary_section(config, generated_at),
        project_section(Ok(project)),
        history_section(history),
        outputs_section(history),
        valgrind_section(history),
        docker_section(compose_config, docker_logs),
        notes_section(),
        "## Project\n\n"@ + makefile_line(project.has_makefile),
    );
}

/// The project section of a report on a successful inspection opens by
/// saying whether the project has a Makefile: `present` exactly when it
/// has one, whatever its targets, languages, executables and artifacts.
pub proof fn lemma_report_states_makefile(
    config: EnvironmentConfig,
    generated_at: u64,
    project: ProjectInspection,
    history: Seq<EvaluationRunRecord>,
    compose_config: Result<String, String>,
    docker_logs: Result<String, String>,
)
    ensures
        ({
            let r = report_text(
                config,
                generated_at,
                Ok(project),
                history,
                compose_config,
                docker_logs,
            );
            let k = summary_section(config, generated_at).len() as int;
            let present = "## Project\n\n- Makefile: present\n"@;
            let missing = "## Project\n\n- Makefile: missing\n"@;
            &&& project.has_makefile ==> r.subrange(k, k + present.len()) == present
            &&& !project.has_makefile ==> r.subrange(k, k + missing.len()) == missing
            &&& project.has_makefile ==> contains_text(r, "- Makefile: present\n"@)
            &&& !project.has_makefile ==> contains_text(r, "- Makefile: missing\n"@)
        }),
{
    lemma_report_opens_project_with(
        config,
        generated_at,
        project,
        history,
        compose_config,
        docker_logs,
    );
    lemma_makefile_line_text(project.has_makefile);
    let r = report_text(config, generated_at, Ok(project), history, compose_config, docker_logs);
    let head = "## Project\n\n"@;
    let t = makefile_line(project.has_makefile);
    let i = choose|i: int|
        0 <= i && i + (head + t).len() <= r.len() && #[trigger] r.subrange(i, i + (head + t).len())
            == head + t;
    assert(r.subrange(i + head.len(), i + head.len() + t.len()) =~= t) by {
        assert forall|j: int| 0 <= j < t.len() implies r[i + head.len() + j] == t[j] by {
            assert(r.subrange(i, i + (head + t).len())[head.len() + j] == (head + t)[head.len() + j]);
        }
    }
}

/// Every report has all of its sections, and says that it is not an
/// automated grade, whatever the project, history and Docker output.
pub proof fn lemma_report_has_all_sections(
    config: EnvironmentConfig,
    generated_at: u64,
    inspection: Result<ProjectInspection, String>,
    history: Seq<EvaluationRunRecord>,
    compose_config: Result<String, String>,
    docker_logs: Result<String, String>,
)
    ensures
        ({
            let r = report_text(
                config,
                generated_at,
                inspection,
                history,
                compose_config,
                docker_logs,
            );
            &&& contains_text(r, "# CodeHarbor Evaluation Report\n\n"@)
            &&& contains_text(r, "## Summary\n\n"@)
            &&& contains_text(
                r,
                "- Note: this report is not an automated grade; manual review is required.\n\n"@,
            )
            &&& contains_text(r, "## Project\n\n"@)
            &&& contains_text(r, "## Evaluation History\n\n"@)
            &&& contains_text(r, "## Latest Outputs\n\n"@)
            &&& contains_text(r, "## Valgrind\n\n"@)
            &&& contains_text(r, "## Docker\n\n"@)
            &&& contains_text(r, "## Manual Review Notes\n\n"@)
        }),
{
    let s = summary_section(config, generated_at);
    let p = project_section(inspection);
    let h = history_section(history);
    let o = outputs_section(history);
    let v = valgrind_section(history);
    let d = docker_section(compose_config, docker_logs);
    let n = notes_section();
    lemma_summary_contents(config, generated_at);
    let ph = "## Project\n\n"@;
    assert(p =~= ph + p.skip(ph.len() as int));
    lemma_contains_start(ph, p.skip(ph.len() as int));
    let hh = "## Evaluation History\n\n"@;
    assert(h =~= hh + h.skip(hh.len() as int));
    lemma_contains_start(hh, h.skip(hh.len() as int));
    let oh = "## Latest Outputs\n\n"@;
    assert(o =~= oh + o.skip(oh.len() as int));
    lemma_contains_start(oh, o.skip(oh.len() as int));
    let vh = "## Valgrind\n\n"@;
    assert(v =~= vh + v.skip(vh.len() as int));
    lemma_contains_start(vh, v.skip(vh.len() as int));
    let dh = "## Docker\n\n"@;
    assert(d =~= dh + d.skip(dh.len() as int));
    lemma_contains_start(dh, d.skip(dh.len() as int));
    let nh = "## Manual Review Notes\n\n"@;
    assert(n =~= nh + n.skip(nh.len() as int));
    lemma_contains_start(nh, n.skip(nh.len() as int));
    lemma_contains_in_parts(s, p, h, o, v, d, n, "# CodeHarbor Evaluation Report\n\n"@);
    lemma_contains_in_parts(s, p, h, o, v, d, n, "## Summary\n\n"@);
    lemma_contains_in_parts(
        s,
        p,
        h,
        o,
        v,
        d,
        n,
        "- Note: this report is not an automated grade; manual review is required.\n\n"@,
    );
    lemma_contains_in_parts(s, p, h, o, v, d, n, ph);
    lemma_contains_in_parts(s, p, h, o, v, d, n, hh);
    lemma_contains_in_parts(s, p, h, o, v, d, n, oh);
    lemma_contains_in_parts(s, p, h, o, v, d, n, vh);
    lemma_contains_in_parts(s, p, h, o, v, d, n, dh);
    lemma_contains_in_parts(s, p, h, o, v, d, n, nh);
}

/// Appends `truncated(input, limit)` to `s`.
fn push_truncated(s: &mut String, input: &str, limit: usize)
    ensures
        final(s)@ == old(s)@ + truncated(input@, limit as nat),
{
    let v = chars_of(input);
    if v.len() <= limit {
        s.append(input);
    } else {
        let ghost start = s@;
        push_chars(s, &v, 0, limit);
        s.append("\n\n[truncated: original output exceeded ");
        push_decimal(s, limit as u128);
        s.append(" characters]");
        assert(v@.subrange(0, limit as int) == input@.take(limit as int));
        assert(s@ =~= start + truncated(input@, limit as nat));
    }
}

/// Cuts a block of command output to at most `limit` characters, and says so
/// when it does.
pub fn truncate_block(input: &str, limit: usize) -> (r: String)
    ensures
        r@ == truncated(input@, limit as nat),
{
    let mut s = String::new();
    push_truncated(&mut s, input, limit);
    assert(Seq::<char>::empty() + truncated(input@, limit as nat) =~= truncated(
        input@,
        limit as nat,
    ));
    s
}

fn push_markdown_list(s: &mut String, items: &Vec<String>)
    ensures
        final(s)@ == old(s)@ + markdown_list_text(items@),
{
    let ghost start = s@;
    if items.len() == 0 {
        s.append("- none\n");
        return ;
    }
    let mut i: usize = 0;
    assert(items@.take(0) =~= Seq::<String>::empty());
    while i < items.len()
        invariant
            i <= items.len(),
            s@ == start + list_items(items@.take(i as int)),
        decreases items.len() - i,
    {
        s.append("- `");
        s.append(items[i].as_str());
        s.append("`\n");
        assert(items@.take(i + 1).drop_last() =~= items@.take(i as int));
        i = i + 1;
        assert(s@ =~= start + list_items(items@.take(i as int)));
    }
    assert(items@.take(i as int) =~= items@);
}

/// A Markdown list of the items in backquotes, or `- none` for no items.
pub fn markdown_list(items: &Vec<String>) -> (r: String)
    ensures
        r@ == markdown_list_text(items@),
{
    let mut s = String::new();
    push_markdown_list(&mut s, items);
    assert(Seq::<char>::empty() + markdown_list_text(items@) =~= markdown_list_text(items@));
    s
}

fn push_summary(s: &mut String, config: &EnvironmentConfig, generated_at: u64)
    ensures
        final(s)@ == old(s)@ + summary_section(*config, generated_at),
{
    let ghost start = s@;
    s.append("# CodeHarbor Evaluation Report\n\n");
    s.append("## Summary\n\n");
    s.append("- Environment: ");
    s.append(config.name.as_str());
    s.append("\n");
    s.append("- Environment ID: `");
    s.append(config.id.as_str());
    s.append("`\n");
    s.append("- Generated at: `");
    push_decimal(s, generated_at as u128);
    s.append("`\n");
    s.append("- Host path: `");
    s.append(config.host_path.as_str());
    s.append("`\n");
    s.append("- Note: this report is not an automated grade; manual review is required.\n\n");
    assert(s@ =~= start + summary_section(*config, generated_at));
}

fn push_language_counts(s: &mut String, counts: &Vec<(String, usize)>)
    ensures
        final(s)@ == old(s)@ + (if counts@.len() == 0 {
            "- none\n"@
        } else {
            language_lines(counts@)
        }),
{
    let ghost start = s@;
    if counts.len() == 0 {
        s.append("- none\n");
        return ;
    }
    let mut i: usize = 0;
    assert(counts@.take(0) =~= Seq::<(String, usize)>::empty());
    while i < counts.len()
        invariant
            i <= counts.len(),
            s@ == start + language_lines(counts@.take(i as int)),
        decreases counts.len() - i,
    {
        s.append("- `");
        s.append(counts[i].0.as_str());
        s.append("`: ");
        push_decimal(s, counts[i].1 as u128);
        s.append("\n");
        assert(counts@.take(i + 1).drop_last() =~= counts@.take(i as int));
        i = i + 1;
        assert(s@ =~= start + language_lines(counts@.take(i as int)));
    }
    assert(counts@.take(i as int) =~= counts@);
}

#[verifier::rlimit(40)]
fn push_inspection(s: &mut String, project: &ProjectInspection)
    ensures
        final(s)@ == old(s)@ + inspection_text(*project),
{
    let ghost start = s@;
    s.append("- Makefile: ");
    if project.has_makefile {
        s.append("present");
    } else {
        s.append("missing");
    }
    s.append("\n");
    s.append("- Make targets:\n");
    let ghost a = s@;
    push_markdown_list(s, &project.make_targets);
    s.append("- Language counts:\n");
    let ghost b = s@;
    push_language_counts(s, &project.language_counts);
    s.append("- Executables:\n");
    let ghost c = s@;
    push_markdown_list(s, &project.executables);
    s.append("- Artifacts:\n");
    let ghost d = s@;
    push_markdown_list(s, &project.artifacts);
    assert(s@ =~= start + inspection_text(*project));
}

fn push_project(s: &mut String, inspection: &Result<ProjectInspection, String>)
    ensures
        final(s)@ == old(s)@ + project_section(*inspection),
{
    let ghost start = s@;
    s.append("## Project\n\n");
    match inspection {
        Ok(project) => {
            push_inspection(s, project);
        },
        Err(error) => {
            s.append("Project inspection failed: `");
            s.append(error.as_str());
            s.append("`\n");
        },
    }
    s.append("\n");
    assert(s@ =~= start + project_section(*inspection));
}

fn push_ok_fail(s: &mut String, success: bool)
    ensures
        final(s)@ == old(s)@ + ok_fail(success),
{
    if success {
        s.append("OK");
    } else {
        s.append("FAIL");
    }
}

fn push_history_line(s: &mut String, run: &EvaluationRunRecord)
    ensures
        final(s)@ == old(s)@ + history_line(*run),
{
    let ghost start = s@;
    s.append("- `");
    s.append(run.command.as_str());
    s.append("` `");
    s.append(run.label.as_str());
    s.append("`: ");
    push_ok_fail(s, run.success);
    s.append(" in ");
    push_decimal(s, run.duration_ms);
    s.append("ms at `");
    push_decimal(s, run.started_at as u128);
    s.append("`\n");
    assert(s@ =~= start + history_line(*run));
}

fn push_history(s: &mut String, history: &Vec<EvaluationRunRecord>)
    ensures
        final(s)@ == old(s)@ + history_section(history@),
{
    let ghost start = s@;
    s.append("## Evaluation History\n\n");
    if history.len() == 0 {
        s.append("No evaluation runs recorded.\n\n");
        assert(s@ =~= start + history_section(history@));
        return ;
    }
    let ghost mid = s@;
    let n = if history.len() < REPORT_HISTORY_LIMIT {
        history.len()
    } else {
        REPORT_HISTORY_LIMIT
    };
    let mut i: usize = 0;
    assert(history@.take(0) =~= Seq::<EvaluationRunRecord>::empty());
    while i < n
        invariant
            n <= history.len(),
            i <= n,
            s@ == mid + history_lines(history@.take(i as int)),
        decreases n - i,
    {
        push_history_line(s, &history[i]);
        assert(history@.take(i + 1).drop_last() =~= history@.take(i as int));
        i = i + 1;
        assert(s@ =~= mid + history_lines(history@.take(i as int)));
    }
    assert(history@.take(n as int) =~= first_n(history@, REPORT_HISTORY_LIMIT as int));
    s.append("\n");
    assert(s@ =~= start + history_section(history@));
}

fn push_output_block(s: &mut String, run: &EvaluationRunRecord)
    ensures
        final(s)@ == old(s)@ + output_block(*run),
{
    let ghost start = s@;
    s.append("### ");
    s.append(run.command.as_str());
    s.append(" - ");
    s.append(run.label.as_str());
    s.append("\n\n");
    s.append("```text\n");
    push_truncated(s, run.stdout.as_str(), COMMAND_OUTPUT_REPORT_LIMIT);
    if !str_is_empty(run.stderr.as_str()) {
        s.append("\n\n[stderr]\n");
        push_truncated(s, run.stderr.as_str(), COMMAND_OUTPUT_REPORT_LIMIT);
    }
    s.append("\n```\n\n");
    assert(s@ =~= start + output_block(*run));
}

fn push_outputs(s: &mut String, history: &Vec<EvaluationRunRecord>)
    ensures
        final(s)@ == old(s)@ + outputs_section(history@),
{
    let ghost start = s@;
    s.append("## Latest Outputs\n\n");
    if history.len() == 0 {
        s.append("No command output recorded.\n\n");
        assert(s@ =~= start + outputs_section(history@));
        return ;
    }
    let ghost mid = s@;
    let n = if history.len() < REPORT_OUTPUT_LIMIT {
        history.len()
    } else {
        REPORT_OUTPUT_LIMIT
    };
    let mut i: usize = 0;
    assert(history@.take(0) =~= Seq::<EvaluationRunRecord>::empty());
    while i < n
        invariant
            n <= history.len(),
            i <= n,
            s@ == mid + output_blocks(history@.take(i as int)),
        decreases n - i,
    {
        push_output_block(s, &history[i]);
        assert(history@.take(i + 1).drop_last() =~= history@.take(i as int));
        i = i + 1;
        assert(s@ =~= mid + output_blocks(history@.take(i as int)));
    }
    assert(history@.take(n as int) =~= first_n(history@, REPORT_OUTPUT_LIMIT as int));
    assert(s@ =~= start + outputs_section(history@));
}

fn push_valgrind_block(s: &mut String, run: &EvaluationRunRecord)
    ensures
        final(s)@ == old(s)@ + valgrind_block(*run),
{
    let ghost start = s@;
    s.append("### ");
    s.append(run.label.as_str());
    s.append("\n\n");
    s.append("- Status: ");
    push_ok_fail(s, run.success);
    s.append("\n");
    s.append("- Duration: ");
    push_decimal(s, run.duration_ms);
    s.append("ms\n\n");
    s.append("```text\n");
    let mut both = copy_str(run.stdout.as_str());
    both.append("\n");
    both.append(run.stderr.as_str());
    push_truncated(s, both.as_str(), COMMAND_OUTPUT_REPORT_LIMIT);
    s.append("\n```\n\n");
    assert(s@ =~= start + valgrind_block(*run));
}

/// Whether a run's command is `valgrind`.
fn is_valgrind_command(run: &EvaluationRunRecord) -> (r: bool)
    ensures
        r == is_valgrind_run(*run),
{
    let v = chars_of(run.command.as_str());
    assert(v@.subrange(0, v@.len() as int) =~= v@);
    range_equals(&v, 0, v.len(), "valgrind")
}

proof fn lemma_valgrind_runs_push(h: Seq<EvaluationRunRecord>, run: EvaluationRunRecord)
    ensures
        valgrind_runs(h.push(run)) == if is_valgrind_run(run) {
            valgrind_runs(h).push(run)
        } else {
            valgrind_runs(h)
        },
{
    reveal_with_fuel(Seq::filter, 1);
    assert(h.push(run).drop_last() =~= h);
}

fn push_valgrind(s: &mut String, history: &Vec<EvaluationRunRecord>)
    ensures
        final(s)@ == old(s)@ + valgrind_section(history@),
{
    let ghost start = s@;
    s.append("## Valgrind\n\n");
    let ghost mid = s@;
    let mut count: usize = 0;
    let mut i: usize = 0;
    assert(history@.take(0) =~= Seq::<EvaluationRunRecord>::empty());
    assert(valgrind_runs(Seq::<EvaluationRunRecord>::empty()) =~= Seq::empty()) by {
        reveal_with_fuel(Seq::filter, 1);
    }
    while i < history.len()
        invariant
            i <= history.len(),
            count <= i,
            count == valgrind_runs(history@.take(i as int)).len(),
            s@ == mid + valgrind_blocks(
                first_n(valgrind_runs(history@.take(i as int)), REPORT_OUTPUT_LIMIT as int),
            ),
        decreases history.len() - i,
    {
        let ghost before = valgrind_runs(history@.take(i as int));
        proof {
            assert(history@.take(i + 1) =~= history@.take(i as int).push(history@[i as int]));
            lemma_valgrind_runs_push(history@.take(i as int), history@[i as int]);
        }
        let ghost run = history@[i as int];
        if is_valgrind_command(&history[i]) {
            if count < REPORT_OUTPUT_LIMIT {
                push_valgrind_block(s, &history[i]);
                assert(first_n(before.push(run), REPORT_OUTPUT_LIMIT as int) =~= first_n(
                    before,
                    REPORT_OUTPUT_LIMIT as int,
                ).push(run));
                assert(first_n(before.push(run), REPORT_OUTPUT_LIMIT as int).drop_last()
                    =~= first_n(before, REPORT_OUTPUT_LIMIT as int));
                assert(s@ == mid + valgrind_blocks(
                    first_n(before.push(run), REPORT_OUTPUT_LIMIT as int),
                ));
            } else {
                assert(first_n(before.push(run), REPORT_OUTPUT_LIMIT as int) =~= first_n(
                    before,
                    REPORT_OUTPUT_LIMIT as int,
                ));
            }
            count = count + 1;
        }
        i = i + 1;
    }
    assert(history@.take(i as int) =~= history@);
    if count == 0 {
        s.append("No Valgrind runs recorded.\n\n");
    }
    assert(s@ =~= start + valgrind_section(history@));
}

fn push_docker_text(s: &mut String, result: &Result<String, String>, failure: &str)
    ensures
        final(s)@ == old(s)@ + truncated(
            docker_text(*result, failure@),
            DOCKER_REPORT_LIMIT as nat,
        ),
{
    match result {
        Ok(output) => push_truncated(s, output.as_str(), DOCKER_REPORT_LIMIT),
        Err(error) => {
            let mut text = copy_str(failure);
            text.append(error.as_str());
            push_truncated(s, text.as_str(), DOCKER_REPORT_LIMIT);
        },
    }
}

fn push_docker(
    s: &mut String,
    compose_config: &Result<String, String>,
    docker_logs: &Result<String, String>,
)
    ensures
        final(s)@ == old(s)@ + docker_section(*compose_config, *docker_logs),
{
    let ghost start = s@;
    s.append("## Docker\n\n");
    s.append("### Compose Config\n\n```yaml\n");
    push_docker_text(s, compose_config, "Docker compose config failed: ");
    s.append("\n```\n\n### Recent Logs\n\n```text\n");
    push_docker_text(s, docker_logs, "Docker logs failed: ");
    s.append("\n```\n\n");
    assert(s@ =~= start + docker_section(*compose_config, *docker_logs));
}

fn push_notes(s: &mut String)
    ensures
        final(s)@ == old(s)@ + notes_section(),
{
    let ghost start = s@;
    s.append("## Manual Review Notes\n\n");
    s.append("- Check subject-specific requirements manually.\n");
    s.append("- Confirm generated outputs match the expected correction protocol.\n");
    s.append("- Treat this report as supporting evidence, not a final grade.\n");
    assert(s@ =~= start + notes_section());
}

/// Renders the Markdown evaluation report of an environment from its
/// configuration, the time of generation, the inspection of its project,
/// its evaluation history (newest first) and the output of the Docker
/// `compose config` and `compose logs` commands.
pub fn render_evaluation_report(
    config: &EnvironmentConfig,
    generated_at: u64,
    inspection: Result<ProjectInspection, String>,
    history: Vec<EvaluationRunRecord>,
    compose_config: Result<String, String>,
    docker_logs: Result<String, String>,
) -> (r: String)
    ensures
        r@ == report_text(
            *config,
            generated_at,
            inspection,
            history@,
            compose_config,
            docker_logs,
        ),
{
    let mut report = String::new();
    push_summary(&mut report, config, generated_at);
    push_project(&mut report, &inspection);
    push_history(&mut report, &history);
    push_outputs(&mut report, &history);
    push_valgrind(&mut report, &history);
    push_docker(&mut report, &compose_config, &docker_logs);
    push_notes(&mut report);
    assert(report@ =~= report_text(
        *config,
        generated_at,
        inspection,
        history@,
        compose_config,
        docker_logs,
    ));
    report
}

/// The name of the report generated at `timestamp`: `report-<timestamp>.md`,
/// or `report-<timestamp>-<index>.md` for a later report of the same second.
pub open spec fn report_name_text(timestamp: u64, index: nat) -> Seq<char> {
    if index == 0 {
        "report-"@ + decimal(timestamp as nat) + ".md"@
    } else {
        "report-"@ + decimal(timestamp as nat) + "-"@ + decimal(index) + ".md"@
    }
}

/// The file name of a report generated at `timestamp`, with an optional
/// index that tells apart reports of the same second. Every such name
/// passes the report name check.
pub fn report_file_name(timestamp: u64, suffix: Option<usize>) -> (r: String)
    ensures
        r@ == match suffix {
            Some(index) => "report-"@ + decimal(timestamp as nat) + "-"@ + decimal(index as nat)
                + ".md"@,
            None => report_name_text(timestamp, 0),
        },
        valid_report_name(r@),
{
    proof {
        match suffix {
            Some(index) => lemma_suffixed_name_is_valid(timestamp, index as nat),
            None => lemma_report_name_is_valid(timestamp, 0),
        }
    }
    let mut s = copy_str("report-");
    push_decimal(&mut s, timestamp as u128);
    match suffix {
        Some(index) => {
            s.append("-");
            push_decimal(&mut s, index as u128);
        },
        None => {},
    }
    s.append(".md");
    s
}

proof fn lemma_decimal_digits(n: nat)
    ensures
        forall|i: int|
            0 <= i < decimal(n).len() ==> 0x30 <= (#[trigger] decimal(n)[i] as u32) && (decimal(
                n,
            )[i] as u32) <= 0x39,
    decreases n,
{
    if n >= 10 {
        lemma_decimal_digits(n / 10);
        let d = decimal(n);
        let p = decimal(n / 10);
        assert forall|i: int| 0 <= i < d.len() implies 0x30 <= (#[trigger] d[i] as u32) && (
        d[i] as u32) <= 0x39 by {
            if i < p.len() {
                assert(d[i] == p[i]);
            }
        }
    }
}

proof fn lemma_last_dot_md(stem: Seq<char>)
    ensures
        crate::paths::last_dot(stem + ".md"@) == stem.len(),
{
    reveal_strlit(".md");
    let n = stem + ".md"@;
    assert(n.drop_last().drop_last() =~= stem + seq!['.']);
    assert(n.drop_last() =~= stem + seq!['.', 'm']);
    assert(n.last() == 'd');
    assert(n.drop_last().last() == 'm');
    assert((stem + seq!['.']).last() == '.');
    assert(crate::paths::last_dot(stem + seq!['.']) == stem.len());
    assert(crate::paths::last_dot(n.drop_last()) == crate::paths::last_dot(
        n.drop_last().drop_last(),
    ));
    assert(crate::paths::last_dot(n) == crate::paths::last_dot(n.drop_last()));
}

/// A name `stem.md` whose stem is not empty and has no `.`, `/` or `\` is
/// a valid report name.
proof fn lemma_md_name_valid(stem: Seq<char>)
    requires
        stem.len() > 0,
        forall|i: int| 0 <= i < stem.len() ==> #[trigger] stem[i] != '.' && stem[i] != '/'
            && stem[i] != '\\',
    ensures
        valid_report_name(stem + ".md"@),
{
    reveal_strlit(".md");
    reveal_strlit("md");
    let n = stem + ".md"@;
    lemma_last_dot_md(stem);
    assert(n.subrange(stem.len() + 1int, n.len() as int) =~= "md"@);
    assert forall|i: int| 0 <= i < n.len() implies #[trigger] n[i] != '/' && n[i] != '\\' by {
        if i < stem.len() {
            assert(n[i] == stem[i]);
        }
    }
    assert(!crate::text::has_double_dot(n)) by {
        if crate::text::has_double_dot(n) {
            let k = choose|k: int|
                0 <= k && k + 1 < n.len() && #[trigger] n[k] == '.' && n[k + 1] == '.';
            if k < stem.len() {
                assert(n[k] == stem[k]);
            } else {
                assert(n[k + 1] == 'm');
            }
        }
    }
}

/// The name `report-<timestamp>-<index>.md` passes the report name check,
/// whatever the index.
proof fn lemma_suffixed_name_is_valid(timestamp: u64, index: nat)
    ensures
        valid_report_name("report-"@ + decimal(timestamp as nat) + "-"@ + decimal(index) + ".md"@),
{
    reveal_strlit("report-");
    reveal_strlit("-");
    lemma_decimal_digits(timestamp as nat);
    lemma_decimal_digits(index);
    let d = decimal(timestamp as nat);
    let stem = "report-"@ + d + "-"@ + decimal(index);
    assert forall|i: int| 0 <= i < stem.len() implies #[trigger] stem[i] != '.' && stem[i] != '/'
        && stem[i] != '\\' by {
        if i >= 7 && i < 7 + d.len() {
            assert(stem[i] == d[i - 7]);
        } else if i >= 8 + d.len() {
            assert(stem[i] == decimal(index)[i - 8 - d.len()]);
        }
    }
    lemma_md_name_valid(stem);
    assert("report-"@ + d + "-"@ + decimal(index) + ".md"@ =~= stem + ".md"@);
}

/// Every generated report name is a valid report name, so a generated
/// report can be found again and opened by its name.
pub proof fn lemma_report_name_is_valid(timestamp: u64, index: nat)
    ensures
        valid_report_name(report_name_text(timestamp, index)),
{
    if index == 0 {
        reveal_strlit("report-");
        lemma_decimal_digits(timestamp as nat);
        let d = decimal(timestamp as nat);
        let stem = "report-"@ + d;
        assert forall|i: int| 0 <= i < stem.len() implies #[trigger] stem[i] != '.' && stem[i]
            != '/' && stem[i] != '\\' by {
            if i >= 7 {
                assert(stem[i] == d[i - 7]);
            }
        }
        lemma_md_name_valid(stem);
        assert(report_name_text(timestamp, index) =~= stem + ".md"@);
    } else {
        lemma_suffixed_name_is_valid(timestamp, index);
    }
}

/// How many names are tried for a new report.
pub const REPORT_NAME_ATTEMPTS: usize = 1000;

/// The path of the report of index `index` generated at `timestamp`.
pub open spec fn report_candidate(dir: Seq<char>, timestamp: u64, index: nat) -> Seq<char> {
    path_join(dir, report_name_text(timestamp, index))
}

/// The error given when all report names of a second are taken.
pub open spec fn no_free_report_name_error() -> Seq<char> {
    "Impossible de trouver un nom de rapport libre"@
}

/// The name and path of a new report of an environment, generated at
/// `timestamp`: the first of `report-<timestamp>.md`,
/// `report-<timestamp>-1.md`, ... up to index 999 for which `path_exists` says
/// that no file exists yet.
#[verifier::loop_isolation(false)]
pub fn next_report_path(
    home: Option<&str>,
    environment_id: &str,
    timestamp: u64,
    path_exists: impl Fn(&str) -> bool,
) -> (r: Result<(String, String), String>)
    requires
        forall|p: &str| path_exists.requires((p,)),
    ensures
        home is None ==> (r matches Err(e) && e@ == missing_home_error()),
        home matches Some(h) ==> {
            let dir = reports_path(h@, environment_id@);
            &&& r matches Ok((name, path)) ==> exists|index: nat|
                {
                    &&& index < REPORT_NAME_ATTEMPTS
                    &&& name@ == report_name_text(timestamp, index)
                    &&& path@ == report_candidate(dir, timestamp, index)
                    &&& answered(path_exists, path@, false)
                    &&& forall|j: nat|
                        j < index ==> #[trigger] answered(
                            path_exists,
                            report_candidate(dir, timestamp, j),
                            true,
                        )
                }
            &&& r matches Err(e) ==> {
                &&& e@ == no_free_report_name_error()
                &&& forall|j: nat|
                    j < REPORT_NAME_ATTEMPTS ==> #[trigger] answered(
                        path_exists,
                        report_candidate(dir, timestamp, j),
                        true,
                    )
            }
        },
{
    let dir = match reports_dir(home, environment_id) {
        Ok(d) => d,
        Err(e) => {
            return Err(e);
        },
    };
    let ghost dv = dir@;
    let mut index: usize = 0;
    while index < REPORT_NAME_ATTEMPTS
        invariant
            index <= REPORT_NAME_ATTEMPTS,
            forall|p: &str| path_exists.requires((p,)),
            forall|j: nat| j < index ==> #[trigger] answered(
                path_exists,
                report_candidate(dv, timestamp, j),
                true,
            ),
        decreases REPORT_NAME_ATTEMPTS - index,
    {
        let name = report_file_name(
            timestamp,
            if index == 0 {
                None
            } else {
                Some(index)
            },
        );
        assert(name@ == report_name_text(timestamp, index as nat));
        let path = path_join_str(dir.as_str(), name.as_str());
        let q = path.as_str();
        let found = path_exists(q);
        assert(answered(path_exists, report_candidate(dv, timestamp, index as nat), found)) by {
            assert(q@ == report_candidate(dv, timestamp, index as nat));
            assert(path_exists.ensures((q,), found));
        }
        if !found {
            return Ok((name, path));
        }
        index = index + 1;
    }
    Err(copy_str("Impossible de trouver un nom de rapport libre"))
}

/// The report files among `entries` whose names are valid report names.
pub open spec fn valid_reports(entries: Seq<ReportFile>) -> Seq<ReportFile>
    decreases entries.len(),
{
    if entries.len() == 0 {
        entries
    } else {
        let rest = valid_reports(entries.drop_last());
        if valid_report_name(entries.last().name@) {
            rest.push(entries.last())
        } else {
            rest
        }
    }
}

/// Whether report files are in decreasing order of name (newest first for
/// generated names of the same length).
pub open spec fn names_descending(files: Seq<ReportFile>) -> bool {
    forall|i: int, j: int| 0 <= i < j < files.len() ==> lex_le(files[j].name@, files[i].name@)
}

/// Whether a report file is named `n`.
pub open spec fn named(n: Seq<char>) -> spec_fn(ReportFile) -> bool {
    |f: ReportFile| f.name@ == n
}

/// The report files of a directory listing that have valid report names,
/// in decreasing order of name; files of the same name keep their order.
pub fn select_report_files(entries: Vec<ReportFile>) -> (r: Vec<ReportFile>)
    ensures
        names_descending(r@),
        r@.to_multiset() == valid_reports(entries@).to_multiset(),
        forall|n: Seq<char>| #[trigger] r@.filter(named(n)) == valid_reports(entries@).filter(named(n)),
{
    let ghost input = entries@;
    let mut rest = entries;
    let mut kept: Vec<ReportFile> = Vec::new();
    let ghost mut taken: int = 0;
    assert(input.take(0) =~= Seq::<ReportFile>::empty());
    while rest.len() > 0
        invariant
            0 <= taken <= input.len(),
            rest@ == input.skip(taken),
            kept@ == valid_reports(input.take(taken)),
        decreases rest.len(),
    {
        let x = rest.remove(0);
        proof {
            assert(input.take(taken + 1) =~= input.take(taken).push(x));
            assert(input.take(taken + 1).drop_last() =~= input.take(taken));
            assert(input.skip(taken + 1) =~= input.skip(taken).drop_first());
        }
        if crate::paths::validate_report_name(x.name.as_str()).is_ok() {
            kept.push(x);
        }
        proof {
            taken = taken + 1;
        }
    }
    assert(input.take(taken) =~= input);
    let r = stable_sort(kept);
    proof {
        assert forall|i: int, j: int| 0 <= i < j < r@.len() implies lex_le(
            r@[j].name@,
            r@[i].name@,
        ) by {
            assert(!ReportFile::key_before(r@[j].sort_key(), r@[i].sort_key()));
            lemma_lex_total(r@[i].name@, r@[j].name@);
        }
        assert forall|n: Seq<char>| #[trigger] r@.filter(named(n)) == valid_reports(
            input,
        ).filter(named(n)) by {
            assert(named(n) =~= key_is::<ReportFile>(n));
        }
    }
    r
}

/// Report files are listed by name, in decreasing order.
impl SortKey for ReportFile {
    type Key = Seq<char>;

    open spec fn sort_key(&self) -> Seq<char> {
        self.name@
    }

    open spec fn key_before(a: Seq<char>, b: Seq<char>) -> bool {
        lex_lt(b, a)
    }

    proof fn lemma_key_irreflexive(a: Seq<char>) {
        lemma_lex_lt_irreflexive(a);
    }

    proof fn lemma_key_transitive(a: Seq<char>, b: Seq<char>, c: Seq<char>) {
        lemma_lex_lt_transitive(c, b, a);
    }

    fn goes_before(&self, other: &Self) -> (r: bool) {
        string_lt(&other.name, &self.name)
    }
}

} // verus!
