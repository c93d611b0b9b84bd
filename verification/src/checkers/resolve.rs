//! Resolution of a checker into a stage, and interpretation of its result.

use vstd::prelude::*;

use crate::checkers::stage::{
    judge_file_to_session_file, CheckerSmallResult, CheckerStage, Environment, IOConfig, IOTarget,
    MountSource, MountSpec, OutputMode, ResolveCheckerInput, ResourceLimits, Seconds, SessionFile,
    Step, StepKind,
};
use crate::checkers::testlib::{
    build_compile_checker_step, interpret_testlib_exit_code, message_from, testlib_checker_binary,
    PointsClass, TestlibConfig,
};
use crate::checkers::types::{
    accepted, zero, CheckerScore, CheckerVerdict, JudgeFile, SourceFile,
};
use crate::checkers::util::truncate;
use crate::languages::resolve::ResolveLanguageOutput;
use crate::text::{concat3, decimal_i64, push_text, str_eq, trim};
use crate::verdict::Verdict;
use crate::checkers::stage;
use crate::checkers::testlib;
use crate::checkers::types;
use crate::checkers::util;
use crate::text;

verus! {

/// The environment that a checker runs in.
pub const CHECKER_ENV_ID: &'static str = "checker";

/// The step that decides.
pub const CHECK_STEP_ID: &'static str = "check";

/// The step that runs the solution.
pub const SOLUTION_EXEC_STEP_ID: &'static str = "exec";

/// The native comparator, as a tool of the platform and inside the sandbox.
pub const BROCCOLI_COMPARE_TOOL: &'static str = "broccoli-compare";

pub const BROCCOLI_COMPARE_PATH: &'static str = "/tools/broccoli-compare";

pub const ANSWER_FILE: &'static str = "answer.txt";

/// Where the comparator shows the start of the output.
pub const PREVIEW_FILE: &'static str = "output_preview.txt";

/// Where the comparator says what it found.
pub const MESSAGE_FILE: &'static str = "check_msg.txt";

/// Processor seconds that a comparison may take.
pub const BUILTIN_CHECK_TIME_LIMIT_S: u32 = 30;

/// Wall-clock seconds that a comparison may take. The comparator waits for the
/// solution's stream to close, so this is far above any time limit.
pub const BUILTIN_CHECK_WALL_LIMIT_S: u32 = 600;

pub const BUILTIN_CHECK_MEMORY_LIMIT_KB: u32 = 262144;

pub const DEFAULT_ABS_TOL: &'static str = "0.000000001";

pub const DEFAULT_REL_TOL: &'static str = "0.000001";

// ---------------------------------------------------------------------------
// Built-in formats
// ---------------------------------------------------------------------------

/// The formats that the native comparator knows.
pub open spec fn is_builtin(format: Seq<char>) -> bool {
    ||| format == "exact"@
    ||| format == "lines"@
    ||| format == "tokens"@
    ||| format == "tokens-case-insensitive"@
    ||| format == "tokens-float"@
}

/// The comparator's mode for a format: the same word.
pub fn builtin_compare_mode(format: &str) -> (r: Option<&'static str>)
    ensures
        r is Some <==> is_builtin(format@),
        r matches Some(mode) ==> mode@ == format@,
{
    if str_eq(format, "exact") {
        Some("exact")
    } else if str_eq(format, "lines") {
        Some("lines")
    } else if str_eq(format, "tokens") {
        Some("tokens")
    } else if str_eq(format, "tokens-case-insensitive") {
        Some("tokens-case-insensitive")
    } else if str_eq(format, "tokens-float") {
        Some("tokens-float")
    } else {
        None
    }
}

pub open spec fn tolerance_or(given: Option<String>, default: Seq<char>) -> Seq<char> {
    match given {
        Some(t) => t@,
        None => default,
    }
}

/// The comparator's arguments. Both tolerances are always given.
pub open spec fn compare_argv(format: Seq<char>, input: ResolveCheckerInput) -> Seq<Seq<char>> {
    let base = seq!["/tools/broccoli-compare"@, "--mode"@, format, "--answer"@, "answer.txt"@];
    if format == "tokens-float"@ {
        base + seq![
            "--epsilon"@,
            tolerance_or(input.abs_tol, "0.000000001"@),
            "--rel-epsilon"@,
            tolerance_or(input.rel_tol, "0.000001"@),
        ]
    } else {
        base
    }
}

/// The one step of a built-in checker: the comparator reads the solution's
/// output from the channel and holds nothing back.
pub open spec fn is_compare_step<T>(
    s: Step<T>,
    format: Seq<char>,
    input: ResolveCheckerInput,
    channel: Seq<char>,
) -> bool {
    &&& s.id@ == "check"@
    &&& s.kind is Checker
    &&& s.env_ref@ == "checker"@
    &&& text::views(s.argv@) == compare_argv(format, input)
    &&& s.limits == (ResourceLimits {
        time_limit: Some(Seconds::<T>::Whole(30)),
        wall_time_limit: Some(Seconds::<T>::Whole(600)),
        memory_limit: Some(262144),
        process_limit: Some(1),
    })
    &&& stage::reads_pipe(s.io.stdin, channel)
    &&& stage::writes_to(s.io.stdout, "output_preview.txt"@)
    &&& stage::writes_to(s.io.stderr, "check_msg.txt"@)
    &&& s.collect@.len() == 0
    &&& s.depends_on@.len() == 0
    &&& s.cache is None
    &&& s.mounts@.len() == 1
    &&& s.mounts@[0].inside_path@ == "/tools/broccoli-compare"@
    &&& (s.mounts@[0].source matches MountSource::PlatformTool { name } && name@
        == "broccoli-compare"@)
}

pub open spec fn is_builtin_stage<T>(
    stage: CheckerStage<T>,
    format: Seq<char>,
    input: ResolveCheckerInput,
    channel: Seq<char>,
) -> bool {
    &&& stage.steps@.len() == 1
    &&& is_compare_step(stage.steps@[0], format, input, channel)
    &&& stage.result_step_id@ == "check"@
    &&& (stage.output_mode matches OutputMode::Stream { channel: c } && c@ == channel)
    &&& stage.checker_env.id@ == "checker"@
    &&& stage.checker_env.files_in@.len() == 1
    &&& stage.checker_env.files_in@[0].0@ == "answer.txt"@
    &&& stage::session_file_is(stage.checker_env.files_in@[0].1, input.answer)
}

pub open spec fn not_builtin_text(format: Seq<char>) -> Seq<char> {
    "'"@ + format + "' is not a built-in comparison format"@
}

pub open spec fn needs_stream_text(format: Seq<char>, name: Seq<char>) -> Seq<char> {
    "built-in checker '"@ + format + "' requires a Stream output binding, got File '"@ + name
        + "'"@
}

/// A built-in format as a stage of one step. The answer is in the checker's
/// environment and nowhere else.
pub fn resolve_builtin<T>(format: &str, input: &ResolveCheckerInput) -> (r: Result<
    CheckerStage<T>,
    String,
>)
    ensures
        if !is_builtin(format@) {
            r matches Err(e) && e@ == not_builtin_text(format@)
        } else {
            match input.output_binding {
                OutputMode::Stream { channel } => r matches Ok(stage) && is_builtin_stage(
                    stage,
                    format@,
                    *input,
                    channel@,
                ),
                OutputMode::File { name } => r matches Err(e) && e@ == needs_stream_text(
                    format@,
                    name@,
                ),
            }
        },
{
    let mode = match builtin_compare_mode(format) {
        Some(m) => m,
        None => {
            return Err(concat3("'", format, "' is not a built-in comparison format"));
        },
    };
    let channel = match &input.output_binding {
        OutputMode::Stream { channel } => channel,
        OutputMode::File { name } => {
            let mut out = "built-in checker '".to_owned();
            out.append(format);
            out.append("' requires a Stream output binding, got File '");
            out.append(name.as_str());
            out.append("'");
            return Err(out);
        },
    };
    let mut argv: Vec<String> = Vec::new();
    push_text(&mut argv, BROCCOLI_COMPARE_PATH);
    push_text(&mut argv, "--mode");
    push_text(&mut argv, mode);
    push_text(&mut argv, "--answer");
    push_text(&mut argv, ANSWER_FILE);
    let ghost base = text::views(argv@);
    if str_eq(format, "tokens-float") {
        push_text(&mut argv, "--epsilon");
        push_tolerance(&mut argv, &input.abs_tol, DEFAULT_ABS_TOL);
        push_text(&mut argv, "--rel-epsilon");
        push_tolerance(&mut argv, &input.rel_tol, DEFAULT_REL_TOL);
    }
    assert(text::views(argv@) =~= compare_argv(format@, *input));
    let mut mounts: Vec<MountSpec> = Vec::new();
    mounts.push(
        MountSpec {
            inside_path: BROCCOLI_COMPARE_PATH.to_owned(),
            source: MountSource::PlatformTool { name: BROCCOLI_COMPARE_TOOL.to_owned() },
        },
    );
    let check = Step {
        id: CHECK_STEP_ID.to_owned(),
        kind: StepKind::Checker,
        env_ref: CHECKER_ENV_ID.to_owned(),
        argv,
        limits: ResourceLimits {
            time_limit: Some(Seconds::Whole(BUILTIN_CHECK_TIME_LIMIT_S)),
            wall_time_limit: Some(Seconds::Whole(BUILTIN_CHECK_WALL_LIMIT_S)),
            memory_limit: Some(BUILTIN_CHECK_MEMORY_LIMIT_KB),
            process_limit: Some(1),
        },
        io: IOConfig {
            stdin: IOTarget::Pipe { name: channel.clone() },
            stdout: IOTarget::File { path: PREVIEW_FILE.to_owned() },
            stderr: IOTarget::File { path: MESSAGE_FILE.to_owned() },
        },
        collect: Vec::new(),
        depends_on: Vec::new(),
        cache: None,
        mounts,
    };
    let mut files_in: Vec<(String, SessionFile)> = Vec::new();
    files_in.push((ANSWER_FILE.to_owned(), judge_file_to_session_file(&input.answer)));
    let mut steps: Vec<Step<T>> = Vec::new();
    steps.push(check);
    Ok(
        CheckerStage {
            checker_env: Environment { id: CHECKER_ENV_ID.to_owned(), files_in },
            steps,
            output_mode: OutputMode::Stream { channel: channel.clone() },
            result_step_id: CHECK_STEP_ID.to_owned(),
        },
    )
}

fn push_tolerance(argv: &mut Vec<String>, given: &Option<String>, default: &str)
    ensures
        text::views(final(argv)@) == text::views(old(argv)@).push(tolerance_or(*given, default@)),
{
    match given {
        Some(t) => push_text(argv, t.as_str()),
        None => push_text(argv, default),
    }
}

// ---------------------------------------------------------------------------
// testlib
// ---------------------------------------------------------------------------

pub open spec fn needs_file_text(channel: Seq<char>) -> Seq<char> {
    "testlib checker requires a File output binding, got Stream '"@ + channel + "'"@
}

/// The files of the checker's environment: its sources, the test input and the
/// answer. The solution's output is not among them.
pub open spec fn is_testlib_env(
    env: Environment,
    sources: Seq<SourceFile>,
    test_input: JudgeFile,
    answer: JudgeFile,
) -> bool {
    let n = sources.len() as int;
    &&& env.id@ == "checker"@
    &&& env.files_in@.len() == n + 2
    &&& forall|i: int|
        0 <= i < n ==> (#[trigger] env.files_in@[i]).0@ == sources[i].filename@ && stage::holds_text(
            env.files_in@[i].1,
            sources[i].content@,
        )
    &&& env.files_in@[n].0@ == "input.txt"@
    &&& stage::session_file_is(env.files_in@[n].1, test_input)
    &&& env.files_in@[n + 1].0@ == "answer.txt"@
    &&& stage::session_file_is(env.files_in@[n + 1].1, answer)
}

/// The step that runs the checker on the input, the output and the answer. The
/// output is mounted from the solution's step.
pub open spec fn is_testlib_check<T>(
    s: Step<T>,
    resolved: ResolveLanguageOutput,
    config: TestlibConfig<T>,
    output_file: Seq<char>,
) -> bool {
    &&& s.id@ == "check"@
    &&& s.kind is Checker
    &&& s.env_ref@ == "checker"@
    &&& text::views(s.argv@) == seq![
        testlib::checker_binary(resolved),
        "input.txt"@,
        "output.txt"@,
        "answer.txt"@,
    ]
    &&& s.limits == (ResourceLimits {
        time_limit: Some(config.run_time_limit_s),
        wall_time_limit: None,
        memory_limit: Some(config.run_memory_limit_kb),
        process_limit: None,
    })
    &&& s.io.stdin is Null
    &&& stage::writes_to(s.io.stdout, "checker_out.txt"@)
    &&& stage::writes_to(s.io.stderr, "checker_err.txt"@)
    &&& text::views(s.collect@) == seq!["checker_out.txt"@, "checker_err.txt"@]
    &&& text::views(s.depends_on@) == (if resolved.compile is Some {
        seq!["compile_checker"@]
    } else {
        seq![]
    })
    &&& s.cache is None
    &&& s.mounts@.len() == 1
    &&& s.mounts@[0].inside_path@ == "output.txt"@
    &&& (s.mounts@[0].source matches MountSource::StepOutput { from_step, file } && from_step@
        == "exec"@ && file@ == output_file)
}

pub open spec fn is_testlib_stage<T>(
    stage: CheckerStage<T>,
    sources: Seq<SourceFile>,
    test_input: JudgeFile,
    answer: JudgeFile,
    resolved: ResolveLanguageOutput,
    config: TestlibConfig<T>,
    output_file: Seq<char>,
) -> bool {
    let n: int = if resolved.compile is Some {
        1
    } else {
        0
    };
    &&& is_testlib_env(stage.checker_env, sources, test_input, answer)
    &&& stage.steps@.len() == n + 1
    &&& n == 1 ==> testlib::is_compile_step(stage.steps@[0], resolved, config, "checker"@)
    &&& is_testlib_check(stage.steps@[n], resolved, config, output_file)
    &&& (stage.output_mode matches OutputMode::File { name } && name@ == output_file)
    &&& stage.result_step_id@ == "check"@
}

fn testlib_env(checker_source: &[SourceFile], test_input: &JudgeFile, answer: &JudgeFile) -> (r:
    Environment)
    ensures
        is_testlib_env(r, checker_source@, *test_input, *answer),
{
    let mut files_in: Vec<(String, SessionFile)> = Vec::new();
    let mut i: usize = 0;
    while i < checker_source.len()
        invariant
            i <= checker_source@.len(),
            files_in@.len() == i,
            forall|j: int|
                0 <= j < i ==> (#[trigger] files_in@[j]).0@ == checker_source@[j].filename@
                    && stage::holds_text(files_in@[j].1, checker_source@[j].content@),
        decreases checker_source@.len() - i,
    {
        files_in.push(
            (
                checker_source[i].filename.clone(),
                SessionFile::Content { content: checker_source[i].content.clone() },
            ),
        );
        i += 1;
    }
    files_in.push(("input.txt".to_owned(), judge_file_to_session_file(test_input)));
    files_in.push(("answer.txt".to_owned(), judge_file_to_session_file(answer)));
    Environment { id: CHECKER_ENV_ID.to_owned(), files_in }
}

fn testlib_check_step<T: Copy>(
    resolved: &ResolveLanguageOutput,
    config: &TestlibConfig<T>,
    output_file: &str,
) -> (r: Step<T>)
    ensures
        is_testlib_check(r, *resolved, *config, output_file@),
{
    let binary = testlib_checker_binary(resolved);
    let mut argv: Vec<String> = Vec::new();
    push_text(&mut argv, binary.as_str());
    push_text(&mut argv, "input.txt");
    push_text(&mut argv, "output.txt");
    push_text(&mut argv, "answer.txt");
    assert(text::views(argv@) =~= seq![binary@, "input.txt"@, "output.txt"@, "answer.txt"@]);
    let mut collect: Vec<String> = Vec::new();
    push_text(&mut collect, "checker_out.txt");
    push_text(&mut collect, "checker_err.txt");
    assert(text::views(collect@) =~= seq!["checker_out.txt"@, "checker_err.txt"@]);
    let mut depends_on: Vec<String> = Vec::new();
    if resolved.compile.is_some() {
        push_text(&mut depends_on, "compile_checker");
        assert(text::views(depends_on@) =~= seq!["compile_checker"@]);
    } else {
        assert(text::views(depends_on@) =~= Seq::<Seq<char>>::empty());
    }
    let mut mounts: Vec<MountSpec> = Vec::new();
    mounts.push(
        MountSpec {
            inside_path: "output.txt".to_owned(),
            source: MountSource::StepOutput {
                from_step: SOLUTION_EXEC_STEP_ID.to_owned(),
                file: output_file.to_owned(),
            },
        },
    );
    Step {
        id: CHECK_STEP_ID.to_owned(),
        kind: StepKind::Checker,
        env_ref: CHECKER_ENV_ID.to_owned(),
        argv,
        limits: ResourceLimits {
            time_limit: Some(config.run_time_limit_s),
            wall_time_limit: None,
            memory_limit: Some(config.run_memory_limit_kb),
            process_limit: None,
        },
        io: IOConfig {
            stdin: IOTarget::Null,
            stdout: IOTarget::File { path: "checker_out.txt".to_owned() },
            stderr: IOTarget::File { path: "checker_err.txt".to_owned() },
        },
        collect,
        depends_on,
        cache: None,
        mounts,
    }
}

/// A testlib checker as a stage: compile it where it needs that, then run it.
pub fn build_testlib_checker_stage<T: Copy>(
    checker_source: &[SourceFile],
    test_input: &JudgeFile,
    answer: &JudgeFile,
    resolved: &ResolveLanguageOutput,
    config: &TestlibConfig<T>,
    output_binding: &OutputMode,
) -> (r: Result<CheckerStage<T>, String>)
    ensures
        match *output_binding {
            OutputMode::File { name } => r matches Ok(stage) && is_testlib_stage(
                stage,
                checker_source@,
                *test_input,
                *answer,
                *resolved,
                *config,
                name@,
            ),
            OutputMode::Stream { channel } => r matches Err(e) && e@ == needs_file_text(channel@),
        },
{
    let output_file = match output_binding {
        OutputMode::File { name } => name,
        OutputMode::Stream { channel } => {
            return Err(
                concat3(
                    "testlib checker requires a File output binding, got Stream '",
                    channel.as_str(),
                    "'",
                ),
            );
        },
    };
    let checker_env = testlib_env(checker_source, test_input, answer);
    let mut steps: Vec<Step<T>> = Vec::new();
    match build_compile_checker_step(resolved, config, CHECKER_ENV_ID) {
        Some(step) => {
            steps.push(step);
        },
        None => {},
    }
    steps.push(testlib_check_step(resolved, config, output_file.as_str()));
    Ok(
        CheckerStage {
            checker_env,
            steps,
            output_mode: OutputMode::File { name: output_file.clone() },
            result_step_id: CHECK_STEP_ID.to_owned(),
        },
    )
}

/// The solution's output is never a static file of the checker's environment,
/// as long as no checker source bears its name.
pub proof fn output_is_only_mounted(
    env: Environment,
    sources: Seq<SourceFile>,
    test_input: JudgeFile,
    answer: JudgeFile,
    i: int,
)
    requires
        is_testlib_env(env, sources, test_input, answer),
        forall|j: int| 0 <= j < sources.len() ==> (#[trigger] sources[j]).filename@ != "output.txt"@,
        0 <= i < env.files_in@.len(),
    ensures
        env.files_in@[i].0@ != "output.txt"@,
{
    reveal_strlit("output.txt");
    reveal_strlit("input.txt");
    reveal_strlit("answer.txt");
    assert("input.txt"@.len() == 9 && "output.txt"@.len() == 10);
    assert("answer.txt"@[0] == 'a' && "output.txt"@[0] == 'o');
    if i < sources.len() {
        assert(env.files_in@[i].0@ == sources[i].filename@);
    }
}

// ---------------------------------------------------------------------------
// Which stage
// ---------------------------------------------------------------------------

/// What has to be done to resolve a format.
#[derive(Debug, Clone, PartialEq, Eq)]
pub enum ResolvePlan {
    /// Build the stage of a built-in format.
    Builtin,
    /// Load the checker's source for this problem and resolve its language.
    Testlib { problem_id: i32 },
}

pub open spec fn no_problem_text() -> Seq<char> {
    "Testlib checker requires a problem_id to load its source"@
}

pub open spec fn none_stage_text() -> Seq<char> {
    "checker format 'none' performs no comparison and must be interpreted inline, not resolved as a checker stage"@
}

pub open spec fn no_resolver_text(format: Seq<char>) -> Seq<char> {
    "No checker resolver for format '"@ + format + "' in standard-checkers"@
}

/// How a format is resolved, or why it is not.
pub fn resolve_plan(format: &str, problem_id: Option<i32>) -> (r: Result<ResolvePlan, String>)
    ensures
        if is_builtin(format@) {
            r == Ok::<ResolvePlan, String>(ResolvePlan::Builtin)
        } else if format@ == "testlib"@ {
            match problem_id {
                Some(id) => r == Ok::<ResolvePlan, String>(ResolvePlan::Testlib { problem_id: id }),
                None => r matches Err(e) && e@ == no_problem_text(),
            }
        } else if format@ == "none"@ {
            r matches Err(e) && e@ == none_stage_text()
        } else {
            r matches Err(e) && e@ == no_resolver_text(format@)
        },
{
    if builtin_compare_mode(format).is_some() {
        Ok(ResolvePlan::Builtin)
    } else if str_eq(format, "testlib") {
        match problem_id {
            Some(id) => Ok(ResolvePlan::Testlib { problem_id: id }),
            None => Err("Testlib checker requires a problem_id to load its source".to_owned()),
        }
    } else if str_eq(format, "none") {
        Err(
            "checker format 'none' performs no comparison and must be interpreted inline, not resolved as a checker stage".to_owned(),
        )
    } else {
        Err(
            concat3(
                "No checker resolver for format '",
                format,
                "' in standard-checkers",
            ),
        )
    }
}

/// A problem's checker source, which has to be set and to hold a file.
pub fn accept_checker_source(is_default: bool, files: Vec<SourceFile>) -> (r: Result<
    Vec<SourceFile>,
    String,
>)
    ensures
        if is_default || files@.len() == 0 {
            r matches Err(e) && e@ == "Testlib checker requires checker_source"@
        } else {
            r == Ok::<Vec<SourceFile>, String>(files)
        },
{
    if is_default || files.len() == 0 {
        Err("Testlib checker requires checker_source".to_owned())
    } else {
        Ok(files)
    }
}

// ---------------------------------------------------------------------------
// Interpretation
// ---------------------------------------------------------------------------

pub open spec fn comparator_code_text(code: int) -> Seq<char> {
    "Comparator exited with unexpected code "@ + text::decimal_int(code)
}

/// Why a step without an exit code failed, by its sandbox status.
pub open spec fn failure_text(label: Seq<char>, status: Seq<char>, detail: Seq<char>) -> Seq<char> {
    if status == "TO"@ {
        label + " timed out"@
    } else if status == "SG"@ {
        label + " was terminated by a signal"@
    } else if status == "UNKNOWN"@ {
        label + " step did not run; dependency may have failed"@
    } else if status.len() > 0 && detail.len() == 0 {
        label + " failed with sandbox status "@ + status
    } else if status.len() > 0 {
        label + " failed with sandbox status "@ + status + ": "@ + detail
    } else if detail.len() == 0 {
        label + " failed without an exit code"@
    } else {
        label + " failed without an exit code: "@ + detail
    }
}

pub open spec fn status_of(result: CheckerSmallResult) -> Seq<char> {
    match result.sandbox_status {
        Some(s) => s@,
        None => Seq::empty(),
    }
}

pub open spec fn sandbox_failure(
    v: CheckerVerdict,
    label: Seq<char>,
    result: CheckerSmallResult,
) -> bool {
    types::says_zero(
        v,
        Verdict::SystemError,
        Some(util::truncated(failure_text(label, status_of(result), text::trim_spec(result.stderr@)), 1024)),
    )
}

fn sandbox_failure_verdict(label: &str, result: &CheckerSmallResult) -> (r: CheckerVerdict)
    ensures
        sandbox_failure(r, label@, *result),
{
    let none = String::new();
    assert(none@ =~= Seq::<char>::empty());
    let status = match &result.sandbox_status {
        Some(s) => s,
        None => &none,
    };
    let detail = trim(result.stderr.as_str());
    let mut out = label.to_owned();
    if str_eq(status.as_str(), "TO") {
        out.append(" timed out");
    } else if str_eq(status.as_str(), "SG") {
        out.append(" was terminated by a signal");
    } else if str_eq(status.as_str(), "UNKNOWN") {
        out.append(" step did not run; dependency may have failed");
    } else if !status.as_str().is_empty() && detail.as_str().is_empty() {
        out.append(" failed with sandbox status ");
        out.append(status.as_str());
    } else if !status.as_str().is_empty() {
        out.append(" failed with sandbox status ");
        out.append(status.as_str());
        out.append(": ");
        out.append(detail.as_str());
    } else if detail.as_str().is_empty() {
        out.append(" failed without an exit code");
    } else {
        out.append(" failed without an exit code: ");
        out.append(detail.as_str());
    }
    assert(status_of(*result) == status@);
    zero(Verdict::SystemError, Some(truncate(out.as_str(), 1024)))
}

/// The verdict for each exit code of the comparator.
pub open spec fn builtin_verdict(v: CheckerVerdict, result: CheckerSmallResult) -> bool {
    match result.exit_code {
        None => sandbox_failure(v, "Comparator"@, result),
        Some(code) => if code == 0 {
            v.verdict is Accepted && v.score is Full && types::message_is(
                v.message,
                testlib::message_of(result.stderr@),
            )
        } else if code == 1 {
            types::says_zero(v, Verdict::WrongAnswer, testlib::message_of(result.stderr@))
        } else if code == 2 {
            types::says_zero(
                v,
                Verdict::WrongAnswer,
                testlib::message_or(result.stderr@, "Presentation error"@),
            )
        } else {
            types::says_zero(v, Verdict::SystemError, Some(comparator_code_text(code as int)))
        },
    }
}

fn interpret_builtin(result: &CheckerSmallResult) -> (r: CheckerVerdict)
    ensures
        builtin_verdict(r, *result),
{
    match result.exit_code {
        None => sandbox_failure_verdict("Comparator", result),
        Some(code) => {
            if code == 0 {
                CheckerVerdict {
                    verdict: Verdict::Accepted,
                    score: CheckerScore::Full,
                    message: message_from(result.stderr.as_str()),
                }
            } else if code == 1 {
                zero(Verdict::WrongAnswer, message_from(result.stderr.as_str()))
            } else if code == 2 {
                let message = match message_from(result.stderr.as_str()) {
                    Some(m) => Some(m),
                    None => Some("Presentation error".to_owned()),
                };
                zero(Verdict::WrongAnswer, message)
            } else {
                let mut out = "Comparator exited with unexpected code ".to_owned();
                out.append(decimal_i64(code as i64).as_str());
                zero(Verdict::SystemError, Some(out))
            }
        },
    }
}

pub open spec fn no_interpreter_text(format: Seq<char>) -> Seq<char> {
    "No interpreter registered for checker format '"@ + format + "'"@
}

/// The verdict on a check step's small result, by format.
pub open spec fn small_result_verdict(
    v: CheckerVerdict,
    format: Seq<char>,
    result: CheckerSmallResult,
    points: PointsClass,
    token: PointsClass,
) -> bool {
    if is_builtin(format) {
        builtin_verdict(v, result)
    } else if format == "testlib"@ {
        match result.exit_code {
            Some(code) => testlib::testlib_verdict(v, code, result.stderr@, points, token),
            None => sandbox_failure(v, "Checker"@, result),
        }
    } else if format == "none"@ {
        types::says_accepted(v)
    } else {
        types::says_zero(v, Verdict::SystemError, Some(no_interpreter_text(format)))
    }
}

/// The verdict that a check step's small result stands for. `points` and
/// `token` are what the candidates of a partial result are as numbers.
pub fn interpret_checker(
    format: &str,
    result: &CheckerSmallResult,
    points: PointsClass,
    token: PointsClass,
) -> (r: CheckerVerdict)
    ensures
        small_result_verdict(r, format@, *result, points, token),
{
    if builtin_compare_mode(format).is_some() {
        interpret_builtin(result)
    } else if str_eq(format, "testlib") {
        match result.exit_code {
            Some(code) => interpret_testlib_exit_code(code, result.stderr.as_str(), points, token),
            None => sandbox_failure_verdict("Checker", result),
        }
    } else if str_eq(format, "none") {
        accepted()
    } else {
        zero(
            Verdict::SystemError,
            Some(concat3("No interpreter registered for checker format '", format, "'")),
        )
    }
}

/// A checker that left no exit code never accepts.
pub proof fn no_exit_code_is_a_system_error(
    v: CheckerVerdict,
    format: Seq<char>,
    result: CheckerSmallResult,
    points: PointsClass,
    token: PointsClass,
)
    requires
        small_result_verdict(v, format, result, points, token),
        result.exit_code is None,
        format != "none"@,
    ensures
        v.verdict is SystemError,
        v.score is Zero,
{
    reveal_strlit("testlib");
    reveal_strlit("none");
    assert("testlib"@.len() == 7 && "none"@.len() == 4);
}

} // verus!
