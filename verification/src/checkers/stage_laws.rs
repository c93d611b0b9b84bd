//! What the stages of checkers promise: how they are run, on what, and what comes
//! of how they end.

use vstd::prelude::*;

use crate::checkers::resolve;
use crate::checkers::resolve::ResolvePlan;
use crate::checkers::stage::{CheckerSmallResult, CheckerStage, Environment, IOTarget, MountSource, OutputMode, ResolveCheckerInput, SessionFile, Step};
use crate::checkers::testlib;
use crate::checkers::testlib::{PartialCandidates, PointsClass, TestlibConfig};
use crate::checkers::types;
use crate::checkers::types::{CheckerScore, CheckerVerdict, JudgeFile, SourceFile};
use crate::checkers::util;
use crate::languages::resolve::{ResolveLanguageInput, ResolveLanguageOutput};
use crate::text;
use crate::verdict::Verdict;

verus! {

// ---------------------------------------------------------------------------
// How a checker ends
// ---------------------------------------------------------------------------

/// What the exit code of a testlib checker means: 0 accepts, 1 rejects, 2 is a
/// wrong presentation, 3 is a failure of the judge, 4 is extra output, 7 is a
/// partial score, 8 is output that ends too soon, and any other is a failure of
/// the system. Only a partial score can have points without being accepted.
pub proof fn exit_codes_have_their_meaning(
    v: CheckerVerdict,
    code: i32,
    stderr: Seq<char>,
    points: PointsClass,
    token: PointsClass,
)
    requires
        testlib::testlib_verdict(v, code, stderr, points, token),
    ensures
        code == 0 ==> v.verdict == Verdict::Accepted && v.score is Full,
        code == 1 || code == 2 || code == 4 || code == 8 ==> v.verdict == Verdict::WrongAnswer
            && v.score is Zero,
        code == 3 ==> v.verdict == Verdict::SystemError && v.score is Zero,
        code < 0 || code == 5 || code == 6 || code > 8 ==> v.verdict == Verdict::SystemError
            && v.score is Zero,
        code == 7 ==> (v.verdict == Verdict::Accepted && v.score is Full) || v.verdict
            == Verdict::WrongAnswer,
        v.score is Written ==> code == 7,
        text::trim_spec(stderr).len() > 0 && (code == 0 || code == 1 || code == 2 || code == 3
            || code == 4 || code == 8) ==> v.message is Some && v.message->0@ == util::truncated(
            text::trim_spec(stderr),
            1024,
        ),
        text::trim_spec(stderr).len() == 0 && (code == 0 || code == 1) ==> v.message is None,
        text::trim_spec(stderr).len() == 0 && code == 2 ==> v.message is Some && v.message->0@
            == "Presentation error"@,
{
    if code == 7 {
        let c = choose|c: PartialCandidates| #[trigger]
            testlib::candidates_are(c, stderr) && testlib::partial_verdict(v, c, points, token);
        assert(testlib::partial_verdict(v, c, points, token));
    }
}

/// A partial score: full points accept, fewer are told as they are written, and
/// without a number there are none. What stands behind the word for points comes
/// first, the first word of the line second.
pub proof fn partial_scores_are_told(
    v: CheckerVerdict,
    c: PartialCandidates,
    points: PointsClass,
    token: PointsClass,
)
    requires
        testlib::partial_verdict(v, c, points, token),
    ensures
        c.points is Some && points == PointsClass::Full ==> v.verdict == Verdict::Accepted
            && v.score is Full && v.message == c.points_message,
        c.points is Some && points == PointsClass::Below ==> v.verdict == Verdict::WrongAnswer
            && v.score is Written && v.score->0@ == c.points->0@ && v.message == c.points_message,
        (c.points is None || points == PointsClass::NotNumber) && c.token is Some && token
            == PointsClass::Full ==> v.verdict == Verdict::Accepted && v.score is Full && v.message
            == c.token_message,
        (c.points is None || points == PointsClass::NotNumber) && c.token is Some && token
            == PointsClass::Below ==> v.verdict == Verdict::WrongAnswer && v.score is Written
            && v.score->0@ == c.token->0@ && v.message == c.token_message,
        (c.points is None || points == PointsClass::NotNumber) && (c.token is None || token
            == PointsClass::NotNumber) ==> v.verdict == Verdict::WrongAnswer && v.score is Zero
            && v.message == c.fallback,
{
}

/// The points of a line that tells them are the word behind the one for points,
/// and the message is what follows.
pub proof fn points_stand_behind_their_word(line: Seq<char>, rest: Seq<char>)
    ensures
        testlib::after_points("points "@ + rest) == Some(rest),
        testlib::after_points("points\t"@ + rest) == Some(rest),
        line.len() < 7 || (line.take(7) != "points "@ && line.take(7) != "points\t"@)
            ==> testlib::after_points(line) is None,
{
    reveal_strlit("points ");
    reveal_strlit("points\t");
    let a = "points "@ + rest;
    let b = "points\t"@ + rest;
    assert("points "@.len() == 7 && "points\t"@.len() == 7);
    assert(a.subrange(0, 7) =~= "points "@);
    assert(b.subrange(0, 7) =~= "points\t"@);
    assert(a.skip(7) =~= rest);
    assert(b.skip(7) =~= rest);
    assert(text::has_prefix(a, "points "@));
    assert(text::has_prefix(b, "points\t"@));
    if line.len() >= 7 {
        assert(line.subrange(0, 7) =~= line.take(7));
    }
}

/// What the exit code of a comparison means: 0 accepts, 1 and 2 reject, any other
/// is a failure of the system, and so is none at all.
pub proof fn comparisons_end_with_a_verdict(v: CheckerVerdict, result: CheckerSmallResult)
    requires
        resolve::builtin_verdict(v, result),
    ensures
        result.exit_code == Some(0i32) ==> v.verdict == Verdict::Accepted && v.score is Full,
        result.exit_code == Some(1i32) || result.exit_code == Some(2i32) ==> v.verdict
            == Verdict::WrongAnswer && v.score is Zero,
        result.exit_code is None ==> v.verdict == Verdict::SystemError && v.score is Zero,
        result.exit_code is Some && (result.exit_code->0 < 0 || result.exit_code->0 > 2)
            ==> v.verdict == Verdict::SystemError && v.score is Zero,
{
}

/// Which checker reads a result: the comparisons and testlib by their exit codes,
/// none accepts whatever came, and a format that is not known is a failure of the
/// system.
pub proof fn the_format_names_its_checker(
    v: CheckerVerdict,
    format: Seq<char>,
    result: CheckerSmallResult,
    points: PointsClass,
    token: PointsClass,
)
    requires
        resolve::small_result_verdict(v, format, result, points, token),
    ensures
        format == "exact"@ || format == "lines"@ || format == "tokens"@ || format
            == "tokens-case-insensitive"@ || format == "tokens-float"@ ==> resolve::builtin_verdict(
            v,
            result,
        ),
        format == "testlib"@ && result.exit_code is Some ==> testlib::testlib_verdict(
            v,
            result.exit_code->0,
            result.stderr@,
            points,
            token,
        ),
        format == "testlib"@ && result.exit_code is None ==> v.verdict == Verdict::SystemError,
        format == "none"@ ==> v.verdict == Verdict::Accepted && v.score is Full && v.message
            is None,
        format != "exact"@ && format != "lines"@ && format != "tokens"@ && format
            != "tokens-case-insensitive"@ && format != "tokens-float"@ && format != "testlib"@
            && format != "none"@ ==> v.verdict == Verdict::SystemError && v.score is Zero,
{
    lemma_formats_differ();
}

proof fn lemma_formats_differ()
    ensures
        "testlib"@ != "exact"@,
        "testlib"@ != "lines"@,
        "testlib"@ != "tokens"@,
        "testlib"@ != "tokens-case-insensitive"@,
        "testlib"@ != "tokens-float"@,
        "none"@ != "exact"@,
        "none"@ != "lines"@,
        "none"@ != "tokens"@,
        "none"@ != "tokens-case-insensitive"@,
        "none"@ != "tokens-float"@,
        "none"@ != "testlib"@,
{
    reveal_strlit("testlib");
    reveal_strlit("none");
    reveal_strlit("exact");
    reveal_strlit("lines");
    reveal_strlit("tokens");
    reveal_strlit("tokens-case-insensitive");
    reveal_strlit("tokens-float");
    assert("testlib"@.len() == 7);
    assert("none"@.len() == 4);
    assert("exact"@.len() == 5);
    assert("lines"@.len() == 5);
    assert("tokens"@.len() == 6);
    assert("tokens-case-insensitive"@.len() == 23);
    assert("tokens-float"@.len() == 12);
}

/// What a sandbox tells of a run without an exit code: it took too long, a signal
/// ended it, or it was never run; else its status, with what was written.
pub proof fn failures_tell_their_cause(label: Seq<char>, status: Seq<char>, detail: Seq<char>)
    ensures
        resolve::failure_text(label, "TO"@, detail) == label + " timed out"@,
        resolve::failure_text(label, "SG"@, detail) == label + " was terminated by a signal"@,
        resolve::failure_text(label, "UNKNOWN"@, detail) == label
            + " step did not run; dependency may have failed"@,
        status.len() == 0 && detail.len() == 0 ==> resolve::failure_text(label, status, detail)
            == label + " failed without an exit code"@,
        status.len() == 0 && detail.len() > 0 ==> resolve::failure_text(label, status, detail)
            == label + " failed without an exit code: "@ + detail,
        status.len() > 0 && status != "TO"@ && status != "SG"@ && status != "UNKNOWN"@
            && detail.len() == 0 ==> resolve::failure_text(label, status, detail) == label
            + " failed with sandbox status "@ + status,
        status.len() > 0 && status != "TO"@ && status != "SG"@ && status != "UNKNOWN"@
            && detail.len() > 0 ==> resolve::failure_text(label, status, detail) == label
            + " failed with sandbox status "@ + status + ": "@ + detail,
{
    reveal_strlit("TO");
    reveal_strlit("SG");
    reveal_strlit("UNKNOWN");
    assert("TO"@.len() == 2 && "TO"@[0] == 'T');
    assert("SG"@.len() == 2 && "SG"@[0] == 'S');
    assert("UNKNOWN"@.len() == 7);
}

// ---------------------------------------------------------------------------
// How a comparison is run
// ---------------------------------------------------------------------------

/// A comparison is told its format and where the answer is; and for numbers how
/// far they may be apart, as the problem says or by default.
pub proof fn comparisons_are_told_their_format(format: Seq<char>, input: ResolveCheckerInput)
    ensures
        ({
            let argv = resolve::compare_argv(format, input);
            &&& argv[0] == "/tools/broccoli-compare"@
            &&& argv[1] == "--mode"@ && argv[2] == format
            &&& argv[3] == "--answer"@ && argv[4] == "answer.txt"@
            &&& format != "tokens-float"@ ==> argv.len() == 5
            &&& format == "tokens-float"@ ==> {
                &&& argv.len() == 9
                &&& argv[5] == "--epsilon"@ && argv[7] == "--rel-epsilon"@
                &&& input.abs_tol is Some ==> argv[6] == input.abs_tol->0@
                &&& input.abs_tol is None ==> argv[6] == "0.000000001"@
                &&& input.rel_tol is Some ==> argv[8] == input.rel_tol->0@
                &&& input.rel_tol is None ==> argv[8] == "0.000001"@
            }
        }),
{
}

/// A comparison reads what the solution writes, as it is written, and the answer
/// from its file; what it says goes to a file of its own.
pub proof fn a_comparison_reads_the_output_and_the_answer<T>(
    stage: CheckerStage<T>,
    format: Seq<char>,
    input: ResolveCheckerInput,
    channel: Seq<char>,
)
    requires
        resolve::is_builtin_stage(stage, format, input, channel),
    ensures
        stage.steps@.len() == 1,
        ({
            let s = stage.steps@[0];
            &&& text::views(s.argv@) == resolve::compare_argv(format, input)
            &&& s.io.stdin is Pipe && s.io.stdin->name@ == channel
            &&& s.io.stderr is File && s.io.stderr->path@ == "check_msg.txt"@
            &&& s.id@ == stage.result_step_id@
            &&& s.env_ref@ == stage.checker_env.id@
            &&& s.limits.process_limit == Some(1u32)
            &&& s.limits.memory_limit == Some(262144u32)
        }),
        stage.output_mode is Stream && stage.output_mode->channel@ == channel,
        stage.checker_env.files_in@.len() == 1,
        stage.checker_env.files_in@[0].0@ == "answer.txt"@,
        input.answer is Blob ==> stage.checker_env.files_in@[0].1 is Blob
            && stage.checker_env.files_in@[0].1->hash@ == input.answer->hash@,
        input.answer is Inline ==> stage.checker_env.files_in@[0].1 is Content
            && stage.checker_env.files_in@[0].1->content@ == input.answer->text@,
{
}

// ---------------------------------------------------------------------------
// How a testlib checker is run
// ---------------------------------------------------------------------------

/// A testlib checker gets the input, the output and the answer, in this order. The
/// output is what the solution wrote; the checker is compiled first where it has
/// to be.
pub proof fn a_checker_gets_input_output_and_answer<T>(
    stage: CheckerStage<T>,
    sources: Seq<SourceFile>,
    test_input: JudgeFile,
    answer: JudgeFile,
    resolved: ResolveLanguageOutput,
    config: TestlibConfig<T>,
    output_file: Seq<char>,
)
    requires
        resolve::is_testlib_stage(
            stage,
            sources,
            test_input,
            answer,
            resolved,
            config,
            output_file,
        ),
    ensures
        resolved.compile is Some ==> stage.steps@.len() == 2,
        resolved.compile is None ==> stage.steps@.len() == 1,
        ({
            let s = stage.steps@.last();
            let argv = text::views(s.argv@);
            &&& argv.len() == 4
            &&& argv[1] == "input.txt"@
            &&& argv[2] == "output.txt"@
            &&& argv[3] == "answer.txt"@
            &&& s.id@ == stage.result_step_id@
            &&& s.limits.time_limit == Some(config.run_time_limit_s)
            &&& s.limits.memory_limit == Some(config.run_memory_limit_kb)
            &&& s.mounts@.len() == 1
            &&& s.mounts@[0].inside_path@ == "output.txt"@
            &&& s.mounts@[0].source is StepOutput
            &&& s.mounts@[0].source->from_step@ == "exec"@
            &&& s.mounts@[0].source->file@ == output_file
            &&& resolved.compile is Some ==> s.depends_on@.len() == 1 && s.depends_on@[0]@
                == stage.steps@[0].id@
        }),
        ({
            let files = stage.checker_env.files_in@;
            let n = sources.len() as int;
            &&& files.len() == n + 2
            &&& files[n].0@ == "input.txt"@
            &&& files[n + 1].0@ == "answer.txt"@
            &&& test_input is Inline ==> files[n].1 is Content && files[n].1->content@
                == test_input->text@
            &&& answer is Inline ==> files[n + 1].1 is Content && files[n + 1].1->content@
                == answer->text@
            &&& test_input is Blob ==> files[n].1 is Blob && files[n].1->hash@ == test_input->hash@
            &&& answer is Blob ==> files[n + 1].1 is Blob && files[n + 1].1->hash@ == answer->hash@
            &&& forall|i: int|
                0 <= i < n ==> (#[trigger] files[i]).0@ == sources[i].filename@ && files[i].1
                    is Content && files[i].1->content@ == sources[i].content@
        }),
{
    let n: int = if resolved.compile is Some {
        1
    } else {
        0
    };
    let s = stage.steps@[n];
    assert(s == stage.steps@.last());
    if resolved.compile is Some {
        let deps = text::views(s.depends_on@);
        assert(deps.len() == 1);
        assert(deps[0] == "compile_checker"@);
        assert(s.depends_on@[0]@ == deps[0]);
    }
}

/// The checker that is run is what was compiled, in the working directory.
pub proof fn what_was_compiled_is_run(resolved: ResolveLanguageOutput)
    ensures
        resolved.compile is Some && resolved.compile->0.outputs@.len() > 0
            && resolved.compile->0.outputs@[0] is File ==> testlib::checker_binary(resolved)
            == "./"@ + resolved.compile->0.outputs@[0].name(),
        resolved.compile is None ==> testlib::checker_binary(resolved) == "./checker"@,
{
}

/// A file is a source by its ending, in any case; and a language goes by the
/// ending as it is: C++ or C.
pub proof fn sources_go_by_their_ending(name: Seq<char>)
    ensures
        text::ascii_lower_all(name + ".cpp"@) == text::ascii_lower_all(name) + ".cpp"@,
        testlib::names_source(name + ".cpp"@) && testlib::names_source(name + ".cc"@)
            && testlib::names_source(name + ".cxx"@) && testlib::names_source(name + ".c"@),
        testlib::language_of(name + ".cpp"@) == Some("cpp"@),
        testlib::language_of(name + ".cc"@) == Some("cpp"@),
        testlib::language_of(name + ".cxx"@) == Some("cpp"@),
        testlib::language_of(name + ".c"@) == Some("c"@),
        !testlib::names_source(name + ".h"@),
        testlib::language_of(name + ".h"@) is None,
{
    reveal_strlit(".cpp");
    reveal_strlit(".cc");
    reveal_strlit(".cxx");
    reveal_strlit(".c");
    reveal_strlit(".h");
    lemma_ending(name, ".cpp"@);
    lemma_ending(name, ".cc"@);
    lemma_ending(name, ".cxx"@);
    lemma_ending(name, ".c"@);
    lemma_ending(name, ".h"@);
    let low = text::ascii_lower_all(name);
    let c = name + ".c"@;
    let h = name + ".h"@;
    assert(c.last() == 'c');
    assert(h.last() == 'h');
    assert(!text::has_suffix(c, ".cpp"@)) by {
        if text::has_suffix(c, ".cpp"@) {
            assert(c.subrange(c.len() - 4, c.len() as int).last() == ".cpp"@.last());
            assert(".cpp"@.last() == 'p');
        }
    }
    assert(!text::has_suffix(c, ".cxx"@)) by {
        if text::has_suffix(c, ".cxx"@) {
            assert(c.subrange(c.len() - 4, c.len() as int).last() == ".cxx"@.last());
            assert(".cxx"@.last() == 'x');
        }
    }
    assert(!text::has_suffix(c, ".cc"@)) by {
        if text::has_suffix(c, ".cc"@) {
            let tail = c.subrange(c.len() - 3, c.len() as int);
            assert(tail[1] == ".cc"@[1]);
            assert(tail[1] == c[c.len() - 2]);
            assert(c[c.len() - 2] == '.');
        }
    }
    assert(text::ascii_lower_all(h) == low + ".h"@);
    lemma_other_end(h, 'h');
    lemma_other_end(low + ".h"@, 'h');
    assert((low + ".h"@).last() == 'h');
}

proof fn lemma_ending(name: Seq<char>, end: Seq<char>)
    requires
        end == ".cpp"@ || end == ".cc"@ || end == ".cxx"@ || end == ".c"@ || end == ".h"@,
    ensures
        text::ascii_lower_all(name + end) == text::ascii_lower_all(name) + end,
        text::has_suffix(name + end, end),
        text::has_suffix(text::ascii_lower_all(name) + end, end),
{
    reveal_strlit(".cpp");
    reveal_strlit(".cc");
    reveal_strlit(".cxx");
    reveal_strlit(".c");
    reveal_strlit(".h");
    let low = text::ascii_lower_all(name);
    let both = name + end;
    assert forall|i: int| 0 <= i < end.len() implies text::ascii_lower(#[trigger] end[i])
        == end[i] by {
        assert(end[i] == '.' || end[i] == 'c' || end[i] == 'p' || end[i] == 'x' || end[i] == 'h');
    }
    assert(text::ascii_lower_all(both) =~= low + end);
    assert(both.subrange(both.len() - end.len(), both.len() as int) =~= end);
    let lowered = low + end;
    assert(lowered.subrange(lowered.len() - end.len(), lowered.len() as int) =~= end);
}

proof fn lemma_other_end(s: Seq<char>, last: char)
    requires
        s.len() > 0,
        s.last() == last,
        last == 'h',
    ensures
        !text::has_suffix(s, ".cpp"@),
        !text::has_suffix(s, ".cc"@),
        !text::has_suffix(s, ".cxx"@),
        !text::has_suffix(s, ".c"@),
{
    reveal_strlit(".cpp");
    reveal_strlit(".cc");
    reveal_strlit(".cxx");
    reveal_strlit(".c");
    if text::has_suffix(s, ".cpp"@) {
        assert(s.subrange(s.len() - 4, s.len() as int).last() == ".cpp"@.last());
    }
    if text::has_suffix(s, ".cc"@) {
        assert(s.subrange(s.len() - 3, s.len() as int).last() == ".cc"@.last());
    }
    if text::has_suffix(s, ".cxx"@) {
        assert(s.subrange(s.len() - 4, s.len() as int).last() == ".cxx"@.last());
    }
    if text::has_suffix(s, ".c"@) {
        assert(s.subrange(s.len() - 2, s.len() as int).last() == ".c"@.last());
    }
}

/// A checker is compiled for the language of its first source, with the compiler
/// and the flags that are set for it, and from its sources alone.
pub proof fn a_checker_is_compiled_for_its_language<T>(
    req: ResolveLanguageInput,
    files: Seq<Seq<char>>,
    config: TestlibConfig<T>,
)
    requires
        testlib::is_checker_request(req, files, config),
    ensures
        text::views(req.submitted_files@) == testlib::part_of(files, true),
        testlib::language_of(testlib::part_of(files, true)[0]) == Some(req.language_id@),
        req.overrides is Some,
        req.overrides->0.compiler is Some && req.overrides->0.flags is Some,
        req.language_id@ == "c"@ ==> req.overrides->0.compiler->0@ == config.c.compiler@
            && text::views(req.overrides->0.flags->0@) == text::views(config.c.flags@),
        req.language_id@ != "c"@ ==> req.overrides->0.compiler->0@ == config.cpp.compiler@
            && text::views(req.overrides->0.flags->0@) == text::views(config.cpp.flags@),
{
}

/// What a compiled checker depends on is each named once more only where it was
/// not: nothing else is added.
pub proof fn only_missing_names_are_added(
    list: Seq<Seq<char>>,
    more: Seq<Seq<char>>,
    name: Seq<char>,
)
    ensures
        testlib::with_missing(list, more).contains(name) <==> list.contains(name)
            || more.contains(name),
        list.no_duplicates() ==> testlib::with_missing(list, more).no_duplicates(),
    decreases more.len(),
{
    let all = testlib::with_missing(list, more);
    if more.len() > 0 {
        let rest = more.drop_last();
        only_missing_names_are_added(list, rest, name);
        only_missing_names_are_added(list, rest, more.last());
        let prior = testlib::with_missing(list, rest);
        assert(more =~= rest.push(more.last()));
        assert(more.contains(name) <==> rest.contains(name) || name == more.last()) by {
            lemma_pushed(rest, more.last(), name);
        }
        if !prior.contains(more.last()) {
            lemma_pushed(prior, more.last(), name);
        }
    }
}

proof fn lemma_pushed(s: Seq<Seq<char>>, last: Seq<char>, x: Seq<char>)
    ensures
        s.push(last).contains(x) <==> s.contains(x) || x == last,
{
    let more = s.push(last);
    if s.contains(x) {
        let i = choose|i: int| 0 <= i < s.len() && s[i] == x;
        assert(more[i] == x);
    }
    if more.contains(x) && x != last {
        let i = choose|i: int| 0 <= i < more.len() && more[i] == x;
        assert(s[i] == x);
    }
    assert(more[s.len() as int] == last);
}

/// What differs is shown from both sides, each cut where it is too long.
pub proof fn differences_show_both_sides(expected: Seq<char>, actual: Seq<char>, max: nat)
    requires
        expected.len() <= max,
        actual.len() <= max,
    ensures
        util::diff_preview_text(expected, actual, max) == "Expected:\n"@ + expected + "\n\nGot:\n"@
            + actual,
{
}

/// What a line with a partial score says: the points are the word behind the one
/// for points, and what follows that word is the message. The first word of the
/// line can tell the score as well, with the rest as its message; and without
/// either the message is all that was written.
pub proof fn a_partial_score_is_read_from_its_line(
    c: PartialCandidates,
    stderr: Seq<char>,
    first: Seq<char>,
    gap: char,
    rest: Seq<char>,
)
    requires
        testlib::candidates_are(c, stderr),
        first.len() > 0,
        forall|i: int| 0 <= i < first.len() ==> !text::is_white(#[trigger] first[i]),
        text::is_white(gap),
    ensures
        testlib::partial_line(stderr) == "points "@ + first + seq![gap] + rest ==> {
            &&& c.points is Some && c.points->0@ == first
            &&& c.points_message is Some && c.points_message->0@ == util::truncated(
                text::trim_spec(rest),
                1024,
            )
        },
        testlib::partial_line(stderr) == "points "@ + first ==> c.points is Some && c.points->0@
            == first && c.points_message is None,
        testlib::partial_line(stderr) == first + seq![gap] + rest ==> {
            &&& c.token is Some && c.token->0@ == first
            &&& text::trim_spec(seq![gap] + rest).len() > 0 ==> c.token_message is Some
                && c.token_message->0@ == util::truncated(text::trim_spec(seq![gap] + rest), 1024)
            &&& text::trim_spec(seq![gap] + rest).len() == 0 ==> c.token_message is None
        },
        testlib::partial_line(stderr).len() == 0 ==> c.token is None && c.points is None,
        text::trim_spec(stderr).len() > 0 ==> c.fallback is Some && c.fallback->0@
            == util::truncated(text::trim_spec(stderr), 1024),
        text::trim_spec(stderr).len() == 0 ==> c.fallback is None,
{
    let line = testlib::partial_line(stderr);
    let tail = first + seq![gap] + rest;
    let n = first.len();
    assert forall|i: int| 0 <= i < n implies !text::is_white(#[trigger] tail[i]) by {
        assert(tail[i] == first[i]);
    }
    assert(tail[n as int] == gap);
    util::lemma_word_len_is(tail, n);
    util::lemma_word_len_is(first, n);
    assert(tail.take(n as int) =~= first);
    assert(first.take(n as int) =~= first);
    assert(tail.skip(n as int + 1) =~= rest);
    assert(tail.skip(n as int) =~= seq![gap] + rest);
    if line == "points "@ + first + seq![gap] + rest {
        assert(line =~= "points "@ + tail);
        points_stand_behind_their_word(line, tail);
    }
    if line == "points "@ + first {
        points_stand_behind_their_word(line, first);
    }
    if line.len() == 0 {
        points_stand_behind_their_word(line, first);
    }
}

/// What a testlib checker writes is kept and collected.
pub proof fn what_a_checker_writes_is_collected<T>(
    s: Step<T>,
    resolved: ResolveLanguageOutput,
    config: TestlibConfig<T>,
    output_file: Seq<char>,
)
    requires
        resolve::is_testlib_check(s, resolved, config, output_file),
    ensures
        s.io.stdin is Null,
        s.io.stdout is File && s.io.stdout->path@ == "checker_out.txt"@,
        s.io.stderr is File && s.io.stderr->path@ == "checker_err.txt"@,
        text::views(s.collect@).contains(s.io.stdout->path@),
        text::views(s.collect@).contains(s.io.stderr->path@),
{
    let all = text::views(s.collect@);
    assert(all[0] == "checker_out.txt"@);
    assert(all[1] == "checker_err.txt"@);
}

/// A checker is compiled within the limits that are set for it, and what comes of
/// it is kept for the next time its sources are the same.
pub proof fn a_compiled_checker_is_kept<T>(
    s: Step<T>,
    resolved: ResolveLanguageOutput,
    config: TestlibConfig<T>,
    env_id: Seq<char>,
)
    requires
        testlib::is_compile_step(s, resolved, config, env_id),
    ensures
        resolved.compile is Some,
        text::views(s.argv@) == text::views(resolved.compile->0.command@),
        s.env_ref@ == env_id,
        s.limits.time_limit == Some(config.compile_time_limit_s),
        s.limits.memory_limit == Some(config.compile_memory_limit_kb),
        s.cache is Some,
        text::views(s.cache->0.key_inputs@) == text::views(resolved.compile->0.cache_inputs@),
        text::views(s.cache->0.outputs@) == testlib::output_names(resolved.compile->0.outputs@),
        forall|i: int|
            0 <= i < resolved.compile->0.outputs@.len() ==> text::views(s.collect@).contains(
                (#[trigger] resolved.compile->0.outputs@[i]).name(),
            ),
{
    let names = testlib::output_names(resolved.compile->0.outputs@);
    let all = text::views(s.collect@);
    assert forall|i: int| 0 <= i < resolved.compile->0.outputs@.len() implies all.contains(
        (#[trigger] resolved.compile->0.outputs@[i]).name(),
    ) by {
        assert(all[i] == names[i]);
    }
}

/// A plan is made for the five built-in formats, and for a testlib checker of a
/// problem; every other format is refused, by its name.
pub proof fn plans_are_made_for_known_formats(
    format: &str,
    problem_id: Option<i32>,
    r: Result<ResolvePlan, String>,
)
    requires
        call_ensures(resolve::resolve_plan, (format, problem_id), r),
    ensures
        format@ == "exact"@ || format@ == "lines"@ || format@ == "tokens"@ || format@
            == "tokens-case-insensitive"@ || format@ == "tokens-float"@ ==> r is Ok
            && r->Ok_0 is Builtin,
        format@ == "testlib"@ && problem_id is Some ==> r is Ok && r->Ok_0 is Testlib
            && r->Ok_0->problem_id == problem_id->0,
        format@ == "testlib"@ && problem_id is None ==> r is Err && r->Err_0@
            == "Testlib checker requires a problem_id to load its source"@,
        format@ == "none"@ ==> r is Err && r->Err_0@
            == "checker format 'none' performs no comparison and must be interpreted inline, not resolved as a checker stage"@,
        format@ != "exact"@ && format@ != "lines"@ && format@ != "tokens"@ && format@
            != "tokens-case-insensitive"@ && format@ != "tokens-float"@ && format@ != "testlib"@
            && format@ != "none"@ ==> r is Err && r->Err_0@ == "No checker resolver for format '"@
            + format@ + "' in standard-checkers"@,
{
    lemma_formats_differ();
}

/// A checker's sources are taken as they are, where there are any of its own.
pub proof fn a_checker_has_sources_of_its_own(
    is_default: bool,
    files: Vec<SourceFile>,
    r: Result<Vec<SourceFile>, String>,
)
    requires
        call_ensures(resolve::accept_checker_source, (is_default, files), r),
    ensures
        r is Ok <==> !is_default && files@.len() > 0,
        r is Ok ==> r->Ok_0@ == files@,
        r is Err ==> r->Err_0@ == "Testlib checker requires checker_source"@,
{
}

/// A refusal names what was given in place of what is needed.
pub proof fn refusals_name_what_was_given(
    given: Seq<char>,
    format: Seq<char>,
    others: Seq<Seq<char>>,
)
    ensures
        resolve::needs_file_text(given)
            == "testlib checker requires a File output binding, got Stream '"@ + given + "'"@,
        resolve::needs_stream_text(format, given) == "built-in checker '"@ + format
            + "' requires a Stream output binding, got File '"@ + given + "'"@,
        resolve::not_builtin_text(format) == "'"@ + format
            + "' is not a built-in comparison format"@,
        testlib::no_source_text(others)
            == "checker_source has no compilable .c/.cpp file (got: "@ + testlib::joined(others)
            + "). Upload the checker's .cpp; bundle testlib.h alongside it as a header."@,
{
}

/// A comparison is set up where its format is built in and the output comes as a stream.
pub proof fn comparisons_need_a_stream<T>(
    format: &str,
    input: &ResolveCheckerInput,
    r: Result<CheckerStage<T>, String>,
)
    requires
        call_ensures(resolve::resolve_builtin::<T>, (format, input), r),
    ensures
        r is Ok <==> resolve::is_builtin(format@) && input.output_binding is Stream,
        r is Ok ==> resolve::is_builtin_stage(
            r->Ok_0,
            format@,
            *input,
            input.output_binding->channel@,
        ),
{
}

/// A testlib checker is set up where the output comes as a file, and reads that file.
pub proof fn testlib_checkers_need_a_file<T: Copy>(
    sources: &[SourceFile],
    test_input: &JudgeFile,
    answer: &JudgeFile,
    resolved: &ResolveLanguageOutput,
    config: &TestlibConfig<T>,
    output: &OutputMode,
    r: Result<CheckerStage<T>, String>,
)
    requires
        call_ensures(
            resolve::build_testlib_checker_stage::<T>,
            (sources, test_input, answer, resolved, config, output),
            r,
        ),
    ensures
        r is Ok <==> *output is File,
        r is Ok ==> resolve::is_testlib_stage(
            r->Ok_0,
            sources@,
            *test_input,
            *answer,
            *resolved,
            *config,
            (*output)->name@,
        ),
{
}

/// A checker is compiled in the language of its first source, with the compiler and the
/// flags that are set for that language; sources in none are refused.
pub proof fn a_checker_is_requested_in_its_language<T>(
    files: &Vec<SourceFile>,
    config: &TestlibConfig<T>,
    r: Result<ResolveLanguageInput, String>,
)
    requires
        call_ensures(testlib::checker_language_request::<T>, (files, config), r),
    ensures
        ({
            let names = files@.map_values(|f: SourceFile| f.filename@);
            let sources = testlib::part_of(names, true);
            &&& r is Ok <==> sources.len() > 0 && testlib::language_of(sources[0]) is Some
            &&& r is Ok ==> {
                &&& r->Ok_0.language_id@ == testlib::language_of(sources[0])->0
                &&& text::views(r->Ok_0.submitted_files@) == sources
            }
            &&& files@.len() == 0 ==> r is Err && r->Err_0@ == "checker_source is empty"@
        }),
{
    let names = files@.map_values(|f: SourceFile| f.filename@);
    assert(testlib::bundle_names(files@) =~= names);
}

/// What a checker wrote and how it ended is read by its format.
pub proof fn a_checker_is_read_by_its_format(
    format: &str,
    result: &CheckerSmallResult,
    points: PointsClass,
    token: PointsClass,
    r: CheckerVerdict,
)
    requires
        call_ensures(resolve::interpret_checker, (format, result, points, token), r),
    ensures
        resolve::small_result_verdict(r, format@, *result, points, token),
{
}

/// How a testlib checker ended is what its exit code means.
pub proof fn a_testlib_checker_is_read_by_its_code(
    code: i32,
    stderr: &str,
    points: PointsClass,
    token: PointsClass,
    v: CheckerVerdict,
)
    requires
        call_ensures(testlib::interpret_testlib_exit_code, (code, stderr, points, token), v),
    ensures
        code == 0 ==> v.verdict is Accepted,
        code == 1 || code == 2 || code == 4 || code == 8 ==> v.verdict is WrongAnswer,
        code == 3 ==> v.verdict is SystemError,
        code < 0 || code == 5 || code == 6 || code > 8 ==> v.verdict is SystemError,
{
    exit_codes_have_their_meaning(v, code, stderr@, points, token);
}

} // verus!
