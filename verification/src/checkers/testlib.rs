//! Checkers written against testlib.

use vstd::prelude::*;

use crate::checkers::stage::{
    IOConfig, IOTarget, ResourceLimits, Seconds, Step, StepCacheConfig, StepKind,
};
use crate::checkers::types::{zero, CheckerScore, CheckerVerdict, SourceFile};
use crate::checkers::util::{split_first_word, truncate, first_line};
use crate::languages::resolve::{
    CompilerOverrides, OutputSpec, ResolveLanguageInput, ResolveLanguageOutput,
};
use crate::text::{
    chars_of, concat, copy_list, decimal_i64, ends_with, list_contains, push_text,
    starts_with, str_eq, string_of_range, to_ascii_lower, trim,
};
use crate::verdict::Verdict;
use crate::checkers::stage;
use crate::checkers::types;
use crate::checkers::util;
use crate::text;

verus! {

// ---------------------------------------------------------------------------
// Configuration
// ---------------------------------------------------------------------------

/// A compiler and its flags.
#[derive(Debug, Clone, PartialEq, Eq)]
pub struct CheckerCompilerConfig {
    pub compiler: String,
    pub flags: Vec<String>,
}

/// The compilers of testlib checkers, and what their steps may use.
#[derive(Debug, Clone, PartialEq, Eq)]
pub struct TestlibConfig<T> {
    pub cpp: CheckerCompilerConfig,
    pub c: CheckerCompilerConfig,
    pub compile_time_limit_s: Seconds<T>,
    pub compile_memory_limit_kb: u32,
    pub run_time_limit_s: Seconds<T>,
    pub run_memory_limit_kb: u32,
}

fn compiler_config(compiler: &str, standard: &str) -> (r: CheckerCompilerConfig)
    ensures
        r.compiler@ == compiler@,
        text::views(r.flags@) == seq!["-O2"@, standard@],
{
    let mut flags: Vec<String> = Vec::new();
    push_text(&mut flags, "-O2");
    push_text(&mut flags, standard);
    assert(text::views(flags@) =~= seq!["-O2"@, standard@]);
    CheckerCompilerConfig { compiler: compiler.to_owned(), flags }
}

impl Default for CheckerCompilerConfig {
    fn default() -> (r: Self)
        ensures
            r.compiler@ == "/usr/bin/g++"@,
            text::views(r.flags@) == seq!["-O2"@, "-std=c++17"@],
    {
        compiler_config("/usr/bin/g++", "-std=c++17")
    }
}

impl<T> Default for TestlibConfig<T> {
    fn default() -> (r: Self)
        ensures
            r.cpp.compiler@ == "/usr/bin/g++"@,
            text::views(r.cpp.flags@) == seq!["-O2"@, "-std=c++17"@],
            r.c.compiler@ == "/usr/bin/gcc"@,
            text::views(r.c.flags@) == seq!["-O2"@, "-std=c11"@],
            r.compile_time_limit_s == Seconds::<T>::Whole(10),
            r.compile_memory_limit_kb == 512 * 1024,
            r.run_time_limit_s == Seconds::<T>::Whole(20),
            r.run_memory_limit_kb == 1024 * 1024,
    {
        TestlibConfig {
            cpp: compiler_config("/usr/bin/g++", "-std=c++17"),
            c: compiler_config("/usr/bin/gcc", "-std=c11"),
            compile_time_limit_s: Seconds::Whole(10),
            compile_memory_limit_kb: 512 * 1024,
            run_time_limit_s: Seconds::Whole(20),
            run_memory_limit_kb: 1024 * 1024,
        }
    }
}

// ---------------------------------------------------------------------------
// Sources
// ---------------------------------------------------------------------------

/// The names of C and C++ compile units, in any case.
pub open spec fn names_source(filename: Seq<char>) -> bool {
    let f = text::ascii_lower_all(filename);
    text::has_suffix(f, ".cpp"@) || text::has_suffix(f, ".cc"@) || text::has_suffix(f, ".cxx"@) || text::has_suffix(f, ".c"@)
}

/// Whether a file of a checker bundle is compiled.
pub fn is_checker_source(filename: &str) -> (r: bool)
    ensures
        r == names_source(filename@),
{
    let f = to_ascii_lower(filename);
    ends_with(f.as_str(), ".cpp") || ends_with(f.as_str(), ".cc") || ends_with(f.as_str(), ".cxx")
        || ends_with(f.as_str(), ".c")
}

/// The compile units of a bundle (`sources`), or the rest of it, in order.
pub open spec fn part_of(files: Seq<Seq<char>>, sources: bool) -> Seq<Seq<char>>
    decreases files.len(),
{
    if files.len() == 0 {
        seq![]
    } else if names_source(files.last()) == sources {
        part_of(files.drop_last(), sources).push(files.last())
    } else {
        part_of(files.drop_last(), sources)
    }
}

/// The texts, separated by commas.
pub open spec fn joined(v: Seq<Seq<char>>) -> Seq<char>
    decreases v.len(),
{
    if v.len() == 0 {
        seq![]
    } else if v.len() == 1 {
        v[0]
    } else {
        joined(v.drop_last()) + ", "@ + v.last()
    }
}

fn join(v: &Vec<String>) -> (r: String)
    ensures
        r@ == joined(text::views(v@)),
{
    let ghost all = text::views(v@);
    let mut out = String::new();
    let mut i: usize = 0;
    assert(all.take(0) =~= Seq::<Seq<char>>::empty());
    assert(out@ =~= joined(all.take(0)));
    while i < v.len()
        invariant
            i <= v@.len(),
            all == text::views(v@),
            out@ == joined(all.take(i as int)),
        decreases v@.len() - i,
    {
        assert(all.take(i as int + 1).drop_last() =~= all.take(i as int));
        assert(all.take(i as int + 1).last() == v@[i as int]@);
        if i > 0 {
            out.append(", ");
        }
        out.append(v[i].as_str());
        proof {
            if i == 0 {
                assert(out@ =~= v@[0]@);
                assert(all.take(1)[0] == v@[0]@);
            }
        }
        i += 1;
    }
    assert(all.take(i as int) =~= all);
    out
}

pub open spec fn no_source_text(others: Seq<Seq<char>>) -> Seq<char> {
    "checker_source has no compilable .c/.cpp file (got: "@ + joined(others)
        + "). Upload the checker's .cpp; bundle testlib.h alongside it as a header."@
}

/// Splits a bundle into compile units and the rest, both in order. A bundle
/// without a compile unit is an error.
pub fn partition_checker_sources(filenames: &[String]) -> (r: Result<
    (Vec<String>, Vec<String>),
    String,
>)
    ensures
        ({
            let sources = part_of(text::views(filenames@), true);
            let others = part_of(text::views(filenames@), false);
            if sources.len() > 0 {
                r matches Ok((s, o)) && text::views(s@) == sources && text::views(o@) == others
            } else {
                r matches Err(e) && e@ == no_source_text(others)
            }
        }),
{
    let ghost all = text::views(filenames@);
    let mut sources: Vec<String> = Vec::new();
    let mut others: Vec<String> = Vec::new();
    let mut i: usize = 0;
    assert(all.take(0) =~= Seq::<Seq<char>>::empty());
    assert(text::views(sources@) =~= part_of(all.take(0), true));
    assert(text::views(others@) =~= part_of(all.take(0), false));
    while i < filenames.len()
        invariant
            i <= filenames@.len(),
            all == text::views(filenames@),
            text::views(sources@) == part_of(all.take(i as int), true),
            text::views(others@) == part_of(all.take(i as int), false),
        decreases filenames@.len() - i,
    {
        assert(all.take(i as int + 1).drop_last() =~= all.take(i as int));
        assert(all.take(i as int + 1).last() == filenames@[i as int]@);
        if is_checker_source(filenames[i].as_str()) {
            push_text(&mut sources, filenames[i].as_str());
        } else {
            push_text(&mut others, filenames[i].as_str());
        }
        i += 1;
    }
    assert(all.take(i as int) =~= all);
    assert(text::views(sources@).len() == sources@.len());
    if sources.len() == 0 {
        let mut out = "checker_source has no compilable .c/.cpp file (got: ".to_owned();
        out.append(join(&others).as_str());
        out.append("). Upload the checker's .cpp; bundle testlib.h alongside it as a header.");
        return Err(out);
    }
    Ok((sources, others))
}

/// Every file of a bundle is either a compile unit or mounted beside them.
pub proof fn partition_keeps_every_file(files: Seq<Seq<char>>)
    ensures
        part_of(files, true).len() + part_of(files, false).len() == files.len(),
        forall|i: int| 0 <= i < part_of(files, true).len() ==> names_source(
            #[trigger] part_of(files, true)[i],
        ),
        forall|i: int| 0 <= i < part_of(files, false).len() ==> !names_source(
            #[trigger] part_of(files, false)[i],
        ),
    decreases files.len(),
{
    if files.len() > 0 {
        partition_keeps_every_file(files.drop_last());
    }
}

/// The language that the primary file's extension stands for.
pub open spec fn language_of(filename: Seq<char>) -> Option<Seq<char>> {
    if text::has_suffix(filename, ".cpp"@) || text::has_suffix(filename, ".cc"@) || text::has_suffix(
        filename,
        ".cxx"@,
    ) {
        Some("cpp"@)
    } else if text::has_suffix(filename, ".c"@) {
        Some("c"@)
    } else {
        None
    }
}

pub open spec fn unsupported_text(filename: Seq<char>) -> Seq<char> {
    "Unsupported checker source language for '"@ + filename
        + "'. Only C (.c) and C++ (.cpp/.cc/.cxx) are supported."@
}

pub fn checker_language_id(primary_filename: &str) -> (r: Result<&'static str, String>)
    ensures
        match language_of(primary_filename@) {
            Some(id) => r matches Ok(s) && s@ == id,
            None => r matches Err(e) && e@ == unsupported_text(primary_filename@),
        },
{
    if ends_with(primary_filename, ".cpp") || ends_with(primary_filename, ".cc") || ends_with(
        primary_filename,
        ".cxx",
    ) {
        Ok("cpp")
    } else if ends_with(primary_filename, ".c") {
        Ok("c")
    } else {
        let mut out = "Unsupported checker source language for '".to_owned();
        out.append(primary_filename);
        out.append("'. Only C (.c) and C++ (.cpp/.cc/.cxx) are supported.");
        Err(out)
    }
}

/// The list with those of `more` added that it does not hold yet, in order.
pub open spec fn with_missing(list: Seq<Seq<char>>, more: Seq<Seq<char>>) -> Seq<Seq<char>>
    decreases more.len(),
{
    if more.len() == 0 {
        list
    } else {
        let prior = with_missing(list, more.drop_last());
        if prior.contains(more.last()) {
            prior
        } else {
            prior.push(more.last())
        }
    }
}

/// Makes every file of the bundle part of the compile cache key, so that a
/// change of a header is never answered with an old binary.
pub fn extend_cache_inputs_with_bundle(
    resolved: &mut ResolveLanguageOutput,
    bundle_filenames: &[String],
)
    ensures
        final(resolved).run == old(resolved).run,
        match old(resolved).compile {
            None => final(resolved).compile is None,
            Some(before) => final(resolved).compile matches Some(after) && {
                &&& after.command == before.command
                &&& after.outputs == before.outputs
                &&& after.resource_limits == before.resource_limits
                &&& text::views(after.cache_inputs@) == with_missing(
                    text::views(before.cache_inputs@),
                    text::views(bundle_filenames@),
                )
            },
        },
{
    match &mut resolved.compile {
        None => {},
        Some(compile) => {
            extend_list(&mut compile.cache_inputs, bundle_filenames);
        },
    }
}

fn extend_list(list: &mut Vec<String>, more: &[String])
    ensures
        text::views(final(list)@) == with_missing(text::views(old(list)@), text::views(more@)),
{
    let ghost start = text::views(list@);
    let ghost all = text::views(more@);
    let mut i: usize = 0;
    assert(all.take(0) =~= Seq::<Seq<char>>::empty());
    while i < more.len()
        invariant
            i <= more@.len(),
            all == text::views(more@),
            text::views(list@) == with_missing(start, all.take(i as int)),
        decreases more@.len() - i,
    {
        assert(all.take(i as int + 1).drop_last() =~= all.take(i as int));
        assert(all.take(i as int + 1).last() == more@[i as int]@);
        if !list_contains(list, more[i].as_str()) {
            push_text(list, more[i].as_str());
        }
        i += 1;
    }
    assert(all.take(i as int) =~= all);
}

/// After the extension the key holds every file of the bundle, and what it
/// held before.
pub proof fn cache_inputs_cover_the_bundle(list: Seq<Seq<char>>, more: Seq<Seq<char>>)
    ensures
        forall|i: int|
            0 <= i < more.len() ==> with_missing(list, more).contains(#[trigger] more[i]),
        with_missing(list, more).len() >= list.len(),
        with_missing(list, more).take(list.len() as int) == list,
    decreases more.len(),
{
    if more.len() == 0 {
        assert(list.take(list.len() as int) =~= list);
    } else {
        cache_inputs_cover_the_bundle(list, more.drop_last());
        let prior = with_missing(list, more.drop_last());
        let whole = with_missing(list, more);
        assert(whole.take(list.len() as int) =~= prior.take(list.len() as int));
        assert forall|i: int| 0 <= i < more.len() implies whole.contains(#[trigger] more[i]) by {
            if i < more.len() - 1 {
                assert(more.drop_last()[i] == more[i]);
                let j = choose|j: int| 0 <= j < prior.len() && prior[j] == more[i];
                assert(whole[j] == more[i]);
            } else if !prior.contains(more.last()) {
                assert(whole[prior.len() as int] == more[i]);
            }
        }
    }
}

// ---------------------------------------------------------------------------
// Exit codes
// ---------------------------------------------------------------------------

/// A checker's message: trimmed and cut; `None` where nothing is left.
pub open spec fn message_of(stderr: Seq<char>) -> Option<Seq<char>> {
    let m = text::trim_spec(stderr);
    if m.len() == 0 {
        None
    } else {
        Some(util::truncated(m, 1024))
    }
}

pub open spec fn message_or(stderr: Seq<char>, default: Seq<char>) -> Option<Seq<char>> {
    match message_of(stderr) {
        Some(m) => Some(m),
        None => Some(default),
    }
}

/// Trims and cuts a checker's message.
pub fn message_from(stderr: &str) -> (r: Option<String>)
    ensures
        types::message_is(r, message_of(stderr@)),
{
    let m = trim(stderr);
    if m.as_str().is_empty() {
        None
    } else {
        Some(truncate(m.as_str(), 1024))
    }
}

fn message_or_else(stderr: &str, default: &str) -> (r: Option<String>)
    ensures
        types::message_is(r, message_or(stderr@, default@)),
{
    match message_from(stderr) {
        Some(m) => Some(m),
        None => Some(default.to_owned()),
    }
}

/// What a text is as a number of points.
#[derive(Debug, Clone, Copy, PartialEq, Eq, Structural)]
pub enum PointsClass {
    NotNumber,
    /// A number below one, or one that is not finite.
    Below,
    /// A finite number of one or more.
    Full,
}

/// The texts of a partial result that may hold its points, with the message
/// that goes with each.
#[derive(Debug, Clone, PartialEq, Eq)]
pub struct PartialCandidates {
    /// What stands after the word `points`.
    pub points: Option<String>,
    pub points_message: Option<String>,
    /// The first word.
    pub token: Option<String>,
    pub token_message: Option<String>,
    /// The whole output, for where neither is a number.
    pub fallback: Option<String>,
}

/// The first line of a partial result, trimmed.
pub open spec fn partial_line(stderr: Seq<char>) -> Seq<char> {
    text::trim_spec(util::first_line_of(stderr))
}

/// What follows the word `points` and a space or tab.
pub open spec fn after_points(line: Seq<char>) -> Option<Seq<char>> {
    if text::has_prefix(line, "points "@) || text::has_prefix(line, "points\t"@) {
        Some(line.skip(7))
    } else {
        None
    }
}

/// What follows the first white character, trimmed and cut, where there is one.
pub open spec fn after_word(s: Seq<char>) -> Option<Seq<char>> {
    if util::word_len(s) < s.len() {
        Some(util::truncated(text::trim_spec(s.skip(util::word_len(s) as int + 1)), 1024))
    } else {
        None
    }
}

/// What follows the first word of a trimmed line, `None` where it is nothing.
pub open spec fn rest_of_line(line: Seq<char>) -> Option<Seq<char>> {
    let rest = text::trim_spec(line.skip(util::word_len(line) as int));
    if rest.len() == 0 {
        None
    } else {
        Some(util::truncated(rest, 1024))
    }
}

pub open spec fn candidates_are(c: PartialCandidates, stderr: Seq<char>) -> bool {
    let line = partial_line(stderr);
    &&& match after_points(line) {
        Some(rest) => {
            &&& types::message_is(c.points, Some(rest.take(util::word_len(rest) as int)))
            &&& types::message_is(c.points_message, after_word(rest))
        },
        None => c.points is None && c.points_message is None,
    }
    &&& if line.len() > 0 {
        &&& types::message_is(c.token, Some(line.take(util::word_len(line) as int)))
        &&& types::message_is(c.token_message, rest_of_line(line))
    } else {
        c.token is None && c.token_message is None
    }
    &&& types::message_is(c.fallback, message_of(stderr))
}

/// Finds the texts of a partial result that may hold its points.
pub fn partial_candidates(stderr: &str) -> (r: PartialCandidates)
    ensures
        candidates_are(r, stderr@),
{
    let line = trim(first_line(stderr).as_str());
    let chars = chars_of(line.as_str());
    let (points, points_message) = if starts_with(line.as_str(), "points ") || starts_with(
        line.as_str(),
        "points\t",
    ) {
        proof {
            reveal_strlit("points ");
            reveal_strlit("points\t");
        }
        let rest = string_of_range(&chars, 7, chars.len());
        assert(rest@ =~= line@.skip(7));
        let rest_chars = chars_of(rest.as_str());
        let n: usize = split_first_word(&rest_chars);
        let word = string_of_range(&rest_chars, 0, n);
        assert(word@ =~= rest@.take(n as int));
        let message = if n < rest_chars.len() {
            let tail = string_of_range(&rest_chars, n + 1, rest_chars.len());
            assert(tail@ =~= rest@.skip(n as int + 1));
            Some(truncate(trim(tail.as_str()).as_str(), 1024))
        } else {
            None
        };
        (Some(word), message)
    } else {
        (None, None)
    };
    let (token, token_message) = if chars.len() > 0 {
        let n: usize = split_first_word(&chars);
        let word = string_of_range(&chars, 0, n);
        assert(word@ =~= line@.take(n as int));
        let tail = string_of_range(&chars, n, chars.len());
        assert(tail@ =~= line@.skip(n as int));
        let rest = trim(tail.as_str());
        let message = if rest.as_str().is_empty() {
            None
        } else {
            Some(truncate(rest.as_str(), 1024))
        };
        (Some(word), message)
    } else {
        (None, None)
    };
    PartialCandidates {
        points,
        points_message,
        token,
        token_message,
        fallback: message_from(stderr),
    }
}

pub open spec fn graded(
    v: CheckerVerdict,
    class: PointsClass,
    written: Option<String>,
    message: Option<String>,
) -> bool {
    &&& class is Full ==> v.verdict is Accepted && v.score is Full
    &&& class is Below ==> v.verdict is WrongAnswer && (v.score matches CheckerScore::Written(t)
        && written matches Some(w) && t@ == w@)
    &&& v.message == message
}

/// The verdict on a partial result, given what its candidates are as numbers:
/// the points after the word, else the first word, else none.
pub open spec fn partial_verdict(
    v: CheckerVerdict,
    c: PartialCandidates,
    points: PointsClass,
    token: PointsClass,
) -> bool {
    if c.points is Some && !(points is NotNumber) {
        graded(v, points, c.points, c.points_message)
    } else if c.token is Some && !(token is NotNumber) {
        graded(v, token, c.token, c.token_message)
    } else {
        v.verdict is WrongAnswer && v.score is Zero && v.message == c.fallback
    }
}

fn grade(class: PointsClass, written: String, message: Option<String>) -> (r: CheckerVerdict)
    requires
        !(class is NotNumber),
    ensures
        graded(r, class, Some(written), message),
{
    if class == PointsClass::Full {
        CheckerVerdict { verdict: Verdict::Accepted, score: CheckerScore::Full, message }
    } else {
        CheckerVerdict {
            verdict: Verdict::WrongAnswer,
            score: CheckerScore::Written(written),
            message,
        }
    }
}

/// The verdict on a partial result whose candidates have been read as numbers.
pub fn interpret_partial(candidates: PartialCandidates, points: PointsClass, token: PointsClass) -> (r:
    CheckerVerdict)
    ensures
        partial_verdict(r, candidates, points, token),
{
    match candidates.points {
        Some(text) => if points != PointsClass::NotNumber {
            return grade(points, text, candidates.points_message);
        },
        None => {},
    }
    match candidates.token {
        Some(text) => if token != PointsClass::NotNumber {
            return grade(token, text, candidates.token_message);
        },
        None => {},
    }
    zero(Verdict::WrongAnswer, candidates.fallback)
}

pub open spec fn unexpected_code_text(code: int) -> Seq<char> {
    "Checker exited with unexpected code "@ + text::decimal_int(code)
}

/// The verdict for each exit code of a testlib checker. `points` and `token`
/// are what the candidates of a partial result are as numbers.
pub open spec fn testlib_verdict(
    v: CheckerVerdict,
    exit_code: i32,
    stderr: Seq<char>,
    points: PointsClass,
    token: PointsClass,
) -> bool {
    if exit_code == 0 {
        v.verdict is Accepted && v.score is Full && types::message_is(v.message, message_of(stderr))
    } else if exit_code == 1 {
        types::says_zero(v, Verdict::WrongAnswer, message_of(stderr))
    } else if exit_code == 2 {
        types::says_zero(v, Verdict::WrongAnswer, message_or(stderr, "Presentation error"@))
    } else if exit_code == 3 {
        types::says_zero(
            v,
            Verdict::SystemError,
            message_or(stderr, "Checker reported judge failure (exit code 3)"@),
        )
    } else if exit_code == 4 {
        types::says_zero(
            v,
            Verdict::WrongAnswer,
            message_or(stderr, "Extra information in the output file"@),
        )
    } else if exit_code == 7 {
        exists|c: PartialCandidates| #[trigger]
            candidates_are(c, stderr) && partial_verdict(v, c, points, token)
    } else if exit_code == 8 {
        types::says_zero(
            v,
            Verdict::WrongAnswer,
            message_or(stderr, "Unexpected end of the participant output"@),
        )
    } else {
        types::says_zero(v, Verdict::SystemError, Some(unexpected_code_text(exit_code as int)))
    }
}

/// The verdict that an exit code of a testlib checker stands for.
pub fn interpret_testlib_exit_code(
    exit_code: i32,
    stderr: &str,
    points: PointsClass,
    token: PointsClass,
) -> (r: CheckerVerdict)
    ensures
        testlib_verdict(r, exit_code, stderr@, points, token),
{
    if exit_code == 0 {
        CheckerVerdict {
            verdict: Verdict::Accepted,
            score: CheckerScore::Full,
            message: message_from(stderr),
        }
    } else if exit_code == 1 {
        zero(Verdict::WrongAnswer, message_from(stderr))
    } else if exit_code == 2 {
        zero(Verdict::WrongAnswer, message_or_else(stderr, "Presentation error"))
    } else if exit_code == 3 {
        zero(
            Verdict::SystemError,
            message_or_else(stderr, "Checker reported judge failure (exit code 3)"),
        )
    } else if exit_code == 4 {
        zero(
            Verdict::WrongAnswer,
            message_or_else(stderr, "Extra information in the output file"),
        )
    } else if exit_code == 7 {
        let c = partial_candidates(stderr);
        let ghost g = c;
        let v = interpret_partial(c, points, token);
        assert(candidates_are(g, stderr@) && partial_verdict(v, g, points, token));
        v
    } else if exit_code == 8 {
        zero(
            Verdict::WrongAnswer,
            message_or_else(stderr, "Unexpected end of the participant output"),
        )
    } else {
        let text = concat(
            "Checker exited with unexpected code ",
            decimal_i64(exit_code as i64).as_str(),
        );
        zero(Verdict::SystemError, Some(text))
    }
}

/// Only a checker that says so makes an output accepted: its exit code is
/// zero, or it gives full points.
pub proof fn accepted_needs_success(
    v: CheckerVerdict,
    exit_code: i32,
    stderr: Seq<char>,
    points: PointsClass,
    token: PointsClass,
)
    requires
        testlib_verdict(v, exit_code, stderr, points, token),
        v.verdict is Accepted,
    ensures
        v.score is Full,
        exit_code == 0 || (exit_code == 7 && (points is Full || token is Full)),
{
}

// ---------------------------------------------------------------------------
// Steps
// ---------------------------------------------------------------------------

/// The names of what a compilation leaves.
pub open spec fn output_names(outputs: Seq<OutputSpec>) -> Seq<Seq<char>> {
    outputs.map_values(|o: OutputSpec| o.name())
}

fn names_of_outputs(outputs: &Vec<OutputSpec>) -> (r: Vec<String>)
    ensures
        text::views(r@) == output_names(outputs@),
{
    let ghost all = output_names(outputs@);
    let mut out: Vec<String> = Vec::new();
    let mut i: usize = 0;
    assert(text::views(out@) =~= all.take(0));
    while i < outputs.len()
        invariant
            i <= outputs@.len(),
            all == output_names(outputs@),
            text::views(out@) == all.take(i as int),
        decreases outputs@.len() - i,
    {
        match &outputs[i] {
            OutputSpec::File(f) => push_text(&mut out, f.as_str()),
            OutputSpec::Glob(g) => push_text(&mut out, g.as_str()),
        }
        assert(all.take(i as int + 1) =~= all.take(i as int).push(outputs@[i as int].name()));
        i += 1;
    }
    assert(all.take(i as int) =~= all);
    out
}

/// The step that compiles a checker: cached by all its inputs, with nothing of
/// the worker's environment.
pub open spec fn is_compile_step<T>(
    s: Step<T>,
    resolved: ResolveLanguageOutput,
    config: TestlibConfig<T>,
    env_id: Seq<char>,
) -> bool {
    resolved.compile matches Some(c) && {
        &&& s.id@ == "compile_checker"@
        &&& s.kind is CheckerCompile
        &&& s.env_ref@ == env_id
        &&& text::views(s.argv@) == text::views(c.command@)
        &&& s.limits == (ResourceLimits {
            time_limit: Some(config.compile_time_limit_s),
            wall_time_limit: None,
            memory_limit: Some(config.compile_memory_limit_kb),
            process_limit: Some(64),
        })
        &&& s.io.stdin is Null
        &&& stage::writes_to(s.io.stdout, "checker_compile.log"@)
        &&& stage::writes_to(s.io.stderr, "checker_compile_err.log"@)
        &&& text::views(s.collect@) == output_names(c.outputs@) + seq![
            "checker_compile.log"@,
            "checker_compile_err.log"@,
        ]
        &&& s.depends_on@.len() == 0
        &&& s.mounts@.len() == 0
        &&& s.cache matches Some(cache) && {
            &&& text::views(cache.key_inputs@) == text::views(c.cache_inputs@)
            &&& text::views(cache.outputs@) == output_names(c.outputs@)
        }
    }
}

pub fn build_compile_checker_step<T: Copy>(
    resolved: &ResolveLanguageOutput,
    config: &TestlibConfig<T>,
    env_id: &str,
) -> (r: Option<Step<T>>)
    ensures
        r is Some <==> resolved.compile is Some,
        r matches Some(s) ==> is_compile_step(s, *resolved, *config, env_id@),
{
    match &resolved.compile {
        None => None,
        Some(compile) => {
            let outputs = names_of_outputs(&compile.outputs);
            let mut collect = copy_list(&outputs);
            let ghost names = text::views(collect@);
            push_text(&mut collect, "checker_compile.log");
            push_text(&mut collect, "checker_compile_err.log");
            assert(text::views(collect@) =~= names + seq![
                "checker_compile.log"@,
                "checker_compile_err.log"@,
            ]);
            Some(
                Step {
                    id: "compile_checker".to_owned(),
                    kind: StepKind::CheckerCompile,
                    env_ref: env_id.to_owned(),
                    argv: copy_list(&compile.command),
                    limits: ResourceLimits {
                        time_limit: Some(config.compile_time_limit_s),
                        wall_time_limit: None,
                        memory_limit: Some(config.compile_memory_limit_kb),
                        process_limit: Some(64),
                    },
                    io: IOConfig {
                        stdin: IOTarget::Null,
                        stdout: IOTarget::File { path: "checker_compile.log".to_owned() },
                        stderr: IOTarget::File { path: "checker_compile_err.log".to_owned() },
                    },
                    collect,
                    depends_on: Vec::new(),
                    cache: Some(
                        StepCacheConfig {
                            key_inputs: copy_list(&compile.cache_inputs),
                            outputs,
                        },
                    ),
                    mounts: Vec::new(),
                },
            )
        },
    }
}

/// How the compiled checker is invoked.
pub open spec fn checker_binary(resolved: ResolveLanguageOutput) -> Seq<char> {
    match resolved.compile {
        Some(c) => if c.outputs@.len() > 0 && c.outputs@[0] is File {
            "./"@ + c.outputs@[0].name()
        } else {
            "./checker"@
        },
        None => "./checker"@,
    }
}

pub fn testlib_checker_binary(resolved: &ResolveLanguageOutput) -> (r: String)
    ensures
        r@ == checker_binary(*resolved),
{
    match &resolved.compile {
        Some(c) => {
            if c.outputs.len() == 0 {
                return "./checker".to_owned();
            }
            match &c.outputs[0] {
                OutputSpec::File(f) => concat("./", f.as_str()),
                OutputSpec::Glob(_) => "./checker".to_owned(),
            }
        },
        None => "./checker".to_owned(),
    }
}

// ---------------------------------------------------------------------------
// The request to the language resolver
// ---------------------------------------------------------------------------

/// The names of the files of a bundle.
pub open spec fn bundle_names(files: Seq<SourceFile>) -> Seq<Seq<char>> {
    files.map_values(|f: SourceFile| f.filename@)
}

pub fn bundle_filenames(files: &Vec<SourceFile>) -> (r: Vec<String>)
    ensures
        text::views(r@) == bundle_names(files@),
{
    let ghost all = bundle_names(files@);
    let mut out: Vec<String> = Vec::new();
    let mut i: usize = 0;
    assert(text::views(out@) =~= all.take(0));
    while i < files.len()
        invariant
            i <= files@.len(),
            all == bundle_names(files@),
            text::views(out@) == all.take(i as int),
        decreases files@.len() - i,
    {
        push_text(&mut out, files[i].filename.as_str());
        assert(all.take(i as int + 1) =~= all.take(i as int).push(files@[i as int].filename@));
        i += 1;
    }
    assert(all.take(i as int) =~= all);
    out
}

/// What the language resolver is asked for: the compile units alone, in the
/// language of the first, with the checker's compiler and flags.
pub open spec fn is_checker_request<T>(
    req: ResolveLanguageInput,
    files: Seq<Seq<char>>,
    config: TestlibConfig<T>,
) -> bool {
    let sources = part_of(files, true);
    &&& language_of(sources[0]) == Some(req.language_id@)
    &&& text::views(req.submitted_files@) == sources
    &&& req.additional_files@.len() == 0
    &&& req.problem_id is None
    &&& req.contest_id is None
    &&& req.overrides matches Some(o) && {
        let chosen = if language_of(sources[0]) == Some("c"@) {
            config.c
        } else {
            config.cpp
        };
        &&& o.compiler matches Some(c) && c@ == chosen.compiler@
        &&& o.flags matches Some(f) && text::views(f@) == text::views(chosen.flags@)
    }
}

/// The request to resolve a checker bundle, or why there can be none.
pub fn checker_language_request<T>(files: &Vec<SourceFile>, config: &TestlibConfig<T>) -> (r: Result<
    ResolveLanguageInput,
    String,
>)
    ensures
        ({
            let names = bundle_names(files@);
            let sources = part_of(names, true);
            if names.len() == 0 {
                r matches Err(e) && e@ == "checker_source is empty"@
            } else if sources.len() == 0 {
                r matches Err(e) && e@ == no_source_text(part_of(names, false))
            } else {
                match language_of(sources[0]) {
                    Some(_) => r matches Ok(req) && is_checker_request(req, names, *config),
                    None => r matches Err(e) && e@ == unsupported_text(sources[0]),
                }
            }
        }),
{
    if files.len() == 0 {
        return Err("checker_source is empty".to_owned());
    }
    let names = bundle_filenames(files);
    let (sources, _others) = match partition_checker_sources(names.as_slice()) {
        Ok(parts) => parts,
        Err(e) => {
            return Err(e);
        },
    };
    assert(text::views(sources@)[0] == sources@[0]@);
    let lang = match checker_language_id(sources[0].as_str()) {
        Ok(id) => id,
        Err(e) => {
            return Err(e);
        },
    };
    proof {
        reveal_strlit("c");
        reveal_strlit("cpp");
        assert("c"@.len() == 1 && "cpp"@.len() == 3);
    }
    let chosen = if str_eq(lang, "c") {
        &config.c
    } else {
        &config.cpp
    };
    let overrides = CompilerOverrides {
        compiler: Some(chosen.compiler.clone()),
        flags: Some(copy_list(&chosen.flags)),
    };
    Ok(
        ResolveLanguageInput {
            language_id: lang.to_owned(),
            submitted_files: sources,
            additional_files: Vec::new(),
            problem_id: None,
            contest_id: None,
            overrides: Some(overrides),
        },
    )
}

} // verus!
