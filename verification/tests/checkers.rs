//! The checkers.

use broccoli_plugins::checkers::resolve::{
    accept_checker_source, build_testlib_checker_stage, interpret_checker, resolve_builtin,
    resolve_plan, ResolvePlan, ANSWER_FILE, BROCCOLI_COMPARE_PATH, BROCCOLI_COMPARE_TOOL,
    CHECKER_ENV_ID, CHECK_STEP_ID, MESSAGE_FILE, PREVIEW_FILE, SOLUTION_EXEC_STEP_ID,
};
use broccoli_plugins::checkers::stage::{
    CheckerSmallResult, CheckerStage, IOTarget, MountSource, OutputMode, ResolveCheckerInput,
    SessionFile, StepKind,
};
use broccoli_plugins::checkers::streaming::{
    check_streaming, LineStream, MemoryByteSource, NumericPair, StreamingFormat, TokenStream,
};
use broccoli_plugins::checkers::testlib::{
    checker_language_id, checker_language_request, extend_cache_inputs_with_bundle,
    is_checker_source, partial_candidates, partition_checker_sources, PointsClass, TestlibConfig,
};
use broccoli_plugins::checkers::types::{
    CheckerParseInput, CheckerScore, CheckerVerdict, JudgeFile, SourceFile,
};
use broccoli_plugins::checkers::util::{
    diff_preview, first_line, split_lines, split_lines_trimmed, tokenize, truncate,
};
use broccoli_plugins::checkers::{
    exact, lines, none, testlib, tokens, tokens_case, tokens_float, unordered_lines,
    unordered_tokens,
};
use broccoli_plugins::languages::resolve::{
    CompileSpec, OutputSpec, ResolveLanguageOutput, RunSpec,
};
use broccoli_plugins::text::is_whitespace;
use broccoli_plugins::verdict::Verdict;

fn input(stdout: &str, expected: &str) -> CheckerParseInput {
    CheckerParseInput {
        stdout: JudgeFile::inline(stdout),
        stderr: String::new(),
        exit_code: 0,
        expected_output: JudgeFile::inline(expected),
        test_input: JudgeFile::Missing,
        checker_source: None,
    }
}

/// The points of a verdict as a number.
fn score(v: &CheckerVerdict) -> f64 {
    match &v.score {
        CheckerScore::Zero => 0.0,
        CheckerScore::Full => 1.0,
        CheckerScore::Written(text) => {
            let s: f64 = text.parse().unwrap();
            s.clamp(0.0, 1.0)
        }
    }
}

/// Compares two words as numbers.
fn numeric(abs_tol: f64, rel_tol: f64) -> impl Fn(&str, &str) -> NumericPair {
    move |expected: &str, actual: &str| match (expected.parse::<f64>(), actual.parse::<f64>()) {
        (Ok(e), Ok(a)) => {
            if !e.is_finite() || !a.is_finite() {
                if (e.is_nan() && a.is_nan()) || e == a {
                    return NumericPair::Agree;
                }
                return NumericPair::NonFinite;
            }
            let diff = (e - a).abs();
            let tolerance = abs_tol.max(rel_tol * e.abs().max(a.abs()));
            if diff > tolerance {
                NumericPair::Apart {
                    diff: diff.to_string(),
                    tolerance: tolerance.to_string(),
                }
            } else {
                NumericPair::Agree
            }
        }
        _ => NumericPair::NotNumbers,
    }
}

fn numeric_default() -> impl Fn(&str, &str) -> NumericPair {
    numeric(1e-9, 1e-6)
}

fn class(text: &Option<String>) -> PointsClass {
    match text.as_deref().map(|t| t.parse::<f64>()) {
        Some(Ok(v)) if v.is_finite() && v >= 1.0 => PointsClass::Full,
        Some(Ok(_)) => PointsClass::Below,
        _ => PointsClass::NotNumber,
    }
}

fn interpret_testlib_exit_code(code: i32, stderr: &str) -> CheckerVerdict {
    let c = partial_candidates(stderr);
    testlib::interpret_testlib_exit_code(code, stderr, class(&c.points), class(&c.token))
}

fn interpret(format: &str, result: &CheckerSmallResult) -> CheckerVerdict {
    let c = partial_candidates(&result.stderr);
    interpret_checker(format, result, class(&c.points), class(&c.token))
}

// --- util -----------------------------------------------------------------

#[test]
fn truncate_short_string() {
    assert_eq!(truncate("hello", 10), "hello");
}

#[test]
fn truncate_long_string() {
    let result = truncate("hello world", 5);
    assert!(result.starts_with("hello"));
    assert!(result.contains("truncated"));
}

#[test]
fn tokenize_whitespace() {
    assert_eq!(tokenize("  a  b\n\tc "), vec!["a", "b", "c"]);
}

#[test]
fn split_lines_trims_trailing() {
    let lines = split_lines_trimmed("a  \nb\n\n");
    assert_eq!(lines, vec!["a", "b"]);
}

#[test]
fn lines_end_as_in_std() {
    for text in ["", "a", "a\n", "a\r\nb", "a\rb\n\n", "\r", "\r\n", "a\r"] {
        let expected: Vec<&str> = text.lines().collect();
        assert_eq!(split_lines(text), expected);
        assert_eq!(first_line(text), text.lines().next().unwrap_or(""));
        let words: Vec<&str> = text.split_whitespace().collect();
        assert_eq!(tokenize(text), words);
    }
}

#[test]
fn white_characters_are_those_of_std() {
    for code in 0..=0x10ffffu32 {
        if let Some(c) = char::from_u32(code) {
            assert_eq!(is_whitespace(c), c.is_whitespace(), "{code:x}");
        }
    }
}

#[test]
fn previews_show_both_sides() {
    let text = diff_preview("expected text", "actual text", 200);
    assert!(text.contains("expected text"));
    assert!(text.contains("actual text"));
}

// --- exact ----------------------------------------------------------------

#[test]
fn identical_accepted() {
    let req = input("42\n", "42\n");
    let v = exact::check(&req).unwrap();
    assert_eq!(v.verdict, Verdict::Accepted);
    assert_eq!(score(&v), 1.0);
}

#[test]
fn trailing_newline_differs() {
    let req = input("42\n", "42");
    let v = exact::check(&req).unwrap();
    assert_eq!(v.verdict, Verdict::WrongAnswer);
}

#[test]
fn empty_both_accepted() {
    let req = input("", "");
    let v = exact::check(&req).unwrap();
    assert_eq!(v.verdict, Verdict::Accepted);
}

#[test]
fn exact_empty_vs_nonempty() {
    let req = input("", "hello");
    let v = exact::check(&req).unwrap();
    assert_eq!(v.verdict, Verdict::WrongAnswer);
}

// --- lines ----------------------------------------------------------------

#[test]
fn trailing_whitespace_per_line_ignored() {
    let req = input("hello  \nworld  \n", "hello\nworld\n");
    let v = lines::check(&req).unwrap();
    assert_eq!(v.verdict, Verdict::Accepted);
}

#[test]
fn trailing_empty_lines_ignored() {
    let req = input("hello\n\n\n", "hello\n");
    let v = lines::check(&req).unwrap();
    assert_eq!(v.verdict, Verdict::Accepted);
}

#[test]
fn internal_whitespace_preserved() {
    let req = input("hello  world\n", "hello world\n");
    let v = lines::check(&req).unwrap();
    assert_eq!(v.verdict, Verdict::WrongAnswer);
}

#[test]
fn different_line_count() {
    let req = input("a\nb\n", "a\nb\nc\n");
    let v = lines::check(&req).unwrap();
    assert_eq!(v.verdict, Verdict::WrongAnswer);
    assert!(v.message.unwrap().contains("Line count mismatch"));
}

#[test]
fn first_diff_line_reported() {
    let req = input("a\nX\nc\n", "a\nb\nc\n");
    let v = lines::check(&req).unwrap();
    assert_eq!(v.verdict, Verdict::WrongAnswer);
    assert!(v.message.unwrap().contains("Line 2"));
}

// --- none -----------------------------------------------------------------

#[test]
fn always_accepted() {
    let req = input("any output", "anything");
    let v = none::check(&req).unwrap();
    assert_eq!(v.verdict, Verdict::Accepted);
    assert_eq!(score(&v), 1.0);
}

#[test]
fn empty_output_accepted() {
    let req = input("", "");
    let v = none::check(&req).unwrap();
    assert_eq!(v.verdict, Verdict::Accepted);
}

// --- tokens ---------------------------------------------------------------

#[test]
fn different_whitespace_same_tokens() {
    let req = input("  1   2  3  \n", "1 2 3");
    let v = tokens::check(&req).unwrap();
    assert_eq!(v.verdict, Verdict::Accepted);
}

#[test]
fn tokens_on_different_lines() {
    let req = input("1\n2\n3\n", "1 2 3");
    let v = tokens::check(&req).unwrap();
    assert_eq!(v.verdict, Verdict::Accepted);
}

#[test]
fn token_count_mismatch() {
    let req = input("1 2", "1 2 3");
    let v = tokens::check(&req).unwrap();
    assert_eq!(v.verdict, Verdict::WrongAnswer);
    assert!(v.message.unwrap().contains("Token count mismatch"));
}

#[test]
fn token_value_mismatch() {
    let req = input("1 X 3", "1 2 3");
    let v = tokens::check(&req).unwrap();
    assert_eq!(v.verdict, Verdict::WrongAnswer);
    assert!(v.message.unwrap().contains("position 2"));
}

#[test]
fn tokens_empty_vs_nonempty() {
    let req = input("", "hello");
    let v = tokens::check(&req).unwrap();
    assert_eq!(v.verdict, Verdict::WrongAnswer);
}

// --- tokens, any case -----------------------------------------------------

#[test]
fn yes_vs_yes_case_insensitive() {
    let req = input("YES\n", "yes");
    let v = tokens_case::check(&req).unwrap();
    assert_eq!(v.verdict, Verdict::Accepted);
}

#[test]
fn hello_world_case_insensitive() {
    let req = input("Hello World\n", "hello world");
    let v = tokens_case::check(&req).unwrap();
    assert_eq!(v.verdict, Verdict::Accepted);
}

#[test]
fn different_tokens_regardless_of_case() {
    let req = input("abc\n", "xyz");
    let v = tokens_case::check(&req).unwrap();
    assert_eq!(v.verdict, Verdict::WrongAnswer);
}

#[test]
fn unicode_case_insensitive() {
    let req = input("Ü Ö Ä\n", "ü ö ä");
    let v = tokens_case::check(&req).unwrap();
    assert_eq!(v.verdict, Verdict::Accepted);
}

// --- tokens as numbers ----------------------------------------------------

#[test]
fn exact_match() {
    let req = input("3.14159", "3.14159");
    let v = tokens_float::check(&req, numeric_default()).unwrap();
    assert_eq!(v.verdict, Verdict::Accepted);
}

#[test]
fn within_abs_tolerance() {
    // Default abs_tol = 1e-9
    let req = input("1.0000000001", "1.0000000000");
    let v = tokens_float::check(&req, numeric_default()).unwrap();
    assert_eq!(v.verdict, Verdict::Accepted);
}

#[test]
fn within_rel_tolerance() {
    // Default rel_tol = 1e-6, value ~1000 → tolerance ~0.001
    let req = input("1000.0005", "1000.0000");
    let v = tokens_float::check(&req, numeric_default()).unwrap();
    assert_eq!(v.verdict, Verdict::Accepted);
}

#[test]
fn outside_both_tolerances() {
    let req = input("1.0", "2.0");
    let v = tokens_float::check(&req, numeric_default()).unwrap();
    assert_eq!(v.verdict, Verdict::WrongAnswer);
}

#[test]
fn nan_vs_nan() {
    let req = input("NaN", "NaN");
    let v = tokens_float::check(&req, numeric_default()).unwrap();
    assert_eq!(v.verdict, Verdict::Accepted);
}

#[test]
fn inf_vs_inf() {
    let req = input("inf", "inf");
    let v = tokens_float::check(&req, numeric_default()).unwrap();
    assert_eq!(v.verdict, Verdict::Accepted);
}

#[test]
fn mixed_float_string_tokens() {
    let req = input("YES 3.14", "YES 3.14");
    let v = tokens_float::check(&req, numeric_default()).unwrap();
    assert_eq!(v.verdict, Verdict::Accepted);
}

#[test]
fn custom_config_overrides_defaults() {
    // With abs_tol = 1.0, a diff of 0.5 should be accepted
    let req = input("1.5", "1.0");
    let v = tokens_float::check(&req, numeric(1.0, 1e-6)).unwrap();
    assert_eq!(v.verdict, Verdict::Accepted);
}

#[test]
fn numeric_complaints_name_the_token() {
    let v = tokens_float::check(&input("1 2.5", "1 2"), numeric(0.25, 0.0)).unwrap();
    assert_eq!(
        v.message.as_deref(),
        Some("Float mismatch at token 2: expected 2, got 2.5, diff 0.5 > tolerance 0.25")
    );
    let v = tokens_float::check(&input("inf", "1"), numeric_default()).unwrap();
    assert_eq!(
        v.message.as_deref(),
        Some("Non-finite mismatch at token 1: expected 1, got inf")
    );
    let v = tokens_float::check(&input("x", "1"), numeric_default()).unwrap();
    assert!(v.message.unwrap().contains("position 1"));
}

// --- any order ------------------------------------------------------------

#[test]
fn same_lines_different_order() {
    let req = input("b\na\nc\n", "a\nb\nc\n");
    let v = unordered_lines::check(&req).unwrap();
    assert_eq!(v.verdict, Verdict::Accepted);
}

#[test]
fn trailing_whitespace_ignored() {
    let req = input("a  \nb  \n", "b\na\n");
    let v = unordered_lines::check(&req).unwrap();
    assert_eq!(v.verdict, Verdict::Accepted);
}

#[test]
fn duplicate_lines_multiset() {
    let req = input("a\na\nb\n", "b\na\na\n");
    let v = unordered_lines::check(&req).unwrap();
    assert_eq!(v.verdict, Verdict::Accepted);
}

#[test]
fn different_lines() {
    let req = input("a\nb\n", "a\nc\n");
    let v = unordered_lines::check(&req).unwrap();
    assert_eq!(v.verdict, Verdict::WrongAnswer);
}

#[test]
fn same_tokens_different_order() {
    let req = input("3 1 2", "1 2 3");
    let v = unordered_tokens::check(&req).unwrap();
    assert_eq!(v.verdict, Verdict::Accepted);
}

#[test]
fn duplicate_multiset_match() {
    let req = input("a a b", "b a a");
    let v = unordered_tokens::check(&req).unwrap();
    assert_eq!(v.verdict, Verdict::Accepted);
}

#[test]
fn extra_token() {
    let req = input("a b c", "a b");
    let v = unordered_tokens::check(&req).unwrap();
    assert_eq!(v.verdict, Verdict::WrongAnswer);
}

#[test]
fn missing_token() {
    let req = input("a b", "a b c");
    let v = unordered_tokens::check(&req).unwrap();
    assert_eq!(v.verdict, Verdict::WrongAnswer);
}

// --- streams --------------------------------------------------------------

#[test]
fn token_checker_accepts_large_chunked_output() {
    let expected = format!("{} tail", "123 ".repeat(100_000));
    let actual = format!("{} tail", "123\n".repeat(100_000));

    let verdict = check_streaming(
        StreamingFormat::Tokens,
        MemoryByteSource::new(expected.into_bytes(), 4096),
        MemoryByteSource::new(actual.into_bytes(), 3072),
        numeric_default(),
    )
    .unwrap();

    assert_eq!(verdict.verdict, Verdict::Accepted);
}

#[test]
fn token_checker_reports_first_mismatch_position() {
    let verdict = check_streaming(
        StreamingFormat::Tokens,
        MemoryByteSource::new(b"a b c".to_vec(), 2),
        MemoryByteSource::new(b"a x c".to_vec(), 2),
        numeric_default(),
    )
    .unwrap();

    assert_eq!(verdict.verdict, Verdict::WrongAnswer);
    assert!(verdict.message.unwrap().contains("position 2"));
}

#[test]
fn exact_checker_compares_bytes_across_chunk_boundaries() {
    let verdict = check_streaming(
        StreamingFormat::Exact,
        MemoryByteSource::new(b"42\n".to_vec(), 1),
        MemoryByteSource::new(b"42".to_vec(), 2),
        numeric_default(),
    )
    .unwrap();

    assert_eq!(verdict.verdict, Verdict::WrongAnswer);
}

#[test]
fn lines_checker_preserves_internal_empty_lines_but_drops_trailing_empty_lines() {
    let verdict = check_streaming(
        StreamingFormat::Lines,
        MemoryByteSource::new(b"a\n\nb\n\n".to_vec(), 2),
        MemoryByteSource::new(b"a\n\nb\n".to_vec(), 3),
        numeric_default(),
    )
    .unwrap();

    assert_eq!(verdict.verdict, Verdict::Accepted);
}

#[test]
fn float_checker_uses_tolerance_config() {
    let verdict = check_streaming(
        StreamingFormat::TokensFloat,
        MemoryByteSource::new(b"1.0".to_vec(), 1),
        MemoryByteSource::new(b"1.5".to_vec(), 1),
        numeric(1.0, 1e-6),
    )
    .unwrap();

    assert_eq!(verdict.verdict, Verdict::Accepted);
}

#[test]
fn streams_decode_across_chunks() {
    let text = "Grüße 好 \u{1f600} ẞ\n";
    for chunk in 1..9 {
        let verdict = check_streaming(
            StreamingFormat::TokensCaseInsensitive,
            MemoryByteSource::new(text.as_bytes().to_vec(), chunk),
            MemoryByteSource::new(text.to_uppercase().into_bytes(), 10 - chunk),
            numeric_default(),
        )
        .unwrap();
        assert_eq!(
            verdict.verdict,
            if text.to_lowercase() == text.to_uppercase().to_lowercase() {
                Verdict::Accepted
            } else {
                Verdict::WrongAnswer
            }
        );
    }
}

#[test]
fn streams_refuse_what_is_no_text() {
    for bytes in [vec![0xffu8], vec![b'a', 0xc3], vec![0xed, 0xa0, 0x80]] {
        let r = check_streaming(
            StreamingFormat::Tokens,
            MemoryByteSource::new(b"a b".to_vec(), 1),
            MemoryByteSource::new(bytes, 1),
            numeric_default(),
        );
        assert!(r.is_err());
    }
}

// --- testlib --------------------------------------------------------------

#[test]
fn exit_0_accepted() {
    let v = interpret_testlib_exit_code(0, "ok answer is correct\n");
    assert_eq!(v.verdict, Verdict::Accepted);
    assert_eq!(score(&v), 1.0);
}

#[test]
fn exit_1_wrong_answer() {
    let v = interpret_testlib_exit_code(1, "wrong answer expected 42, got 43\n");
    assert_eq!(v.verdict, Verdict::WrongAnswer);
    assert_eq!(score(&v), 0.0);
    assert!(v.message.unwrap().contains("expected 42"));
}

#[test]
fn exit_2_presentation_error() {
    let v = interpret_testlib_exit_code(2, "");
    assert_eq!(v.verdict, Verdict::WrongAnswer);
    assert!(v.message.unwrap().contains("Presentation error"));
}

#[test]
fn exit_3_system_error() {
    let v = interpret_testlib_exit_code(3, "FAIL checker bug\n");
    assert_eq!(v.verdict, Verdict::SystemError);
    assert_eq!(score(&v), 0.0);
}

#[test]
fn exit_4_dirt_is_wrong_answer() {
    // testlib's DIRT_EXIT_CODE: checker accepted but the participant left
    // extra unread output. A rejection (WrongAnswer), NOT a SystemError.
    let v = interpret_testlib_exit_code(
        4,
        "wrong output format Extra information in the output file\n",
    );
    assert_eq!(v.verdict, Verdict::WrongAnswer);
    assert_eq!(score(&v), 0.0);
    assert!(v.message.unwrap().contains("Extra information"));
}

#[test]
fn exit_4_dirt_default_message() {
    let v = interpret_testlib_exit_code(4, "   ");
    assert_eq!(v.verdict, Verdict::WrongAnswer);
    assert_eq!(v.message.unwrap(), "Extra information in the output file");
}

#[test]
fn exit_8_unexpected_eof_is_wrong_answer() {
    // UNEXPECTED_EOF_EXIT_CODE (checker built with -DENABLE_UNEXPECTED_EOF):
    // participant output ended early. A rejection, NOT a SystemError.
    let v = interpret_testlib_exit_code(8, "");
    assert_eq!(v.verdict, Verdict::WrongAnswer);
    assert_eq!(score(&v), 0.0);
    assert!(v.message.unwrap().contains("Unexpected end"));
}

#[test]
fn unknown_code_stays_system_error() {
    // Codes with no confident testlib meaning (incl. the 16+ _partially band,
    // whose score encoding is not pinned) remain a self-healing SystemError
    // rather than a guessed verdict.
    for code in [5, 6, 16, 99] {
        let v = interpret_testlib_exit_code(code, "");
        assert_eq!(v.verdict, Verdict::SystemError, "code {code}");
        assert_eq!(score(&v), 0.0, "code {code}");
    }
}

#[test]
fn exit_7_partial() {
    let v = interpret_testlib_exit_code(7, "points 0.5 partially correct\n");
    assert_eq!(v.verdict, Verdict::WrongAnswer);
    assert_eq!(score(&v), 0.5);
    assert_eq!(v.message.unwrap(), "partially correct");
}

#[test]
fn exit_7_full_score() {
    let v = interpret_testlib_exit_code(7, "points 1.0 perfect\n");
    assert_eq!(v.verdict, Verdict::Accepted);
    assert_eq!(score(&v), 1.0);
}

#[test]
fn exit_7_without_points() {
    let v = interpret_testlib_exit_code(7, "points many\n");
    assert_eq!(v.verdict, Verdict::WrongAnswer);
    assert_eq!(score(&v), 0.0);
    let v = interpret_testlib_exit_code(7, "0.25 a quarter\n");
    assert_eq!(v.verdict, Verdict::WrongAnswer);
    assert_eq!(score(&v), 0.25);
}

#[test]
fn checker_language_id_cpp() {
    assert_eq!(checker_language_id("checker.cpp").unwrap(), "cpp");
    assert_eq!(checker_language_id("checker.cc").unwrap(), "cpp");
    assert_eq!(checker_language_id("checker.cxx").unwrap(), "cpp");
}

#[test]
fn checker_language_id_c() {
    assert_eq!(checker_language_id("checker.c").unwrap(), "c");
}

#[test]
fn checker_language_id_unsupported() {
    let err = checker_language_id("checker.py").unwrap_err();
    assert!(err.contains("Unsupported"));
}

#[test]
fn is_checker_source_detects_compile_units() {
    for s in ["checker.cpp", "checker.c", "checker.cc", "checker.CXX"] {
        assert!(is_checker_source(s), "{s} is a compile unit");
    }
    for x in ["testlib.h", "foo.hpp", "bar.HH", "data.txt", "gen.py"] {
        assert!(!is_checker_source(x), "{x} is not a compile unit");
    }
}

#[test]
fn partition_skips_header_first_bundle() {
    // A header bundled before the source must not be picked as the primary:
    // the primary must be the .cpp; the header stays mounted (not a compile
    // unit).
    let files = vec!["testlib.h".to_string(), "checker.cpp".to_string()];
    let (sources, others) = partition_checker_sources(&files).unwrap();
    assert_eq!(sources, vec!["checker.cpp".to_string()]);
    assert_eq!(others, vec!["testlib.h".to_string()]);
    assert_eq!(checker_language_id(&sources[0]).unwrap(), "cpp");
}

#[test]
fn partition_compiles_all_sources_mounts_the_rest() {
    // Multiple .cpp are all compiled+linked; headers AND auxiliary files
    // (e.g. a data table the checker reads) are mounted, never compiled.
    let files = vec![
        "a.cpp".to_string(),
        "testlib.h".to_string(),
        "b.cpp".to_string(),
        "table.txt".to_string(),
    ];
    let (sources, others) = partition_checker_sources(&files).unwrap();
    assert_eq!(sources, vec!["a.cpp".to_string(), "b.cpp".to_string()]);
    assert_eq!(
        others,
        vec!["testlib.h".to_string(), "table.txt".to_string()]
    );
}

#[test]
fn partition_errors_when_no_source() {
    let err = partition_checker_sources(&["testlib.h".to_string()]).unwrap_err();
    assert!(err.contains("no compilable"), "got: {err}");
}

fn resolved_compile_with_inputs(cache_inputs: Vec<String>) -> ResolveLanguageOutput {
    ResolveLanguageOutput {
        compile: Some(CompileSpec {
            command: vec![
                "/usr/bin/g++".to_string(),
                "checker.cpp".to_string(),
                "-o".to_string(),
                "checker".to_string(),
            ],
            cache_inputs,
            outputs: vec![OutputSpec::File("checker".to_string())],
            resource_limits: None,
        }),
        run: RunSpec {
            command: vec!["./checker".to_string()],
            extra_files: vec![],
            min_process_limit: None,
        },
    }
}

#[test]
fn cache_inputs_cover_headers_and_aux_files() {
    // A change in testlib.h or in a bundled data table must change the key of
    // the compile cache, though checker.cpp stays the same.
    let mut resolved = resolved_compile_with_inputs(vec!["checker.cpp".to_string()]);
    let bundle = vec![
        "checker.cpp".to_string(),
        "testlib.h".to_string(),
        "table.txt".to_string(),
    ];
    extend_cache_inputs_with_bundle(&mut resolved, &bundle);

    let inputs = &resolved.compile.as_ref().unwrap().cache_inputs;
    assert!(inputs.contains(&"checker.cpp".to_string()));
    assert!(inputs.contains(&"testlib.h".to_string()), "header in key");
    assert!(inputs.contains(&"table.txt".to_string()), "aux file in key");
}

#[test]
fn cache_inputs_extension_does_not_duplicate_sources() {
    let mut resolved =
        resolved_compile_with_inputs(vec!["a.cpp".to_string(), "b.cpp".to_string()]);
    let bundle = vec![
        "a.cpp".to_string(),
        "b.cpp".to_string(),
        "testlib.h".to_string(),
    ];
    extend_cache_inputs_with_bundle(&mut resolved, &bundle);

    assert_eq!(
        resolved.compile.as_ref().unwrap().cache_inputs,
        vec![
            "a.cpp".to_string(),
            "b.cpp".to_string(),
            "testlib.h".to_string()
        ]
    );
}

#[test]
fn cache_inputs_extension_noop_without_compile() {
    let mut resolved = ResolveLanguageOutput {
        compile: None,
        run: RunSpec {
            command: vec!["./checker".to_string()],
            extra_files: vec![],
            min_process_limit: None,
        },
    };
    extend_cache_inputs_with_bundle(&mut resolved, &["testlib.h".to_string()]);
    assert!(resolved.compile.is_none());
}

#[test]
fn checker_requests_need_a_source() {
    let config: TestlibConfig<f64> = TestlibConfig::default();
    assert_eq!(
        checker_language_request(&vec![], &config).unwrap_err(),
        "checker_source is empty"
    );
    let file = |name: &str| SourceFile {
        filename: name.to_string(),
        content: String::new(),
    };
    assert!(checker_language_request(&vec![file("testlib.h")], &config).is_err());
    assert!(checker_language_request(&vec![file("a.CPP")], &config)
        .unwrap_err()
        .contains("Unsupported"));
    assert!(checker_language_request(&vec![file("testlib.h"), file("c.cpp")], &config).is_ok());
}

// --- resolving ------------------------------------------------------------

fn tokens_resolve_input(channel: &str) -> ResolveCheckerInput {
    ResolveCheckerInput {
        format: "tokens".to_string(),
        answer: JudgeFile::inline("3 1 4\n"),
        test_input: JudgeFile::inline("3\n"),
        problem_id: None,
        abs_tol: None,
        rel_tol: None,
        output_binding: OutputMode::Stream {
            channel: channel.to_string(),
        },
    }
}

#[test]
fn resolve_builtin_tokens_builds_stream_stage() {
    let input = tokens_resolve_input("sol_out");
    let stage: CheckerStage<f64> = resolve_builtin("tokens", &input).expect("tokens should resolve");

    // Single check step, Stream output, result points at it.
    assert_eq!(stage.steps.len(), 1);
    assert_eq!(stage.result_step_id, CHECK_STEP_ID);
    match &stage.output_mode {
        OutputMode::Stream { channel } => assert_eq!(channel, "sol_out"),
        other => panic!("expected Stream output_mode, got {other:?}"),
    }

    let check = &stage.steps[0];
    assert_eq!(check.id, CHECK_STEP_ID);
    assert_eq!(check.kind, StepKind::Checker);
    assert_eq!(check.env_ref, CHECKER_ENV_ID);

    // argv: broccoli-compare --mode tokens --answer answer.txt
    assert_eq!(
        check.argv,
        vec![
            BROCCOLI_COMPARE_PATH.to_string(),
            "--mode".to_string(),
            "tokens".to_string(),
            "--answer".to_string(),
            ANSWER_FILE.to_string(),
        ]
    );

    // Solution output on stdin via the FIFO channel.
    match &check.io.stdin {
        IOTarget::Pipe { name } => assert_eq!(name, "sol_out"),
        other => panic!("expected stdin Pipe, got {other:?}"),
    }
    // stdout = preview, stderr = message (both returned inline).
    match &check.io.stdout {
        IOTarget::File { path } => assert_eq!(path, PREVIEW_FILE),
        other => panic!("expected stdout File, got {other:?}"),
    }
    match &check.io.stderr {
        IOTarget::File { path } => assert_eq!(path, MESSAGE_FILE),
        other => panic!("expected stderr File, got {other:?}"),
    }

    // Comparator provided by the worker as a platform tool.
    assert_eq!(check.mounts.len(), 1);
    assert_eq!(check.mounts[0].inside_path, BROCCOLI_COMPARE_PATH);
    match &check.mounts[0].source {
        MountSource::PlatformTool { name } => assert_eq!(name, BROCCOLI_COMPARE_TOOL),
        other => panic!("expected PlatformTool mount, got {other:?}"),
    }

    // Nothing collected - message + preview return inline in the result.
    assert!(check.collect.is_empty());

    // The answer is ONLY in the checker env (never the solution env, which
    // this stage does not even describe).
    assert_eq!(stage.checker_env.id, CHECKER_ENV_ID);
    let answer_entry = stage
        .checker_env
        .files_in
        .iter()
        .find(|(name, _)| name == ANSWER_FILE)
        .expect("answer.txt must be in the checker env");
    match &answer_entry.1 {
        SessionFile::Content { content } => assert_eq!(content, "3 1 4\n"),
        other => panic!("expected inline answer content, got {other:?}"),
    }
}

#[test]
fn resolve_builtin_tokens_float_maps_both_tolerances() {
    let mut input = tokens_resolve_input("sol_out");
    input.format = "tokens-float".to_string();
    input.abs_tol = Some(1e-4f64.to_string());
    input.rel_tol = Some(1e-3f64.to_string());

    let stage: CheckerStage<f64> =
        resolve_builtin("tokens-float", &input).expect("tokens-float resolves");
    let argv = &stage.steps[0].argv;

    // --epsilon <abs_tol> and --rel-epsilon <rel_tol> must BOTH be present.
    let eps = argv
        .iter()
        .position(|a| a == "--epsilon")
        .expect("--epsilon");
    assert_eq!(argv[eps + 1], "0.0001");
    let rel = argv
        .iter()
        .position(|a| a == "--rel-epsilon")
        .expect("--rel-epsilon");
    assert_eq!(argv[rel + 1], "0.001");
}

#[test]
fn resolve_builtin_tokens_float_defaults_when_no_config() {
    let mut input = tokens_resolve_input("sol_out");
    input.format = "tokens-float".to_string();

    let stage: CheckerStage<f64> = resolve_builtin("tokens-float", &input).unwrap();
    let argv = &stage.steps[0].argv;
    let eps = argv.iter().position(|a| a == "--epsilon").unwrap();
    assert_eq!(argv[eps + 1], "0.000000001"); // 1e-9, no exponent notation
    let rel = argv.iter().position(|a| a == "--rel-epsilon").unwrap();
    assert_eq!(argv[rel + 1], "0.000001"); // 1e-6
}

#[test]
fn resolve_builtin_rejects_non_builtin_format() {
    let input = tokens_resolve_input("sol_out");
    let r: Result<CheckerStage<f64>, String> = resolve_builtin("testlib", &input);
    assert!(r.is_err());
}

#[test]
fn resolve_builtin_rejects_file_binding() {
    let mut input = tokens_resolve_input("sol_out");
    input.output_binding = OutputMode::File {
        name: "output.txt".to_string(),
    };
    let r: Result<CheckerStage<f64>, String> = resolve_builtin("tokens", &input);
    assert!(r.is_err());
}

#[test]
fn formats_are_resolved_by_plan() {
    assert_eq!(resolve_plan("exact", None), Ok(ResolvePlan::Builtin));
    assert_eq!(
        resolve_plan("testlib", Some(3)),
        Ok(ResolvePlan::Testlib { problem_id: 3 })
    );
    assert!(resolve_plan("testlib", None).unwrap_err().contains("problem_id"));
    assert!(resolve_plan("none", None).unwrap_err().contains("inline"));
    assert!(resolve_plan("bogus", None).is_err());
    assert!(accept_checker_source(true, vec![]).is_err());
    assert!(accept_checker_source(false, vec![]).is_err());
}

fn small(exit_code: Option<i32>, stderr: &str, status: Option<&str>) -> CheckerSmallResult {
    CheckerSmallResult {
        exit_code,
        stderr: stderr.to_string(),
        sandbox_status: status.map(|s| s.to_string()),
    }
}

#[test]
fn interpret_builtin_exit_0_accepted() {
    let v = interpret("tokens", &small(Some(0), "", Some("OK")));
    assert_eq!(v.verdict, Verdict::Accepted);
    assert_eq!(score(&v), 1.0);
}

#[test]
fn interpret_builtin_exit_1_wrong_answer_keeps_message() {
    let v = interpret(
        "tokens",
        &small(Some(1), "token 3: expected 4, got 5", Some("OK")),
    );
    assert_eq!(v.verdict, Verdict::WrongAnswer);
    assert_eq!(score(&v), 0.0);
    assert_eq!(v.message.as_deref(), Some("token 3: expected 4, got 5"));
}

#[test]
fn interpret_builtin_exit_2_presentation_error() {
    let v = interpret("exact", &small(Some(2), "", Some("OK")));
    assert_eq!(v.verdict, Verdict::WrongAnswer);
    assert!(v.message.unwrap().contains("Presentation error"));
}

#[test]
fn interpret_builtin_unexpected_exit_is_system_error() {
    // broccoli-compare emits 64 on usage/IO error.
    let v = interpret("tokens", &small(Some(64), "bad args", Some("OK")));
    assert_eq!(v.verdict, Verdict::SystemError);
}

#[test]
fn interpret_builtin_sandbox_timeout_is_system_error() {
    let v = interpret("tokens", &small(None, "", Some("TO")));
    assert_eq!(v.verdict, Verdict::SystemError);
    assert_eq!(score(&v), 0.0);
    assert!(v.message.unwrap().to_lowercase().contains("timed out"));
}

#[test]
fn interpret_testlib_routes_to_testlib_mapping() {
    // 3 -> judge failure (SystemError), 7 -> partial - testlib-specific codes
    // a built-in comparator never emits.
    let se = interpret("testlib", &small(Some(3), "FAIL bug", None));
    assert_eq!(se.verdict, Verdict::SystemError);

    let partial = interpret("testlib", &small(Some(7), "points 0.5 half", None));
    assert_eq!(partial.verdict, Verdict::WrongAnswer);
    assert_eq!(score(&partial), 0.5);
}

#[test]
fn interpret_unknown_format_is_system_error() {
    let v = interpret("bogus", &small(Some(0), "", None));
    assert_eq!(v.verdict, Verdict::SystemError);
}

#[test]
fn interpret_none_is_accepted() {
    // `none` performs no comparison; the evaluator interprets it inline and
    // normally never calls this, but a direct caller must get a coherent
    // Accepted (never SystemError) regardless of the unused check result.
    let v = interpret("none", &small(Some(0), "", Some("OK")));
    assert_eq!(v.verdict, Verdict::Accepted);
    assert_eq!(score(&v), 1.0);
    assert!(v.message.is_none());
}

fn testlib_stage() -> CheckerStage<f64> {
    let checker_source = vec![SourceFile {
        filename: "checker.cpp".to_string(),
        content: "int main(){}".to_string(),
    }];
    build_testlib_checker_stage(
        &checker_source,
        &JudgeFile::inline("3\n"),
        &JudgeFile::inline("3 1 4\n"),
        &resolved_compile_with_inputs(vec!["checker.cpp".to_string()]),
        &TestlibConfig::default(),
        &OutputMode::File {
            name: "output.txt".to_string(),
        },
    )
    .expect("testlib resolves")
}

#[test]
fn testlib_stage_has_compile_then_check() {
    let stage = testlib_stage();
    assert_eq!(stage.steps.len(), 2);
    assert_eq!(stage.steps[0].id, "compile_checker");
    assert_eq!(stage.steps[0].kind, StepKind::CheckerCompile);
    assert!(
        stage.steps[0].cache.is_some(),
        "compile step must be cached"
    );
    assert_eq!(stage.steps[1].id, CHECK_STEP_ID);
    assert_eq!(stage.steps[1].kind, StepKind::Checker);
    assert_eq!(stage.result_step_id, CHECK_STEP_ID);
}

#[test]
fn testlib_stage_is_file_mode() {
    match testlib_stage().output_mode {
        OutputMode::File { name } => assert_eq!(name, "output.txt"),
        other => panic!("expected File output_mode, got {other:?}"),
    }
}

#[test]
fn testlib_check_argv_is_checker_input_output_answer() {
    let stage = testlib_stage();
    assert_eq!(
        stage.steps[1].argv,
        vec![
            "./checker".to_string(),
            "input.txt".to_string(),
            "output.txt".to_string(),
            "answer.txt".to_string(),
        ]
    );
}

#[test]
fn testlib_check_mounts_solution_output() {
    let stage = testlib_stage();
    let check = &stage.steps[1];
    assert_eq!(check.mounts.len(), 1);
    assert_eq!(check.mounts[0].inside_path, "output.txt");
    match &check.mounts[0].source {
        MountSource::StepOutput { from_step, file } => {
            assert_eq!(from_step, SOLUTION_EXEC_STEP_ID);
            assert_eq!(file, "output.txt");
        }
        other => panic!("expected StepOutput mount, got {other:?}"),
    }
    // The resolver wires the intra-stage dep on the compile step; the
    // evaluator adds the dep on the solution's exec step when splicing.
    assert!(check.depends_on.contains(&"compile_checker".to_string()));
}

#[test]
fn testlib_answer_and_input_only_in_checker_env_not_output() {
    let stage = testlib_stage();
    let names: Vec<&str> = stage
        .checker_env
        .files_in
        .iter()
        .map(|(n, _)| n.as_str())
        .collect();
    assert!(names.contains(&"answer.txt"), "answer in checker env");
    assert!(names.contains(&"input.txt"), "input in checker env");
    assert!(
        names.contains(&"checker.cpp"),
        "checker source in checker env"
    );
    // The solution output is mounted, NOT a static env file.
    assert!(
        !names.contains(&"output.txt"),
        "output.txt must be mounted from the run step, not a static env file"
    );
}

#[test]
fn testlib_rejects_stream_binding() {
    let checker_source = vec![SourceFile {
        filename: "checker.cpp".to_string(),
        content: "int main(){}".to_string(),
    }];
    let r: Result<CheckerStage<f64>, String> = build_testlib_checker_stage(
        &checker_source,
        &JudgeFile::inline("3\n"),
        &JudgeFile::inline("3 1 4\n"),
        &resolved_compile_with_inputs(vec!["checker.cpp".to_string()]),
        &TestlibConfig::default(),
        &OutputMode::Stream {
            channel: "sol_out".to_string(),
        },
    );
    assert!(r.is_err());
}

// --- laws of lines and streams --------------------------------------------

#[test]
fn trimming_a_second_time_changes_nothing() {
    for text in [
        "",
        "\n\n",
        "a  \r\nb\t\n\n c \n\n\n",
        "one\n\n\ntwo\u{2003}",
        "\r\r\nx\r",
    ] {
        let once = split_lines_trimmed(text);
        assert_eq!(split_lines_trimmed(&once.join("\n")), once);
    }
    assert_eq!(split_lines_trimmed("a  \r\nb\t\n\n c \n\n"), ["a", "b", "", " c"]);
}

#[test]
fn streamed_lines_come_in_order_and_then_nothing() {
    let text = "a \n\n\nb\u{e9}\r\nc\n \n\n";
    for chunk in 1..8 {
        let source = MemoryByteSource::new(text.as_bytes().to_vec(), chunk);
        let mut stream = LineStream::new(source);
        for line in split_lines_trimmed(text) {
            assert_eq!(stream.next_line().unwrap(), Some(line));
        }
        for _ in 0..3 {
            assert_eq!(stream.next_line().unwrap(), None);
        }
    }
}

#[test]
fn the_size_of_chunks_changes_no_verdict() {
    let pairs = [
        ("1 2\n3\n", "1 2 \n3\n\n"),
        ("1 2\n3\n", "1 2\n4\n"),
        ("\u{e9}\n1.0", "\u{e9} 1.5"),
        ("a b", "a B c"),
        ("x", "x"),
    ];
    let all = |expected: &str, actual: &str, sizes: (usize, usize)| {
        let run = |format| {
            let v = check_streaming(
                format,
                MemoryByteSource::new(expected.as_bytes().to_vec(), sizes.0),
                MemoryByteSource::new(actual.as_bytes().to_vec(), sizes.1),
                numeric_default(),
            )
            .unwrap();
            (v.verdict, v.message)
        };
        vec![
            run(StreamingFormat::Exact),
            run(StreamingFormat::Lines),
            run(StreamingFormat::Tokens),
            run(StreamingFormat::TokensCaseInsensitive),
            run(StreamingFormat::TokensFloat),
        ]
    };
    for (expected, actual) in pairs {
        let whole = all(expected, actual, (100, 100));
        for sizes in [(1, 1), (1, 3), (2, 1), (3, 5)] {
            assert_eq!(all(expected, actual, sizes), whole);
        }
        assert_eq!(whole[0].0 == Verdict::Accepted, expected == actual);
        assert_eq!(
            whole[1].0 == Verdict::Accepted,
            split_lines_trimmed(expected) == split_lines_trimmed(actual)
        );
        assert_eq!(
            whole[2].0 == Verdict::Accepted,
            tokenize(expected) == tokenize(actual)
        );
    }
}

#[test]
fn streamed_tokens_come_in_order_and_then_nothing() {
    let text = " a\u{2003}b\u{e9}\n\nc \t";
    for chunk in 1..8 {
        let source = MemoryByteSource::new(text.as_bytes().to_vec(), chunk);
        let mut stream = TokenStream::new(source);
        for token in tokenize(text) {
            assert_eq!(stream.next_token().unwrap(), Some(token));
        }
        for _ in 0..3 {
            assert_eq!(stream.next_token().unwrap(), None);
        }
    }
}

#[test]
fn tokens_make_up_the_text() {
    for text in ["", " \n", "one two", "\ta\u{a0}bc  d\r\n"] {
        let dark: String = text.chars().filter(|c| !c.is_whitespace()).collect();
        assert_eq!(tokenize(text).concat(), dark);
    }
}

#[test]
fn the_same_bytes_that_are_no_text_are_refused() {
    let all = [
        StreamingFormat::Lines,
        StreamingFormat::Tokens,
        StreamingFormat::TokensCaseInsensitive,
        StreamingFormat::TokensFloat,
    ];
    for bytes in [&b"1 2\n3\n\xff"[..], &b"a b \xc3"[..], &b"\xed\xa0\x80 x"[..]] {
        for (left, right) in [(1, 1), (1, 50), (50, 1), (3, 2)] {
            let source = |size| MemoryByteSource::new(bytes.to_vec(), size);
            for format in all {
                let r = check_streaming(format, source(left), source(right), numeric_default());
                assert!(r.is_err());
            }
            // Bytes are compared as they are.
            let exact = StreamingFormat::Exact;
            let r = check_streaming(exact, source(left), source(right), numeric_default());
            assert_eq!(r.unwrap().verdict, Verdict::Accepted);
        }
    }
}

#[test]
fn a_difference_before_the_bad_bytes_may_be_found_first() {
    let run = |size| {
        check_streaming(
            StreamingFormat::Tokens,
            MemoryByteSource::new(b"1 2 3 \xff".to_vec(), size),
            MemoryByteSource::new(b"1 5 3 \xff".to_vec(), size),
            numeric_default(),
        )
    };
    let found = run(1).unwrap();
    assert_eq!(found.verdict, Verdict::WrongAnswer);
    assert!(found.message.unwrap().contains("position 2"));
    assert!(run(50).is_err());
}
