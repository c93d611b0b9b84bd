//! The print station.

use std::collections::HashSet;

use broccoli_plugins::client::api::{
    read_claim, read_done, status_error, trim_slashes, ClaimOutcome, Job, Reply, Report,
    ServerClient, BASE_PATH,
};
use broccoli_plugins::client::config::{default_config, PrinterCfg, ServerCfg};
use broccoli_plugins::client::doctor::{
    choose_printer, describe_printer, infer_language, test_meta, TEST_SOURCE,
};
use broccoli_plugins::client::highlight::{
    choose_syntax, expand_tabs, highlight, language_extension, pick_theme, resolve_syntax,
    spans_of, split_source, ThemeEntry,
};
use broccoli_plugins::client::layout::{paginate, wrap, Span, VisualLine};
use broccoli_plugins::client::pdf::{
    footer_center, footer_right, gutter, header_center, layout_document, leaves_marks, paper,
    title, DocMeta, Paper,
};
use broccoli_plugins::client::print::{
    lp_args, print_pdf, printers_of_listing, printers_of_lpstat, run_template,
    silent_helper_status, sink_dir, sumatra_args, PrintAction,
};
use broccoli_plugins::client::run::{
    after_print, after_render, check_config, claim_event, fetch_limit, format_when, job_meta,
    moment_text, next_nap, pause_ms, printer_matches, starting_report, temp_pdf_name, unwritten_report,
    ClaimEvent, ClaimRound,
};
use broccoli_plugins::client::setup::{
    custom_printer, default_station, location_of, printer_options, queue_printer, read_choice,
    server_of, PrinterChoice,
};
use broccoli_plugins::client::width::{char_cols, display_cols};
use broccoli_plugins::print::models::estimate_pages_with;
use broccoli_plugins::print::status::is_settable;

fn plain(text: &str) -> Vec<Span> {
    vec![Span {
        text: text.to_string(),
        color: (0, 0, 0),
    }]
}

fn row_text(row: &VisualLine) -> String {
    row.spans.iter().map(|s| s.text.as_str()).collect()
}

fn printer(command: Option<&str>, os_id: Option<&str>) -> PrinterCfg {
    PrinterCfg {
        name: "p".into(),
        os_id: os_id.map(String::from),
        command: command.map(String::from),
    }
}

fn named(name: &str, os_id: Option<&str>) -> PrinterCfg {
    PrinterCfg {
        name: name.into(),
        os_id: os_id.map(String::from),
        command: None,
    }
}

fn job(target: Option<&str>) -> Job {
    Job {
        id: 1,
        contest_id: None,
        username: "u".into(),
        display_name: None,
        problem_label: None,
        language: "text".into(),
        filename: "a.txt".into(),
        source: "x".into(),
        location: None,
        target_printer: target.map(String::from),
        created_at: None,
    }
}

fn meta() -> DocMeta {
    DocMeta {
        banner: "Regionals 2026".into(),
        problem_label: Some("A".into()),
        who: "team-alpha".into(),
        filename: "main.cpp".into(),
        when: "12:34".into(),
        job_id: 7,
    }
}

// --- layout ---------------------------------------------------------------

#[test]
fn short_lines_keep_their_numbers() {
    let lines = vec![plain("alpha"), plain("beta")];
    let rows = wrap(&lines, 80);
    assert_eq!(rows.len(), 2);
    assert_eq!(rows[0].number, Some(1));
    assert_eq!(rows[1].number, Some(2));
}

#[test]
fn long_line_wraps_with_continuation_rows() {
    let lines = vec![plain(&"x".repeat(200))];
    let rows = wrap(&lines, 90);
    assert_eq!(rows.len(), 3);
    assert_eq!(rows[0].number, Some(1));
    assert_eq!(rows[1].number, None);
    assert_eq!(rows[2].number, None);
}

#[test]
fn cjk_wraps_by_display_width() {
    // 50 full-width chars span 100 cols, so 90 cols holds 45 of them.
    let lines = vec![plain(&"好".repeat(50))];
    let rows = wrap(&lines, 90);
    assert_eq!(rows.len(), 2);
    assert_eq!(rows[0].number, Some(1));
    assert_eq!(rows[1].number, None);
    let row0_chars: usize = rows[0].spans.iter().map(|s| s.text.chars().count()).sum();
    assert_eq!(row0_chars, 45);
}

#[test]
fn blank_line_is_preserved() {
    let lines = vec![plain("a"), vec![], plain("c")];
    let rows = wrap(&lines, 80);
    assert_eq!(rows.len(), 3);
    assert_eq!(rows[1].number, Some(2));
    assert!(rows[1].spans.is_empty());
}

#[test]
fn empty_input_yields_one_row() {
    let rows = wrap(&vec![], 80);
    assert_eq!(rows.len(), 1);
}

#[test]
fn mixed_cjk_and_ascii_counts_display_width() {
    let lines = vec![plain("a好b")];
    let rows = wrap(&lines, 80);
    assert_eq!(rows.len(), 1);
    let total_chars: usize = rows[0].spans.iter().map(|s| s.text.chars().count()).sum();
    assert_eq!(total_chars, 3);
}

#[test]
fn cjk_never_splits_across_wrap() {
    // At 3 cols, "a好" fills the row and the second 好 wraps.
    let lines = vec![plain("a好好")];
    let rows = wrap(&lines, 3);
    assert_eq!(rows.len(), 2);
    let row0: String = rows[0].spans.iter().map(|s| s.text.as_str()).collect();
    assert_eq!(row0.chars().count(), 2, "first row should have 2 chars");
    let row1: String = rows[1].spans.iter().map(|s| s.text.as_str()).collect();
    assert_eq!(row1, "好");
}

#[test]
fn very_long_token_wraps_correctly() {
    let token = "x".repeat(200);
    let lines = vec![plain(&token)];
    let rows = wrap(&lines, 90);
    assert_eq!(rows.len(), 3);
    assert_eq!(rows[0].number, Some(1));
    assert_eq!(rows[1].number, None);
    assert_eq!(rows[2].number, None);
}

#[test]
fn combining_marks_are_zero_width() {
    // Combining acute over e counts as one display column.
    let text = "e\u{0301}";
    let lines = vec![plain(text)];
    let rows = wrap(&lines, 80);
    let row_chars: String = rows[0].spans.iter().map(|s| s.text.as_str()).collect();
    assert_eq!(row_chars.chars().count(), 2);
}

#[test]
fn empty_line_between_code_lines() {
    let lines = vec![plain("a"), vec![], plain("c")];
    let rows = wrap(&lines, 80);
    assert_eq!(rows.len(), 3);
    assert_eq!(rows[1].number, Some(2));
    assert!(rows[1].spans.is_empty());
}

#[test]
fn pagination_chunks_rows() {
    let rows: Vec<VisualLine> = (0..130)
        .map(|i| VisualLine {
            number: Some(i + 1),
            spans: Vec::new(),
        })
        .collect();
    let pages = paginate(rows, 54);
    assert_eq!(pages.len(), 3);
    assert_eq!(pages[0].len(), 54);
    assert_eq!(pages[2].len(), 130 - 108);
}

#[test]
fn color_runs_coalesce() {
    let line = vec![
        Span {
            text: "ab".into(),
            color: (1, 2, 3),
        },
        Span {
            text: "cd".into(),
            color: (1, 2, 3),
        },
        Span {
            text: "ef".into(),
            color: (9, 9, 9),
        },
    ];
    let rows = wrap(&vec![line], 80);
    assert_eq!(rows[0].spans.len(), 2); // abcd + ef
    assert_eq!(rows[0].spans[0].text, "abcd");
}

#[test]
fn wrapping_keeps_text_and_order() {
    let text = "fn main() { println!(\"好 hello e\u{0301}\"); }";
    for cols in 0..12 {
        let lines = vec![plain(text), plain("second")];
        let rows = wrap(&lines, cols);
        let all: String = rows.iter().map(row_text).collect();
        assert_eq!(all, format!("{text}second"));
        for row in &rows {
            let limit: u128 = if cols == 0 { 1 } else { cols as u128 };
            let text = row_text(row);
            assert!(display_cols(&text) <= limit || text.chars().count() == 1);
        }
        let numbers: Vec<usize> = rows.iter().filter_map(|r| r.number).collect();
        assert_eq!(numbers, vec![1, 2]);
    }
}

#[test]
fn no_rows_make_one_empty_page() {
    let pages = paginate(Vec::new(), 10);
    assert_eq!(pages.len(), 1);
    assert!(pages[0].is_empty());
    let rows = wrap(&vec![plain("a"), plain("b")], 80);
    let pages = paginate(rows, 0);
    assert_eq!(pages.len(), 2);
    assert_eq!(pages[1][0].number, Some(2));
}

// --- widths ---------------------------------------------------------------

#[test]
fn cjk_is_double_width() {
    assert_eq!(char_cols('a'), 1);
    assert_eq!(char_cols('好'), 2);
    assert_eq!(display_cols("a好b"), 4);
}

#[test]
fn control_characters_take_no_columns() {
    assert_eq!(char_cols('\u{7}'), 0);
    assert_eq!(display_cols("\u{1}\u{2}"), 0);
    assert_eq!(display_cols(""), 0);
    assert_eq!(display_cols("ab") + display_cols("好"), display_cols("ab好"));
}

// --- highlighting ---------------------------------------------------------

#[test]
fn maps_languages_to_extensions() {
    assert_eq!(language_extension("python3"), "py");
    assert_eq!(language_extension("CPP"), "cpp");
    assert_eq!(language_extension("mystery"), "");
}

#[test]
fn expands_tabs_to_stops() {
    assert_eq!(expand_tabs("\tx"), "    x");
    assert_eq!(expand_tabs("ab\tc"), "ab  c");
}

#[test]
fn highlights_into_lines() {
    let lines = highlight("int main() {\n  return 0;\n}\n", "cpp");
    assert_eq!(lines.len(), 3);
    assert!(lines.iter().flatten().all(|s| !s.text.is_empty()));
}

#[test]
fn unknown_language_falls_back_to_plain() {
    let lines = highlight("hello world\n", "qwerty");
    assert_eq!(lines.len(), 1);
    assert!(lines[0].iter().any(|s| s.text.contains("hello")));
}

#[test]
fn produces_multiple_colors() {
    let source = "#include <iostream>\nint main() { return 0; }\n";
    let lines = highlight(source, "cpp");
    let colors: HashSet<_> = lines
        .iter()
        .flatten()
        .map(|s| s.color)
        .filter(|c| *c != (0, 0, 0))
        .collect();
    assert!(
        colors.len() > 1,
        "expected multiple colors for syntax-highlighted C++"
    );
}

#[test]
fn every_language_has_an_extension() {
    let known = [
        ("cpp", "cpp"),
        ("c++", "cpp"),
        ("cc", "cpp"),
        ("cxx", "cpp"),
        ("c", "c"),
        ("python", "py"),
        ("py", "py"),
        ("java", "java"),
        ("javascript", "js"),
        ("js", "js"),
        ("node", "js"),
        ("typescript", "ts"),
        ("ts", "ts"),
        ("rust", "rs"),
        ("rs", "rs"),
        ("go", "go"),
        ("golang", "go"),
        ("kotlin", "kt"),
        ("kt", "kt"),
        ("csharp", "cs"),
        ("cs", "cs"),
        ("ruby", "rb"),
        ("rb", "rb"),
        ("PHP", "php"),
        ("shell", "sh"),
        ("bash", "sh"),
        ("sh", "sh"),
    ];
    for (language, extension) in known {
        assert_eq!(language_extension(language), extension);
    }
}

#[test]
fn syntaxes_are_found() {
    assert_eq!(resolve_syntax("cpp"), "C++");
    assert_eq!(resolve_syntax("python3"), "Python");
    assert_eq!(resolve_syntax("haskell"), "Haskell");
    assert_eq!(resolve_syntax("qwerty"), "Plain Text");
    assert_eq!(
        choose_syntax("cpp", Some("C++".into()), Some("x".into())),
        "C++"
    );
    assert_eq!(choose_syntax("odd", Some("C++".into()), Some("x".into())), "x");
    assert_eq!(choose_syntax("cpp", None, None), "Plain Text");
}

#[test]
fn default_syntaxes_have_distinct_names() {
    let set = syntect::parsing::SyntaxSet::load_defaults_nonewlines();
    let names: HashSet<&str> = set.syntaxes().iter().map(|s| s.name.as_str()).collect();
    assert_eq!(names.len(), set.syntaxes().len());
    assert!(names.contains("Plain Text"));
}

fn theme(name: &str, background: Option<(u8, u8, u8)>) -> ThemeEntry {
    ThemeEntry {
        name: name.into(),
        background,
    }
}

#[test]
fn light_themes_are_preferred() {
    let dark = || theme("dark", Some((10, 10, 10)));
    let light = || theme("light", Some((250, 250, 250)));
    let all = vec![
        dark(),
        light(),
        theme("Solarized (light)", None),
        theme("base16-ocean.light", None),
        theme("InspiredGitHub", None),
    ];
    assert_eq!(pick_theme(&all).as_deref(), Some("InspiredGitHub"));
    let some = vec![dark(), theme("Solarized (light)", None), theme("base16-ocean.light", None)];
    assert_eq!(pick_theme(&some).as_deref(), Some("base16-ocean.light"));
    let one = vec![dark(), light(), theme("Solarized (light)", None)];
    assert_eq!(pick_theme(&one).as_deref(), Some("Solarized (light)"));
    assert_eq!(pick_theme(&vec![dark(), light()]).as_deref(), Some("light"));
    assert_eq!(pick_theme(&vec![dark(), theme("bare", None)]).as_deref(), Some("bare"));
    assert_eq!(pick_theme(&vec![dark()]).as_deref(), Some("dark"));
    assert_eq!(pick_theme(&vec![]), None);
}

#[test]
fn sources_split_at_line_feeds() {
    assert_eq!(split_source("a\r\n\tb\n\nc"), vec!["a", "    b", "", "c"]);
    assert_eq!(split_source("a\n"), vec!["a"]);
    assert!(split_source("").is_empty());
    assert_eq!(expand_tabs("a\r\n"), "a");
    assert_eq!(expand_tabs("abcd\te"), "abcd    e");
}

#[test]
fn lines_without_tokens_are_black() {
    let lines = vec!["a b".to_string(), "c".to_string(), "d".to_string()];
    let tokens = Some(vec![
        Some(vec![
            Span {
                text: "a".into(),
                color: (1, 2, 3),
            },
            Span {
                text: "".into(),
                color: (4, 5, 6),
            },
            Span {
                text: " b".into(),
                color: (7, 8, 9),
            },
        ]),
        None,
    ]);
    let spans = spans_of(&lines, &tokens);
    assert_eq!(spans.len(), 3);
    assert_eq!(spans[0].len(), 2);
    assert_eq!(spans[0][1].text, " b");
    assert_eq!(spans[0][1].color, (7, 8, 9));
    assert_eq!(spans[1], plain("c"));
    assert_eq!(spans[2], plain("d"));
    assert_eq!(spans_of(&lines, &None)[0], plain("a b"));
}

#[test]
fn highlighting_prints_the_whole_source() {
    let source = "#include <iostream>\n\tint main() { return 0; } // done\n/* open\n";
    for language in ["cpp", "python3", "java", "text", "rust"] {
        let lines = highlight(source, language);
        let text: Vec<String> = lines
            .iter()
            .map(|l| l.iter().map(|s| s.text.as_str()).collect())
            .collect();
        assert_eq!(text, split_source(source));
    }
}

// --- documents ------------------------------------------------------------

#[test]
fn documents_are_paged() {
    let source = (0..400)
        .map(|i| format!("line number {i} with some content"))
        .collect::<Vec<_>>()
        .join("\n");
    let pages = layout_document(&source, "text", 100, 54);
    assert_eq!(pages.len(), 8);
    assert!(pages[..7].iter().all(|p| p.len() == 54));
    let text: Vec<String> = pages.iter().flatten().map(row_text).collect();
    assert_eq!(text.join("\n"), source);
    assert_eq!(layout_document("", "cpp", 100, 54).len(), 1);
}

#[test]
fn papers_are_named_in_any_case() {
    assert_eq!(paper("Letter"), Paper::Letter);
    assert_eq!(paper("LEGAL"), Paper::Legal);
    assert_eq!(paper("a4"), Paper::A4);
    assert_eq!(paper("foolscap"), Paper::A4);
}

#[test]
fn pages_bear_their_texts() {
    let mut m = meta();
    assert_eq!(header_center(&m), "A  \u{b7}  main.cpp");
    m.problem_label = Some("".into());
    assert_eq!(header_center(&m), "main.cpp");
    m.problem_label = None;
    assert_eq!(header_center(&m), "main.cpp");
    assert_eq!(footer_center(&m), "#7  \u{b7}  12:34");
    assert_eq!(footer_right(2, 11), "page 2 of 11");
    assert_eq!(title(&m), "print-7");
    let row = VisualLine {
        number: Some(12),
        spans: vec![],
    };
    assert_eq!(gutter(&row).as_deref(), Some("12"));
    let row = VisualLine {
        number: None,
        spans: vec![],
    };
    assert_eq!(gutter(&row), None);
    assert!(leaves_marks(" x "));
    assert!(!leaves_marks(" \t "));
}

// --- printing -------------------------------------------------------------

#[test]
fn detects_folder_sink_from_command_or_os_id() {
    assert_eq!(
        sink_dir(&printer(Some("folder:/tmp/out"), None)).as_deref(),
        Some("/tmp/out")
    );
    assert_eq!(
        sink_dir(&printer(None, Some("folder:/var/spool"))).as_deref(),
        Some("/var/spool")
    );
    assert_eq!(sink_dir(&printer(Some("lp -d X {file}"), None)), None);
}

#[test]
fn sumatra_args_named_printer() {
    assert_eq!(
        sumatra_args(Some("HP_LaserJet"), "C:/tmp/job.pdf"),
        vec!["-print-to", "HP_LaserJet", "-silent", "C:/tmp/job.pdf"]
    );
}

#[test]
fn sumatra_args_default_printer() {
    assert_eq!(
        sumatra_args(None, "C:/tmp/job.pdf"),
        vec!["-print-to-default", "-silent", "C:/tmp/job.pdf"]
    );
    assert_eq!(
        sumatra_args(Some(""), "j.pdf"),
        vec!["-print-to-default", "-silent", "j.pdf"]
    );
}

#[test]
fn templates_are_filled_word_by_word() {
    let p = printer(Some("lp -d {printer} -o x={file} {file}"), Some("HP 1"));
    assert_eq!(
        print_pdf(&p, "/tmp/a b.pdf", false),
        Ok(PrintAction::Run {
            program: "lp".into(),
            args: vec![
                "-d".into(),
                "HP 1".into(),
                "-o".into(),
                "x=/tmp/a b.pdf".into(),
                "/tmp/a b.pdf".into(),
            ],
        })
    );
    assert_eq!(
        run_template("run {printer}", &printer(None, None), "f"),
        Ok(PrintAction::Run {
            program: "run".into(),
            args: vec!["p".into()],
        })
    );
    assert_eq!(
        print_pdf(&printer(Some("   "), None), "f", false),
        Err("empty print command for printer 'p'".to_string())
    );
}

#[test]
fn printers_fall_back_to_the_system() {
    assert_eq!(
        print_pdf(&printer(None, Some("HP")), "f.pdf", false),
        Ok(PrintAction::Run {
            program: "lp".into(),
            args: vec!["-d".into(), "HP".into(), "f.pdf".into()],
        })
    );
    assert_eq!(
        print_pdf(&printer(None, Some("")), "f.pdf", true),
        Ok(PrintAction::Silent {
            args: vec!["-print-to-default".into(), "-silent".into(), "f.pdf".into()],
        })
    );
    assert_eq!(
        print_pdf(&printer(Some("folder: /out "), Some("HP")), "f.pdf", false),
        Ok(PrintAction::Folder { dir: "/out".into() })
    );
    assert_eq!(lp_args(&None, "f"), vec!["f"]);
    assert_eq!(lp_args(&Some("".into()), "f"), vec!["f"]);
}

#[test]
fn printers_are_read_from_listings() {
    let lpstat = "HP_1 accepting requests since Mon\n\n  Brother accepting\n";
    assert_eq!(printers_of_lpstat(lpstat), vec!["HP_1", "Brother"]);
    let listing = "HP LaserJet\r\n  \r\nMicrosoft Print to PDF \r\n";
    assert_eq!(
        printers_of_listing(listing),
        vec!["HP LaserJet", "Microsoft Print to PDF"]
    );
}

#[test]
fn helper_status_is_told() {
    assert_eq!(silent_helper_status(&None), None);
    assert_eq!(
        silent_helper_status(&Some(Ok("C:/s.exe".into()))).as_deref(),
        Some("bundled SumatraPDF ready (C:/s.exe)")
    );
    assert_eq!(
        silent_helper_status(&Some(Err("denied".into()))).as_deref(),
        Some("bundled SumatraPDF unavailable: denied")
    );
}

// --- the round ------------------------------------------------------------

#[test]
fn untargeted_jobs_match_any_printer() {
    assert!(printer_matches(&named("main", None), &job(None)));
    assert!(printer_matches(&named("main", None), &job(Some(""))));
}

#[test]
fn targeted_jobs_match_by_name_or_os_id() {
    assert!(printer_matches(
        &named("main", Some("HP_1")),
        &job(Some("main"))
    ));
    assert!(printer_matches(
        &named("main", Some("HP_1")),
        &job(Some("HP_1"))
    ));
    assert!(!printer_matches(
        &named("main", Some("HP_1")),
        &job(Some("other"))
    ));
}

#[test]
fn formats_epoch_to_local_time() {
    let s = format_when(Some(3661));
    assert!(s.contains(':'), "expected time with colon, got '{s}'");
    assert!(!s.contains("UTC"), "expected local time, got '{s}'");
    assert_eq!(format_when(None), "");
}

#[test]
fn jobs_are_described_for_printing() {
    let mut j = job(None);
    j.display_name = Some("Team Alpha".into());
    let m = job_meta("B", &j, "now".into());
    assert_eq!(m.who, "Team Alpha");
    assert_eq!(m.filename, "a.txt");
    assert_eq!(m.when, "now");
    j.display_name = Some("".into());
    j.filename = "".into();
    j.problem_label = Some("C".into());
    let m = job_meta("B", &j, String::new());
    assert_eq!(m.who, "u");
    assert_eq!(m.filename, "print.txt");
    assert_eq!(m.problem_label.as_deref(), Some("C"));
    assert_eq!(m.banner, "B");
    assert_eq!(m.job_id, 1);
}

#[test]
fn temp_names_are_plain() {
    let mut j = job(None);
    j.filename = "../a b/è_c-1.cpp".into();
    assert_eq!(temp_pdf_name(&j), "broccoli-print-1-.._a_b___c-1.cpp.pdf");
}

#[test]
fn reports_follow_the_job() {
    assert_eq!(after_render(&Ok(10), 10), None);
    assert_eq!(
        after_render(&Ok(11), 10),
        Some(Report {
            status: "failed".into(),
            pages: Some(11),
            error: Some("11 pages exceeds limit 10".into()),
        })
    );
    assert_eq!(
        after_render(&Err("no font".into()), 10),
        Some(Report {
            status: "failed".into(),
            pages: None,
            error: Some("render error: no font".into()),
        })
    );
    assert_eq!(unwritten_report().error.as_deref(), Some("temp file error"));
    assert_eq!(
        after_print(3, &Ok(())),
        Report {
            status: "done".into(),
            pages: Some(3),
            error: None,
        }
    );
    assert_eq!(
        after_print(3, &Err("jam".into())),
        Report {
            status: "failed".into(),
            pages: Some(3),
            error: Some("jam".into()),
        }
    );
    for report in [starting_report(), unwritten_report(), after_print(1, &Ok(()))] {
        assert!(is_settable(&report.status));
    }
}

#[test]
fn one_claim_per_printer_and_job() {
    let printers = vec![named("a", None), named("b", None)];
    let mut jobs = vec![job(None), job(Some("b")), job(None)];
    jobs[1].id = 2;
    jobs[2].id = 3;
    let mut round = ClaimRound::new();
    assert_eq!(round.next(&printers, &jobs), Some((0, 0)));
    round.on_claim(&printers, &jobs, ClaimEvent::Taken);
    assert_eq!(round.next(&printers, &jobs), Some((0, 2)));
    round.on_claim(&printers, &jobs, ClaimEvent::Claimed);
    assert_eq!(round.next(&printers, &jobs), Some((1, 1)));
    round.on_claim(&printers, &jobs, ClaimEvent::Failed);
    assert_eq!(round.next(&printers, &jobs), None);
    assert_eq!(round.claims, vec![(0, 2)]);

    let mut round = ClaimRound::new();
    assert_eq!(round.next(&printers, &jobs), Some((0, 0)));
    round.on_claim(&printers, &jobs, ClaimEvent::Claimed);
    assert_eq!(round.next(&printers, &jobs), Some((1, 1)));
    round.on_claim(&printers, &jobs, ClaimEvent::Claimed);
    assert_eq!(round.next(&printers, &jobs), None);
    assert_eq!(round.claims, vec![(0, 0), (1, 1)]);
    assert_eq!(claim_event(&Ok(ClaimOutcome::Claimed)), ClaimEvent::Claimed);
    assert_eq!(claim_event(&Ok(ClaimOutcome::Taken)), ClaimEvent::Taken);
    assert_eq!(claim_event(&Err("x".into())), ClaimEvent::Failed);
}

#[test]
fn pauses_jitter_around_the_interval() {
    assert_eq!(fetch_limit(0), 4);
    assert_eq!(fetch_limit(1), 4);
    assert_eq!(fetch_limit(2), 6);
    assert_eq!(pause_ms(0, 0), 834);
    assert_eq!(pause_ms(3, 0), 2500);
    assert_eq!(pause_ms(3, 1000), 3500);
    assert_eq!(pause_ms(3, 1001), 2500);
    assert_eq!(next_nap(0, 450), Some(200));
    assert_eq!(next_nap(400, 450), Some(50));
    assert_eq!(next_nap(450, 450), None);
}

#[test]
fn stations_need_a_server_and_a_printer() {
    let mut cfg = default_config(9.0f32);
    assert_eq!(cfg.station, "station-1");
    assert_eq!(cfg.poll_interval_secs, 3);
    assert_eq!(cfg.max_pages, 10);
    assert_eq!(cfg.paper, "A4");
    assert_eq!(cfg.font_size, 9.0);
    assert!(cfg.location.is_none());
    assert_eq!(
        check_config(&cfg),
        Err("no [[server]] configured — run `print-client setup` first".to_string())
    );
    cfg.servers.push(ServerCfg {
        url: "http://x".into(),
        token: "t".into(),
    });
    assert_eq!(
        check_config(&cfg),
        Err("no [[printer]] configured — run `print-client setup` first".to_string())
    );
    cfg.printers.push(named("main", None));
    assert_eq!(check_config(&cfg), Ok(()));
    assert_eq!(cfg.printer_names(), vec!["main"]);
}

// --- servers --------------------------------------------------------------

#[test]
fn servers_are_reached_under_their_paths() {
    let client = ServerClient::new(&ServerCfg {
        url: "http://judge.local:3000//".into(),
        token: "tok".into(),
    });
    assert_eq!(client.base, format!("http://judge.local:3000{BASE_PATH}"));
    assert_eq!(client.auth, "PrintStation tok");
    assert_eq!(client.label, "http://judge.local:3000//");
    let claim = client.claim(-7, "s", "p");
    assert!(claim.url.ends_with("/stations/jobs/-7/claim"));
    assert_eq!(claim.printer, "p");
    assert!(client.report(7).ends_with("/stations/jobs/7/status"));
    let jobs = client.fetch_jobs(&Some("Room A".into()), 6);
    assert!(jobs.url.ends_with("/stations/jobs"));
    assert_eq!(jobs.limit, "6");
    assert_eq!(jobs.location.as_deref(), Some("Room A"));
    let beat = client.heartbeat("s", &vec!["p".into()], &None, 0);
    assert!(beat.url.ends_with("/stations/heartbeat"));
    assert_eq!(beat.printers, vec!["p"]);
    assert_eq!(trim_slashes("///"), "");
}

#[test]
fn replies_are_read() {
    let refused = |code, message: Option<&str>| Reply::Refused {
        code,
        message: message.map(String::from),
    };
    assert_eq!(read_claim(&Reply::Done), Ok(ClaimOutcome::Claimed));
    assert_eq!(read_claim(&refused(409, None)), Ok(ClaimOutcome::Taken));
    assert_eq!(
        read_claim(&refused(403, Some("bad token"))),
        Err("server returned 403: bad token".to_string())
    );
    assert_eq!(
        read_done(&refused(500, None)),
        Err("server returned 500: HTTP 500".to_string())
    );
    assert_eq!(
        status_error(&Reply::Unreached {
            detail: "refused".into()
        }),
        "connection failed: refused"
    );
    assert_eq!(read_done(&Reply::Done), Ok(()));
}

// --- setup ----------------------------------------------------------------

#[test]
fn setup_reads_its_answers() {
    assert_eq!(default_station(Some("pc".into()), Some("h".into())), "pc");
    assert_eq!(default_station(None, Some("h".into())), "h");
    assert_eq!(default_station(Some("".into()), Some("h".into())), "station-1");
    assert_eq!(default_station(None, None), "station-1");
    assert_eq!(location_of("  ".into()), None);
    assert_eq!(location_of(" A ".into()).as_deref(), Some(" A "));
    let server = server_of(" http://x:3000// ", " tok ");
    assert_eq!(server.url, "http://x:3000");
    assert_eq!(server.token, "tok");
    let custom = custom_printer(" n ", " folder:/x ");
    assert_eq!(custom.name, "n");
    assert_eq!(custom.command.as_deref(), Some("folder:/x"));
    let queue = queue_printer(" main ", "HP".into());
    assert_eq!(queue.name, "main");
    assert_eq!(queue.os_id.as_deref(), Some("HP"));
}

#[test]
fn chosen_printers_leave_the_menu() {
    let detected = vec!["HP".to_string(), "Brother".to_string()];
    let options = printer_options(&detected, &vec![]);
    assert_eq!(options.len(), 4);
    assert_eq!(options[3], "Done (no printers — use a folder sink later)");
    assert_eq!(
        read_choice(&options, 1),
        PrinterChoice::Queue {
            os_id: "Brother".into()
        }
    );
    assert_eq!(read_choice(&options, 2), PrinterChoice::Custom);
    assert_eq!(read_choice(&options, 3), PrinterChoice::Done);
    let options = printer_options(&detected, &vec![named("x", Some("HP"))]);
    assert_eq!(
        options,
        vec!["Brother", "Custom command / folder sink…", "Done"]
    );
}

#[test]
fn printers_are_described() {
    let detected = vec!["HP".to_string()];
    assert_eq!(
        describe_printer(&printer(Some("lp {file}"), Some("HP")), &detected),
        "command `lp {file}`"
    );
    assert_eq!(describe_printer(&printer(None, Some("HP")), &detected), "OS queue 'HP'");
    assert_eq!(
        describe_printer(&printer(None, Some("X")), &detected),
        "OS queue 'X' (not found by lpstat/Get-Printer!)"
    );
    assert_eq!(describe_printer(&printer(None, None), &detected), "system default");
    let m = test_meta("b", "s");
    assert_eq!(m.problem_label.as_deref(), Some("TEST"));
    assert_eq!(m.who, "s");
    assert!(TEST_SOURCE.ends_with("return 0;\n}\n"));
}

#[test]
fn test_prints_find_language_and_printer() {
    for (ext, language) in [
        ("cpp", "cpp"),
        ("h", "cpp"),
        ("c", "c"),
        ("py", "python3"),
        ("java", "java"),
        ("mjs", "javascript"),
        ("ts", "typescript"),
        ("rs", "rust"),
        ("go", "go"),
        ("kt", "kotlin"),
        ("txt", "text"),
        ("", "text"),
    ] {
        assert_eq!(infer_language(ext), language);
    }
    let printers = vec![named("a", None), named("b", None), named("b", None)];
    assert_eq!(choose_printer(&printers, &Some("b".into())), Some(1));
    assert_eq!(choose_printer(&printers, &Some("z".into())), None);
    assert_eq!(choose_printer(&printers, &None), Some(0));
    assert_eq!(choose_printer(&vec![], &None), None);
}

// --- moments --------------------------------------------------------------

#[test]
fn moments_are_written_in_two_digits_each() {
    assert_eq!(moment_text(3, 9, 17, 5), "03-09 17:05");
    assert_eq!(moment_text(12, 31, 23, 59), "12-31 23:59");
    assert_eq!(moment_text(1, 1, 0, 0), "01-01 00:00");
}

#[test]
fn known_times_are_those_of_the_machine() {
    for secs in [0, 3661, 951_782_399, 1_700_000_000, -1] {
        let there = chrono::DateTime::from_timestamp(secs, 0)
            .unwrap()
            .with_timezone(&chrono::Local);
        let expected = there.format("%m-%d %H:%M").to_string();
        assert_eq!(format_when(Some(secs)), expected);
        assert_eq!(expected.len(), 11);
    }
    // Beyond what a date can say, the epoch stands in.
    assert_eq!(format_when(Some(i64::MAX)), format_when(Some(0)));
}

// --- the estimate of pages ------------------------------------------------

#[test]
fn the_estimate_is_what_is_cut() {
    let sources = [
        String::new(),
        "\n\n\n".to_string(),
        "a".repeat(90),
        "a".repeat(91),
        format!("{}\n\n{}\n", "x".repeat(10), "y".repeat(7)),
        vec!["line"; 55].join("\n"),
    ];
    for source in &sources {
        for (cols, per) in [(90, 54), (3, 2), (1, 1), (7, 0), (0, 5)] {
            let lines: Vec<Vec<Span>> = source.split('\n').map(plain).collect();
            let pages = paginate(wrap(&lines, cols), per);
            assert_eq!(estimate_pages_with(source, cols, per) as usize, pages.len());
        }
    }
}

#[test]
fn different_times_are_told_apart() {
    // More than two days apart, so no zone shows the same day for both.
    let first = format_when(Some(1_000_000));
    let second = format_when(Some(1_000_000 + 3 * 86_400));
    assert_ne!(first[..5], second[..5]);
}

#[test]
fn rows_are_filled_before_they_are_broken() {
    let rows = wrap(&vec![plain("abc\u{597d}de")], 4);
    let texts: Vec<String> = rows.iter().map(row_text).collect();
    assert_eq!(texts, ["abc", "\u{597d}de"]);
    let rows = wrap(&vec![plain("ab\u{597d}de")], 4);
    let texts: Vec<String> = rows.iter().map(row_text).collect();
    assert_eq!(texts, ["ab\u{597d}", "de"]);
}

#[test]
fn the_whole_source_is_printed_in_every_language() {
    let source = "\t#!/bin/sh\nfunc f<T>(x: int) { \"open \\\" \u{e9}\u{597d} }\n'''a\n}} ?> <?php\n\n@b `c\n";
    let languages = [
        "cpp", "c", "python", "java", "js", "ts", "rust", "go", "kt", "cs", "ruby", "php", "sh",
        "html", "markdown", "x",
    ];
    for language in languages {
        let pages = layout_document(source, language, 7, 2);
        let printed: String = pages.iter().flatten().map(row_text).collect();
        assert_eq!(printed, split_source(source).concat());
    }
}
