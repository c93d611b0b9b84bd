//! What the print client promises: which printer takes which job, what is handed
//! to the system, and what stands on the page.

use vstd::prelude::*;

use crate::client::api;
use crate::client::api::{ServerClient, ClaimOutcome, ClaimRequest, Heartbeat, Job, JobsRequest, Reply, Report};
use crate::client::config::{Config, PrinterCfg, ServerCfg};
use crate::client::doctor;
use crate::client::highlight;
use crate::client::highlight::ThemeEntry;
use crate::client::layout::VisualLine;
use crate::client::pdf;
use crate::client::pdf::{DocMeta, Paper};
use crate::client::print;
use crate::client::print::PrintAction;
use crate::client::run;
use crate::client::run::ClaimEvent;
use crate::client::setup;
use crate::client::setup::PrinterChoice;
use crate::checkers::util;
use crate::text;

verus! {

// ---------------------------------------------------------------------------
// Which printer takes a job
// ---------------------------------------------------------------------------

/// A job that names no printer goes to any; one that names one goes to the
/// printer of that name, or with that queue, and to no other.
pub proof fn a_job_goes_to_the_printer_it_names(printer: PrinterCfg, job: Job)
    ensures
        job.target_printer is None || job.target_printer->0@.len() == 0 ==> run::suits(
            printer,
            job,
        ),
        job.target_printer is Some && job.target_printer->0@.len() > 0 ==> (run::suits(printer, job)
            <==> job.target_printer->0@ == printer.name@ || (printer.os_id is Some
            && printer.os_id->0@ == job.target_printer->0@)),
{
}

/// A page tells whose it is by the name that is shown, else by the login; a file
/// without a name gets one.
pub proof fn a_page_tells_its_author(
    m: DocMeta,
    banner: Seq<char>,
    job: Job,
    when: Seq<char>,
)
    requires
        run::meta_is(m, banner, job, when),
    ensures
        m.banner@ == banner,
        m.when@ == when,
        m.job_id == job.id,
        job.display_name is Some && job.display_name->0@.len() > 0 ==> m.who@
            == job.display_name->0@,
        job.display_name is None || job.display_name->0@.len() == 0 ==> m.who@ == job.username@,
        job.filename@.len() > 0 ==> m.filename@ == job.filename@,
        job.filename@.len() == 0 ==> m.filename@ == "print.txt"@,
        job.problem_label is Some <==> m.problem_label is Some,
        job.problem_label is Some ==> m.problem_label->0@ == job.problem_label->0@,
{
}

/// The name of a file on disk keeps letters, digits, dots and dashes, and has a
/// line for every other character.
pub proof fn names_on_disk_are_plain(s: Seq<char>, i: int)
    requires
        0 <= i < s.len(),
    ensures
        run::plain_name(s).len() == s.len(),
        ('a' <= s[i] <= 'z') || ('A' <= s[i] <= 'Z') || ('0' <= s[i] <= '9') || s[i] == '.' || s[i]
            == '-' ==> run::plain_name(s)[i] == s[i],
        !(('a' <= s[i] <= 'z') || ('A' <= s[i] <= 'Z') || ('0' <= s[i] <= '9') || s[i] == '.'
            || s[i] == '-') ==> run::plain_name(s)[i] == '_',
{
}

/// A number below a hundred has two digits, which tell it.
pub proof fn two_digits_tell_their_number(n: nat)
    requires
        n < 100,
    ensures
        run::two_digits(n).len() == 2,
        text::all_digits(run::two_digits(n)),
        (run::two_digits(n)[0] as nat - 48) * 10 + (run::two_digits(n)[1] as nat - 48) == n,
{
    let d = run::two_digits(n);
    assert(text::digit_char(n / 10) as nat == 48 + n / 10);
    assert(text::digit_char(n % 10) as nat == 48 + n % 10);
    assert(d[0] as nat == 48 + n / 10);
    assert(d[1] as nat == 48 + n % 10);
    assert forall|i: int| 0 <= i < d.len() implies text::is_digit(#[trigger] d[i]) by {
        assert(i == 0 || i == 1);
    }
}

// ---------------------------------------------------------------------------
// What is handed to the system
// ---------------------------------------------------------------------------

/// A printer that is a folder is one by its command, or by its queue where it has
/// no such command; the folder is what stands behind the mark.
pub proof fn a_folder_stands_behind_its_mark(dir: Seq<char>, setting: Option<String>)
    ensures
        setting is Some && setting->0@ == "folder:"@ + dir ==> print::folder_of(setting) == Some(
            text::trim_spec(dir),
        ),
        setting is None ==> print::folder_of(setting) is None,
        print::folder_of(setting) is Some ==> exists|d: Seq<char>|
            setting->0@ == "folder:"@ + d && print::folder_of(setting) == Some(
                #[trigger] text::trim_spec(d),
            ),
{
    let mark = "folder:"@;
    let n = mark.len() as int;
    if setting is Some {
        let v = setting->0@;
        if v == mark + dir {
            assert(v.subrange(0, n) =~= mark);
            assert(v.skip(n) =~= dir);
        }
        if text::has_prefix(v, mark) {
            assert(v =~= mark + v.skip(n));
            assert(text::trim_spec(v.skip(n)) == text::trim_spec(v.skip(n)));
        }
    }
}

/// The command comes before the queue.
pub proof fn the_command_comes_before_the_queue(printer: PrinterCfg)
    ensures
        print::folder_of(printer.command) is Some ==> print::sink_of(printer) == print::folder_of(
            printer.command,
        ),
        print::folder_of(printer.command) is None ==> print::sink_of(printer) == print::folder_of(
            printer.os_id,
        ),
        printer.os_id is Some ==> print::printer_id(printer) == printer.os_id->0@,
        printer.os_id is None ==> print::printer_id(printer) == printer.name@,
{
}

/// A mark in a text is replaced wherever it stands: the text before the first one
/// is kept, and what follows is treated the same.
pub proof fn every_mark_is_replaced(
    before: Seq<char>,
    mark: Seq<char>,
    after: Seq<char>,
    to: Seq<char>,
)
    requires
        mark.len() > 0,
        forall|i: int| 0 <= i < before.len() ==> !text::stands_at(before + mark + after, mark, i),
    ensures
        print::replaced(before + mark + after, mark, to) == before + to + print::replaced(
            after,
            mark,
            to,
        ),
    decreases before.len(),
{
    let s = before + mark + after;
    if before.len() == 0 {
        assert(s =~= mark + after);
        assert(s.subrange(0, mark.len() as int) =~= mark);
        assert(text::has_prefix(s, mark));
        assert(s.skip(mark.len() as int) =~= after);
        assert(before + to =~= to);
    } else {
        assert(!text::stands_at(s, mark, 0));
        let rest = before.drop_first();
        let less = rest + mark + after;
        assert(s.skip(1) =~= less);
        assert forall|i: int| 0 <= i < rest.len() implies !text::stands_at(less, mark, i) by {
            if text::stands_at(less, mark, i) {
                assert(s.subrange(i + 1, i + 1 + mark.len()) =~= less.subrange(
                    i,
                    i + mark.len(),
                ));
                assert(text::stands_at(s, mark, i + 1));
            }
        }
        every_mark_is_replaced(rest, mark, after, to);
        assert(seq![s[0]] + (rest + to + print::replaced(after, mark, to)) =~= before + to
            + print::replaced(after, mark, to));
    }
}

/// A word of a command has the printer and the file filled in where it asks for
/// them.
pub proof fn commands_get_printer_and_file(printer: Seq<char>, file: Seq<char>)
    requires
        forall|i: int| !(#[trigger] text::stands_at(printer, "{file}"@, i)),
    ensures
        print::filled("{printer}"@, printer, file) == printer,
        print::filled("{file}"@, printer, file) == file,
{
    lemma_marks();
    print::a_lone_mark_is_filled("{printer}"@, printer);
    print::text_without_marks_is_kept(printer, "{file}"@, file);
    print::text_without_marks_is_kept("{file}"@, "{printer}"@, printer);
    print::a_lone_mark_is_filled("{file}"@, file);
}

proof fn lemma_marks()
    ensures
        "{printer}"@.len() == 9,
        "{file}"@.len() == 6,
        forall|i: int| !(#[trigger] text::stands_at("{file}"@, "{printer}"@, i)),
{
    reveal_strlit("{printer}");
    reveal_strlit("{file}");
}

/// The system's own command is given the queue where there is one, and the file
/// last.
pub proof fn the_file_comes_last(os_id: Option<Seq<char>>, file: Seq<char>)
    ensures
        ({
            let named = os_id is Some && os_id->0.len() > 0;
            let lp = print::lp_words(os_id, file);
            let silent = print::sumatra_words(os_id, file);
            &&& lp.last() == file && silent.last() == file
            &&& named ==> lp.len() == 3 && lp[0] == "-d"@ && lp[1] == os_id->0
            &&& !named ==> lp.len() == 1
            &&& named ==> silent.len() == 4 && silent[0] == "-print-to"@ && silent[1] == os_id->0
                && silent[2] == "-silent"@
            &&& !named ==> silent.len() == 3 && silent[0] == "-print-to-default"@ && silent[1]
                == "-silent"@
        }),
{
}

/// The queues of a listing are its first words, or its trimmed lines: one for
/// each line that has any, in their order.
pub proof fn every_line_names_a_queue(line: Seq<char>, rest: Seq<Seq<char>>)
    ensures
        print::first_words(Seq::<Seq<char>>::empty()).len() == 0,
        print::trimmed_names(Seq::<Seq<char>>::empty()).len() == 0,
        util::tokens_of(line).len() > 0 ==> print::first_words(seq![line] + rest) == seq![
            util::tokens_of(line)[0],
        ] + print::first_words(rest),
        util::tokens_of(line).len() == 0 ==> print::first_words(seq![line] + rest)
            == print::first_words(rest),
        text::trim_spec(line).len() > 0 ==> print::trimmed_names(seq![line] + rest) == seq![
            text::trim_spec(line),
        ] + print::trimmed_names(rest),
        text::trim_spec(line).len() == 0 ==> print::trimmed_names(seq![line] + rest)
            == print::trimmed_names(rest),
{
    let all = seq![line] + rest;
    assert(all.skip(1) =~= rest);
    assert(all[0] == line);
}

// ---------------------------------------------------------------------------
// Setting up
// ---------------------------------------------------------------------------

/// A station goes by the name of its computer, else by that of its host, and else
/// by a name of its own.
pub proof fn a_station_has_a_name(computer: Option<Seq<char>>, host: Option<Seq<char>>)
    ensures
        computer is Some && computer->0.len() > 0 ==> setup::station_of(computer, host)
            == computer->0,
        computer is None && host is Some && host->0.len() > 0 ==> setup::station_of(computer, host)
            == host->0,
        computer is None && host is None ==> setup::station_of(computer, host) == "station-1"@,
        setup::station_of(computer, host).len() > 0,
{
    reveal_strlit("station-1");
    assert("station-1"@.len() == 9);
}

/// Every queue that was found and not chosen yet is offered, and no other.
pub proof fn the_other_queues_are_offered(
    detected: Seq<Seq<char>>,
    printers: Seq<PrinterCfg>,
    queue: Seq<char>,
)
    ensures
        setup::unchosen(detected, printers).contains(queue) <==> detected.contains(queue) && !(
        exists|i: int|
            0 <= i < printers.len() && (#[trigger] printers[i]).os_id is Some
                && printers[i].os_id->0@ == queue),
    decreases detected.len(),
{
    let offered = setup::unchosen(detected, printers);
    assert(setup::is_chosen(printers, queue) <==> exists|i: int|
        0 <= i < printers.len() && (#[trigger] printers[i]).os_id is Some && printers[i].os_id->0@
            == queue) by {
        if setup::is_chosen(printers, queue) {
            let i = choose|i: int|
                0 <= i < printers.len() && text::opt_view((#[trigger] printers[i]).os_id) == Some(
                    queue,
                );
            assert(printers[i].os_id is Some && printers[i].os_id->0@ == queue);
        }
        if exists|i: int|
            0 <= i < printers.len() && (#[trigger] printers[i]).os_id is Some
                && printers[i].os_id->0@ == queue {
            let i = choose|i: int|
                0 <= i < printers.len() && (#[trigger] printers[i]).os_id is Some
                    && printers[i].os_id->0@ == queue;
            assert(text::opt_view(printers[i].os_id) == Some(queue));
        }
    }
    if detected.len() > 0 {
        let rest = detected.drop_last();
        the_other_queues_are_offered(rest, printers, queue);
        let fewer = setup::unchosen(rest, printers);
        lemma_pushed(rest, detected.last(), queue);
        assert(detected =~= rest.push(detected.last()));
        lemma_pushed(fewer, detected.last(), queue);
    } else {
        assert(!offered.contains(queue));
    }
}

proof fn lemma_pushed(s: Seq<Seq<char>>, last: Seq<char>, x: Seq<char>)
    ensures
        s.push(last).contains(x) <==> s.contains(x) || x == last,
{
    let more = s.push(last);
    if s.contains(x) {
        let i = choose|i: int| 0 <= i < s.len() && s[i] == x;
        assert(more[i] == x);
    }
    if more.contains(x) && x != last {
        let i = choose|i: int| 0 <= i < more.len() && more[i] == x;
        assert(s[i] == x);
    }
    assert(more[s.len() as int] == last);
}

// ---------------------------------------------------------------------------
// Talking to a server
// ---------------------------------------------------------------------------

/// The slashes at the end of an address are taken away, and nothing else.
pub proof fn only_slashes_are_taken_away(s: Seq<char>)
    ensures
        ({
            let r = api::without_slashes(s);
            &&& r.len() <= s.len()
            &&& s.take(r.len() as int) == r
            &&& forall|i: int| r.len() <= i < s.len() ==> #[trigger] s[i] == '/'
            &&& r.len() > 0 ==> r.last() != '/'
        }),
    decreases s.len(),
{
    if s.len() > 0 && s.last() == '/' {
        only_slashes_are_taken_away(s.drop_last());
        let r = api::without_slashes(s);
        assert(s.take(r.len() as int) =~= s.drop_last().take(r.len() as int));
        assert forall|i: int| r.len() <= i < s.len() implies #[trigger] s[i] == '/' by {
            if i < s.len() - 1 {
                assert(s.drop_last()[i] == s[i]);
            }
        }
    } else {
        assert(s.take(s.len() as int) =~= s);
    }
}

/// A refusal tells its code and what the server said, or the code again where it
/// said nothing.
pub proof fn refusals_tell_their_code(code: u16, message: Option<String>, detail: String)
    ensures
        message is Some ==> api::problem_of(Reply::Refused { code, message }) == "server returned "@
            + text::decimal_digits(code as nat) + ": "@ + message->0@,
        message is None ==> api::problem_of(Reply::Refused { code, message }) == "server returned "@
            + text::decimal_digits(code as nat) + ": "@ + ("HTTP "@ + text::decimal_digits(
            code as nat,
        )),
        api::problem_of(Reply::Unreached { detail }) == "connection failed: "@ + detail@,
{
}

// ---------------------------------------------------------------------------
// The page
// ---------------------------------------------------------------------------

/// The paper goes by its name in any case; A4 is the one without another.
pub proof fn paper_goes_by_its_name(name: Seq<char>)
    ensures
        text::ascii_lower_all(name) == "letter"@ <==> pdf::paper_of(name) == Paper::Letter,
        text::ascii_lower_all(name) == "legal"@ <==> pdf::paper_of(name) == Paper::Legal,
        text::ascii_lower_all(name) == "a4"@ ==> pdf::paper_of(name) == Paper::A4,
{
    reveal_strlit("letter");
    reveal_strlit("legal");
    reveal_strlit("a4");
    assert("letter"@.len() == 6);
    assert("legal"@.len() == 5);
    assert("a4"@.len() == 2);
}

/// The head of a page names the file, and the problem before it where there is
/// one.
pub proof fn the_head_names_the_file(meta: DocMeta)
    ensures
        meta.problem_label is Some && meta.problem_label->0@.len() > 0 ==> pdf::head_text(meta)
            == meta.problem_label->0@ + "  \u{b7}  "@ + meta.filename@,
        meta.problem_label is None || meta.problem_label->0@.len() == 0 ==> pdf::head_text(meta)
            == meta.filename@,
{
}

/// The language of a file goes by its ending.
pub proof fn languages_go_by_their_ending()
    ensures
        doctor::language_of("cpp"@) == "cpp"@,
        doctor::language_of("cc"@) == "cpp"@,
        doctor::language_of("cxx"@) == "cpp"@,
        doctor::language_of("hpp"@) == "cpp"@,
        doctor::language_of("h"@) == "cpp"@,
        doctor::language_of("c"@) == "c"@,
        doctor::language_of("py"@) == "python3"@,
        doctor::language_of("java"@) == "java"@,
        doctor::language_of("js"@) == "javascript"@,
        doctor::language_of("mjs"@) == "javascript"@,
        doctor::language_of("ts"@) == "typescript"@,
        doctor::language_of("rs"@) == "rust"@,
        doctor::language_of("go"@) == "go"@,
        doctor::language_of("kt"@) == "kotlin"@,
{
    lemma_endings_differ();
}

/// An ending that is not known is that of plain text.
pub proof fn other_endings_are_text(e: Seq<char>)
    requires
        e != "cpp"@ && e != "cc"@ && e != "cxx"@ && e != "hpp"@ && e != "h"@ && e != "c"@ && e
            != "py"@ && e != "java"@ && e != "js"@ && e != "mjs"@ && e != "ts"@ && e != "rs"@ && e
            != "go"@ && e != "kt"@,
    ensures
        doctor::language_of(e) == "text"@,
{
}

proof fn lemma_endings_differ()
    ensures
        "c"@ != "h"@ && "c"@ != "cc"@ && "c"@ != "cpp"@ && "c"@ != "cxx"@ && "c"@ != "hpp"@,
        "py"@ != "cc"@ && "py"@ != "h"@ && "py"@ != "c"@ && "py"@ != "cpp"@ && "py"@ != "cxx"@
            && "py"@ != "hpp"@,
        "java"@ != "cpp"@ && "java"@ != "cc"@ && "java"@ != "cxx"@ && "java"@ != "hpp"@ && "java"@
            != "h"@ && "java"@ != "c"@ && "java"@ != "py"@,
        "js"@ != "cpp"@ && "js"@ != "cc"@ && "js"@ != "cxx"@ && "js"@ != "hpp"@ && "js"@ != "h"@
            && "js"@ != "c"@ && "js"@ != "py"@ && "js"@ != "java"@,
        "mjs"@ != "cpp"@ && "mjs"@ != "cc"@ && "mjs"@ != "cxx"@ && "mjs"@ != "hpp"@ && "mjs"@
            != "h"@ && "mjs"@ != "c"@ && "mjs"@ != "py"@ && "mjs"@ != "java"@,
        "ts"@ != "cpp"@ && "ts"@ != "cc"@ && "ts"@ != "cxx"@ && "ts"@ != "hpp"@ && "ts"@ != "h"@
            && "ts"@ != "c"@ && "ts"@ != "py"@ && "ts"@ != "java"@ && "ts"@ != "js"@ && "ts"@
            != "mjs"@,
        "rs"@ != "cpp"@ && "rs"@ != "cc"@ && "rs"@ != "cxx"@ && "rs"@ != "hpp"@ && "rs"@ != "h"@
            && "rs"@ != "c"@ && "rs"@ != "py"@ && "rs"@ != "java"@ && "rs"@ != "js"@ && "rs"@
            != "mjs"@ && "rs"@ != "ts"@,
        "go"@ != "cpp"@ && "go"@ != "cc"@ && "go"@ != "cxx"@ && "go"@ != "hpp"@ && "go"@ != "h"@
            && "go"@ != "c"@ && "go"@ != "py"@ && "go"@ != "java"@ && "go"@ != "js"@ && "go"@
            != "mjs"@ && "go"@ != "ts"@ && "go"@ != "rs"@,
        "kt"@ != "cpp"@ && "kt"@ != "cc"@ && "kt"@ != "cxx"@ && "kt"@ != "hpp"@ && "kt"@ != "h"@
            && "kt"@ != "c"@ && "kt"@ != "py"@ && "kt"@ != "java"@ && "kt"@ != "js"@ && "kt"@
            != "mjs"@ && "kt"@ != "ts"@ && "kt"@ != "rs"@ && "kt"@ != "go"@,
{
    reveal_strlit("cpp");
    reveal_strlit("cc");
    reveal_strlit("cxx");
    reveal_strlit("hpp");
    reveal_strlit("h");
    reveal_strlit("c");
    reveal_strlit("py");
    reveal_strlit("java");
    reveal_strlit("js");
    reveal_strlit("mjs");
    reveal_strlit("ts");
    reveal_strlit("rs");
    reveal_strlit("go");
    reveal_strlit("kt");
    assert("cpp"@.len() == 3 && "cpp"@[0] == 'c');
    assert("cc"@.len() == 2 && "cc"@[0] == 'c');
    assert("cxx"@.len() == 3 && "cxx"@[0] == 'c');
    assert("hpp"@.len() == 3 && "hpp"@[0] == 'h');
    assert("h"@.len() == 1 && "h"@[0] == 'h');
    assert("c"@.len() == 1 && "c"@[0] == 'c');
    assert("py"@.len() == 2 && "py"@[0] == 'p');
    assert("java"@.len() == 4);
    assert("js"@.len() == 2 && "js"@[0] == 'j');
    assert("mjs"@.len() == 3 && "mjs"@[0] == 'm');
    assert("ts"@.len() == 2 && "ts"@[0] == 't');
    assert("rs"@.len() == 2 && "rs"@[0] == 'r');
    assert("go"@.len() == 2 && "go"@[0] == 'g');
    assert("kt"@.len() == 2 && "kt"@[0] == 'k');
}

/// The syntax of a language is found by the ending of its files where it has one,
/// else by its name, and is that of plain text without either.
pub proof fn a_syntax_is_always_found(
    language: Seq<char>,
    by_extension: Option<Seq<char>>,
    by_token: Option<Seq<char>>,
)
    ensures
        highlight::extension_of(language).len() > 0 && by_extension is Some
            ==> highlight::chosen_syntax(language, by_extension, by_token) == by_extension->0,
        (highlight::extension_of(language).len() == 0 || by_extension is None) && by_token is Some
            ==> highlight::chosen_syntax(language, by_extension, by_token) == by_token->0,
        (highlight::extension_of(language).len() == 0 || by_extension is None) && by_token is None
            ==> highlight::chosen_syntax(language, by_extension, by_token) == "Plain Text"@,
{
}

/// The ending of the files of a language, by its usual names. Other languages have
/// none that is known.
pub proof fn languages_have_their_ending(language: Seq<char>, l: Seq<char>)
    requires
        l == text::ascii_lower_all(language),
    ensures
        l == "cpp"@ || l == "c++"@ || l == "cc"@ || l == "cxx"@ ==> highlight::extension_of(language) == "cpp"@,
        l == "c"@ ==> highlight::extension_of(language) == "c"@,
        l == "python"@ || l == "python3"@ || l == "py"@ ==> highlight::extension_of(language) == "py"@,
        l == "java"@ ==> highlight::extension_of(language) == "java"@,
        l == "javascript"@ || l == "js"@ || l == "node"@ ==> highlight::extension_of(language) == "js"@,
        l == "typescript"@ || l == "ts"@ ==> highlight::extension_of(language) == "ts"@,
        l == "rust"@ || l == "rs"@ ==> highlight::extension_of(language) == "rs"@,
        l == "go"@ || l == "golang"@ ==> highlight::extension_of(language) == "go"@,
        l == "kotlin"@ || l == "kt"@ ==> highlight::extension_of(language) == "kt"@,
        l == "csharp"@ || l == "cs"@ ==> highlight::extension_of(language) == "cs"@,
        l == "ruby"@ || l == "rb"@ ==> highlight::extension_of(language) == "rb"@,
        l == "php"@ ==> highlight::extension_of(language) == "php"@,
        l == "shell"@ || l == "bash"@ || l == "sh"@ ==> highlight::extension_of(language) == "sh"@,
        l != "cpp"@ && l != "c++"@ && l != "cc"@ && l != "cxx"@ && l != "c"@ && l != "python"@ && l != "python3"@ && l != "py"@ && l != "java"@ && l != "javascript"@ && l != "js"@ && l != "node"@ && l != "typescript"@ && l != "ts"@ && l != "rust"@ && l != "rs"@ && l != "go"@ && l != "golang"@ && l != "kotlin"@ && l != "kt"@ && l != "csharp"@ && l != "cs"@ && l != "ruby"@ && l != "rb"@ && l != "php"@ && l != "shell"@ && l != "bash"@ && l != "sh"@
            ==> highlight::extension_of(language).len() == 0,
{
    reveal_strlit("");
    reveal_strlit("cpp");
    assert("cpp"@.len() == 3 && "cpp"@[0] == 'c' && "cpp"@[1] == 'p' && "cpp"@[2] == 'p');
    reveal_strlit("c++");
    assert("c++"@.len() == 3 && "c++"@[0] == 'c' && "c++"@[1] == '+' && "c++"@[2] == '+');
    reveal_strlit("cc");
    assert("cc"@.len() == 2 && "cc"@[0] == 'c' && "cc"@[1] == 'c');
    reveal_strlit("cxx");
    assert("cxx"@.len() == 3 && "cxx"@[0] == 'c' && "cxx"@[1] == 'x' && "cxx"@[2] == 'x');
    reveal_strlit("c");
    assert("c"@.len() == 1 && "c"@[0] == 'c');
    reveal_strlit("python");
    assert("python"@.len() == 6 && "python"@[0] == 'p' && "python"@[1] == 'y' && "python"@[2] == 't');
    reveal_strlit("python3");
    assert("python3"@.len() == 7 && "python3"@[0] == 'p' && "python3"@[1] == 'y' && "python3"@[2] == 't');
    reveal_strlit("py");
    assert("py"@.len() == 2 && "py"@[0] == 'p' && "py"@[1] == 'y');
    reveal_strlit("java");
    assert("java"@.len() == 4 && "java"@[0] == 'j' && "java"@[1] == 'a' && "java"@[2] == 'v');
    reveal_strlit("javascript");
    assert("javascript"@.len() == 10 && "javascript"@[0] == 'j' && "javascript"@[1] == 'a' && "javascript"@[2] == 'v');
    reveal_strlit("js");
    assert("js"@.len() == 2 && "js"@[0] == 'j' && "js"@[1] == 's');
    reveal_strlit("node");
    assert("node"@.len() == 4 && "node"@[0] == 'n' && "node"@[1] == 'o' && "node"@[2] == 'd');
    reveal_strlit("typescript");
    assert("typescript"@.len() == 10 && "typescript"@[0] == 't' && "typescript"@[1] == 'y' && "typescript"@[2] == 'p');
    reveal_strlit("ts");
    assert("ts"@.len() == 2 && "ts"@[0] == 't' && "ts"@[1] == 's');
    reveal_strlit("rust");
    assert("rust"@.len() == 4 && "rust"@[0] == 'r' && "rust"@[1] == 'u' && "rust"@[2] == 's');
    reveal_strlit("rs");
    assert("rs"@.len() == 2 && "rs"@[0] == 'r' && "rs"@[1] == 's');
    reveal_strlit("go");
    assert("go"@.len() == 2 && "go"@[0] == 'g' && "go"@[1] == 'o');
    reveal_strlit("golang");
    assert("golang"@.len() == 6 && "golang"@[0] == 'g' && "golang"@[1] == 'o' && "golang"@[2] == 'l');
    reveal_strlit("kotlin");
    assert("kotlin"@.len() == 6 && "kotlin"@[0] == 'k' && "kotlin"@[1] == 'o' && "kotlin"@[2] == 't');
    reveal_strlit("kt");
    assert("kt"@.len() == 2 && "kt"@[0] == 'k' && "kt"@[1] == 't');
    reveal_strlit("csharp");
    assert("csharp"@.len() == 6 && "csharp"@[0] == 'c' && "csharp"@[1] == 's' && "csharp"@[2] == 'h');
    reveal_strlit("cs");
    assert("cs"@.len() == 2 && "cs"@[0] == 'c' && "cs"@[1] == 's');
    reveal_strlit("ruby");
    assert("ruby"@.len() == 4 && "ruby"@[0] == 'r' && "ruby"@[1] == 'u' && "ruby"@[2] == 'b');
    reveal_strlit("rb");
    assert("rb"@.len() == 2 && "rb"@[0] == 'r' && "rb"@[1] == 'b');
    reveal_strlit("php");
    assert("php"@.len() == 3 && "php"@[0] == 'p' && "php"@[1] == 'h' && "php"@[2] == 'p');
    reveal_strlit("shell");
    assert("shell"@.len() == 5 && "shell"@[0] == 's' && "shell"@[1] == 'h' && "shell"@[2] == 'e');
    reveal_strlit("bash");
    assert("bash"@.len() == 4 && "bash"@[0] == 'b' && "bash"@[1] == 'a' && "bash"@[2] == 's');
    reveal_strlit("sh");
    assert("sh"@.len() == 2 && "sh"@[0] == 's' && "sh"@[1] == 'h');
}

/// The case of the name of a language does not matter.
pub proof fn the_case_of_a_language_does_not_matter(a: Seq<char>, b: Seq<char>)
    requires
        text::ascii_lower_all(a) == text::ascii_lower_all(b),
    ensures
        highlight::extension_of(a) == highlight::extension_of(b),
{
}

/// A background is light where it is closer to white than to black, weighed as the
/// eye does; one that is not told counts as light.
pub proof fn light_is_closer_to_white(t: ThemeEntry)
    ensures
        t.background is None ==> highlight::is_light(t),
        t.background == Some((255u8, 255u8, 255u8)) ==> highlight::is_light(t),
        t.background == Some((0u8, 0u8, 0u8)) ==> !highlight::is_light(t),
        t.background matches Some(c) ==> (highlight::is_light(t) <==> c.0 * 299 + c.1 * 587 + c.2
            * 114 > 128 * 1000),
{
}

/// The theme that is picked is one of those that there are; the preferred ones
/// first, then the first that is light.
pub proof fn a_light_theme_is_picked(themes: Seq<ThemeEntry>)
    ensures
        themes.len() == 0 ==> highlight::picked(themes) is None,
        themes.len() > 0 ==> highlight::picked(themes) is Some && highlight::has_theme(
            themes,
            highlight::picked(themes)->0,
        ),
        highlight::has_theme(themes, "InspiredGitHub"@) ==> highlight::picked(themes) == Some(
            "InspiredGitHub"@,
        ),
        !highlight::has_theme(themes, "InspiredGitHub"@) && highlight::has_theme(
            themes,
            "base16-ocean.light"@,
        ) ==> highlight::picked(themes) == Some("base16-ocean.light"@),
        !highlight::has_theme(themes, "InspiredGitHub"@) && !highlight::has_theme(
            themes,
            "base16-ocean.light"@,
        ) && highlight::has_theme(themes, "Solarized (light)"@) ==> highlight::picked(themes)
            == Some("Solarized (light)"@),
        (exists|i: int| 0 <= i < themes.len() && highlight::is_light(#[trigger] themes[i])) ==> {
            ||| highlight::picked(themes) == Some("InspiredGitHub"@)
            ||| highlight::picked(themes) == Some("base16-ocean.light"@)
            ||| highlight::picked(themes) == Some("Solarized (light)"@)
            ||| exists|i: int|
                0 <= i < themes.len() && highlight::is_light(#[trigger] themes[i])
                    && highlight::picked(themes) == Some(themes[i].name@)
        },
{
    if themes.len() > 0 {
        lemma_first_light(themes);
        assert(themes[0].name@ == themes[0].name@);
        assert(highlight::has_theme(themes, themes[0].name@));
    } else {
        assert(highlight::first_light(themes) is None);
    }
}

/// The first light theme: it is light, and none before it is.
pub proof fn lemma_first_light(themes: Seq<ThemeEntry>)
    ensures
        highlight::first_light(themes) is Some ==> exists|i: int|
            0 <= i < themes.len() && highlight::is_light(#[trigger] themes[i])
                && themes[i].name@ == highlight::first_light(themes)->0 && forall|k: int|
                0 <= k < i ==> !highlight::is_light(#[trigger] themes[k]),
        highlight::first_light(themes) is None ==> forall|i: int|
            0 <= i < themes.len() ==> !highlight::is_light(#[trigger] themes[i]),
        highlight::first_light(themes) is Some ==> highlight::has_theme(
            themes,
            highlight::first_light(themes)->0,
        ),
    decreases themes.len(),
{
    if themes.len() > 0 && !highlight::is_light(themes[0]) {
        let rest = themes.drop_first();
        lemma_first_light(rest);
        if highlight::first_light(rest) is Some {
            let i = choose|i: int|
                0 <= i < rest.len() && highlight::is_light(#[trigger] rest[i])
                    && rest[i].name@ == highlight::first_light(rest)->0 && forall|k: int|
                    0 <= k < i ==> !highlight::is_light(#[trigger] rest[k]);
            assert(themes[i + 1] == rest[i]);
            assert forall|k: int| 0 <= k < i + 1 implies !highlight::is_light(
                #[trigger] themes[k],
            ) by {
                if k > 0 {
                    assert(rest[k - 1] == themes[k]);
                }
            }
        } else {
            assert forall|i: int| 0 <= i < themes.len() implies !highlight::is_light(
                #[trigger] themes[i],
            ) by {
                if i > 0 {
                    assert(rest[i - 1] == themes[i]);
                }
            }
        }
    } else if themes.len() > 0 {
        assert(highlight::is_light(themes[0]));
    }
}

/// A command is run by its first word, with the other words as they are but for the
/// printer and the file.
pub proof fn a_command_is_run_by_its_words(
    program: Seq<char>,
    args: Seq<Seq<char>>,
    template: Seq<char>,
    printer: Seq<char>,
    file: Seq<char>,
    i: int,
)
    requires
        print::command_is(program, args, template, printer, file),
        0 <= i < args.len(),
    ensures
        util::tokens_of(template).len() == args.len() + 1,
        program == util::tokens_of(template)[0],
        args[i] == print::filled(util::tokens_of(template)[i + 1], printer, file),
{
    let words = util::tokens_of(template);
    assert(words.skip(1)[i] == words[i + 1]);
}

/// A round tries a job with a printer that suits it, and none that was dealt with
/// before.
pub proof fn a_round_tries_what_is_left(
    printers: Seq<PrinterCfg>,
    jobs: Seq<Job>,
    handled: Seq<i64>,
    p: int,
    j: int,
)
    ensures
        run::may_try(printers, jobs, handled, p, j) <==> run::suits(printers[p], jobs[j]) && !(
        exists|i: int| 0 <= i < handled.len() && #[trigger] handled[i] == jobs[j].id),
{
    if handled.contains(jobs[j].id) {
        let i = choose|i: int| 0 <= i < handled.len() && handled[i] == jobs[j].id;
        assert(handled[i] == jobs[j].id);
    }
}

/// A round ends when no printer has a job left to try: what it has not tried was
/// dealt with or suits no printer.
pub proof fn a_round_leaves_nothing_out(
    printers: Seq<PrinterCfg>,
    jobs: Seq<Job>,
    handled: Seq<i64>,
    p: int,
    j: int,
)
    requires
        run::nothing_between(printers, jobs, handled, (0, 0), (printers.len() as int, 0)),
        0 <= p < printers.len(),
        0 <= j < jobs.len(),
    ensures
        handled.contains(jobs[j].id) || !run::suits(printers[p], jobs[j]),
{
    assert(!run::may_try(printers, jobs, handled, p, j));
}

/// A job that is too long is told with its pages and the limit.
pub proof fn long_jobs_are_told(pages: nat, max_pages: nat)
    ensures
        run::too_long(pages, max_pages) == text::decimal_digits(pages) + " pages exceeds limit "@
            + text::decimal_digits(max_pages),
{
}

/// A report tells its status, the pages where they are known and the error where
/// there is one.
pub proof fn a_report_tells_what_happened(
    r: Report,
    status: Seq<char>,
    pages: Option<u32>,
    error: Option<Seq<char>>,
)
    requires
        run::report_is(r, status, pages, error),
    ensures
        r.status@ == status,
        r.pages == pages,
        error is Some <==> r.error is Some,
        error is Some ==> r.error->0@ == error->0,
{
}

/// Naps add up to the whole wait: each is short, none goes past the end, and there is
/// another as long as something is left.
pub proof fn naps_make_up_the_wait(slept: u128, total: u128, r: Option<u64>)
    requires
        call_ensures(run::next_nap, (slept, total), r),
    ensures
        r is Some <==> slept < total,
        r is Some ==> 0 < r->0 <= 200 && slept + r->0 <= total,
        r is Some && slept + r->0 < total ==> r->0 == 200,
{
}

/// Three jobs are fetched for each printer, and never fewer than four.
pub proof fn enough_jobs_are_fetched(printers: usize, r: u128)
    requires
        call_ensures(run::fetch_limit, (printers,), r),
    ensures
        printers < 2 ==> r == 4,
        printers >= 2 ==> r == 3 * printers,
{
}

/// A claim is won, lost or failed, as the server says.
pub proof fn a_claim_ends_as_the_server_says(read: &Result<ClaimOutcome, String>, r: ClaimEvent)
    requires
        call_ensures(run::claim_event, (read,), r),
    ensures
        r is Claimed <==> *read == Ok::<ClaimOutcome, String>(ClaimOutcome::Claimed),
        r is Taken <==> *read == Ok::<ClaimOutcome, String>(ClaimOutcome::Taken),
        r is Failed <==> *read is Err,
{
}

/// The last option ends the choice, the one before it asks for a name, and every other
/// is the queue that stands there.
pub proof fn every_option_can_be_chosen(options: &Vec<String>, choice: usize, r: PrinterChoice)
    requires
        options@.len() >= 2,
        choice < options@.len(),
        call_ensures(setup::read_choice, (options, choice), r),
    ensures
        choice == options@.len() - 1 ==> r is Done,
        choice == options@.len() - 2 ==> r is Custom,
        choice < options@.len() - 2 ==> r is Queue && r->os_id@ == options@[choice as int]@,
{
}

/// A printer is shown by its command, else by its queue, with a warning where the
/// system does not know the queue.
pub proof fn a_missing_queue_is_shown(printer: PrinterCfg, detected: Seq<Seq<char>>)
    ensures
        printer.command is Some ==> doctor::printer_words(printer, detected) == "command `"@
            + printer.command->0@ + "`"@,
        printer.command is None && printer.os_id is None ==> doctor::printer_words(
            printer,
            detected,
        ) == "system default"@,
        printer.command is None && printer.os_id is Some ==> {
            let known = "OS queue '"@ + printer.os_id->0@ + "'"@;
            &&& detected.contains(printer.os_id->0@) ==> doctor::printer_words(printer, detected)
                == known
            &&& !detected.contains(printer.os_id->0@) ==> doctor::printer_words(printer, detected)
                == known + " (not found by lpstat/Get-Printer!)"@
        },
{
    reveal_strlit("");
    if printer.os_id is Some {
        let known = "OS queue '"@ + printer.os_id->0@ + "'"@;
        assert(known + ""@ =~= known);
    }
}

/// A claim that is refused with the code for a conflict was won by another; any other
/// refusal, and no answer, is a failure that tells its cause.
pub proof fn a_conflict_means_the_job_is_taken(reply: &Reply, r: Result<ClaimOutcome, String>)
    requires
        call_ensures(api::read_claim, (reply,), r),
    ensures
        *reply is Done ==> r is Ok && r->Ok_0 is Claimed,
        *reply matches Reply::Refused { code, .. } ==> (code == 409 <==> r is Ok),
        *reply is Refused && r is Ok ==> r->Ok_0 is Taken,
        *reply is Unreached ==> r is Err,
        r is Err ==> r->Err_0@ == api::problem_of(*reply),
{
}

/// A document that was not made, or has too many pages, is reported as failed, and any
/// other is printed.
pub proof fn long_documents_are_not_printed(
    rendered: &Result<usize, String>,
    max_pages: u32,
    r: Option<Report>,
)
    requires
        call_ensures(run::after_render, (rendered, max_pages), r),
    ensures
        *rendered is Err ==> r is Some && r->0.status@ == "failed"@ && r->0.error is Some
            && r->0.error->0@ == "render error: "@ + (*rendered)->Err_0@,
        *rendered is Ok && (*rendered)->Ok_0 <= max_pages ==> r is None,
        *rendered is Ok && max_pages < (*rendered)->Ok_0 <= u32::MAX ==> {
            &&& r is Some && r->0.status@ == "failed"@
            &&& r->0.pages == Some((*rendered)->Ok_0 as u32)
            &&& r->0.error is Some
        },
{
}

/// The client starts with a server and a printer, and not without either.
pub proof fn a_client_needs_a_server_and_a_printer<F>(cfg: &Config<F>, r: Result<(), String>)
    requires
        call_ensures(run::check_config::<F>, (cfg,), r),
    ensures
        r is Ok <==> cfg.servers@.len() > 0 && cfg.printers@.len() > 0,
{
}

/// Where a document goes: into the folder that is named, else through the command that is
/// set, else to the system's own program.
pub proof fn a_document_goes_where_its_printer_says(
    printer: &PrinterCfg,
    file: &str,
    windows: bool,
    r: Result<PrintAction, String>,
)
    requires
        call_ensures(print::print_pdf, (printer, file, windows), r),
    ensures
        print::sink_of(*printer) is Some ==> r is Ok && r->Ok_0 is Folder && r->Ok_0->dir@
            == print::sink_of(*printer)->0,
        print::sink_of(*printer) is None && printer.command is None && windows ==> r is Ok
            && r->Ok_0 is Silent && text::views(r->Ok_0->Silent_args@) == print::sumatra_words(
            text::opt_view(printer.os_id),
            file@,
        ),
        print::sink_of(*printer) is None && printer.command is None && !windows ==> r is Ok
            && r->Ok_0 is Run && r->Ok_0->program@ == "lp"@ && text::views(r->Ok_0->Run_args@)
            == print::lp_words(text::opt_view(printer.os_id), file@),
        print::sink_of(*printer) is None && printer.command is Some ==> {
            let words = util::tokens_of(printer.command->0@);
            &&& r is Ok <==> words.len() > 0
            &&& r is Ok ==> r->Ok_0 is Run && print::command_is(
                r->Ok_0->program@,
                text::views(r->Ok_0->Run_args@),
                printer.command->0@,
                print::printer_id(*printer),
                file@,
            )
        },
{
}

/// A printer is found by its name; without a name the first one is taken.
pub proof fn a_printer_is_found_by_its_name(
    printers: &Vec<PrinterCfg>,
    name: &Option<String>,
    r: Option<usize>,
)
    requires
        call_ensures(doctor::choose_printer, (printers, name), r),
    ensures
        *name is Some && r is Some ==> r->0 < printers@.len() && printers@[r->0 as int].name@
            == (*name)->0@,
        *name is Some ==> (r is Some <==> exists|k: int|
            0 <= k < printers@.len() && (#[trigger] printers@[k]).name@ == (*name)->0@),
        *name is None ==> (r is Some <==> printers@.len() > 0),
        *name is None && r is Some ==> r->0 == 0,
{
}

/// A printer with a command of its own, and one with a queue.
pub proof fn printers_are_set_up_as_told(
    name: &str,
    command: &str,
    os_id: String,
    custom: PrinterCfg,
    queue: PrinterCfg,
)
    requires
        call_ensures(setup::custom_printer, (name, command), custom),
        call_ensures(setup::queue_printer, (name, os_id), queue),
    ensures
        custom.name@ == text::trim_spec(name@) && queue.name@ == text::trim_spec(name@),
        custom.os_id is None && custom.command is Some && custom.command->0@ == text::trim_spec(
            command@,
        ),
        queue.command is None && queue.os_id is Some && queue.os_id->0@ == os_id@,
{
}

/// Requests go to the station's addresses of the server, and tell what they are about.
pub proof fn requests_tell_what_they_are_about(
    server: &ServerClient,
    id: i64,
    station: &str,
    printer: &str,
    printers: &Vec<String>,
    location: &Option<String>,
    queue_seen: i64,
    limit: u128,
    beat: Heartbeat,
    jobs: JobsRequest,
    claim: ClaimRequest,
)
    requires
        call_ensures(ServerClient::heartbeat, (server, station, printers, location, queue_seen), beat),
        call_ensures(ServerClient::fetch_jobs, (server, location, limit), jobs),
        call_ensures(ServerClient::claim, (server, id, station, printer), claim),
    ensures
        beat.url@ == server.base@ + "/stations/heartbeat"@,
        beat.station@ == station@ && beat.queue_seen == queue_seen,
        text::views(beat.printers@) == text::views(printers@),
        text::opt_view(beat.location) == text::opt_view(*location),
        jobs.url@ == server.base@ + "/stations/jobs"@,
        jobs.limit@ == text::decimal_digits(limit as nat),
        text::opt_view(jobs.location) == text::opt_view(*location),
        claim.url@ == server.base@ + ("/stations/jobs/"@ + text::decimal_int(id as int)
            + "/claim"@),
        claim.station@ == station@ && claim.printer@ == printer@,
{
}

/// A printed document is reported as done, and one that was not with the cause; both with
/// their pages.
pub proof fn what_was_printed_is_done(pages: usize, printed: &Result<(), String>, r: Report)
    requires
        call_ensures(run::after_print, (pages, printed), r),
        pages <= u32::MAX,
    ensures
        *printed is Ok <==> r.status@ == "done"@,
        *printed is Err <==> r.status@ == "failed"@,
        r.pages == Some(pages as u32),
        r.error is Some <==> *printed is Err,
        r.error is Some ==> r.error->0@ == (*printed)->Err_0@,
{
    reveal_strlit("done");
    reveal_strlit("failed");
    assert("done"@.len() == 4);
    assert("failed"@.len() == 6);
}

/// A page tells its number and how many there are.
pub proof fn a_page_tells_its_number(page: usize, total: usize, r: String)
    requires
        call_ensures(pdf::footer_right, (page, total), r),
    ensures
        r@ == "page "@ + text::decimal_digits(page as nat) + " of "@ + text::decimal_digits(
            total as nat,
        ),
{
}

/// A document tells its job, in the title and, with the time, at the foot of each page.
pub proof fn a_document_tells_its_job(meta: &DocMeta, title: String, foot: String)
    requires
        call_ensures(pdf::title, (meta,), title),
        call_ensures(pdf::footer_center, (meta,), foot),
    ensures
        title@ == "print-"@ + text::decimal_int(meta.job_id as int),
        foot@ == "#"@ + text::decimal_int(meta.job_id as int) + "  \u{b7}  "@ + meta.when@,
{
}

/// Only the first row of a line shows its number.
pub proof fn numbered_rows_show_their_number(row: &VisualLine, r: Option<String>)
    requires
        call_ensures(pdf::gutter, (row,), r),
    ensures
        r is Some <==> row.number is Some,
        r is Some ==> r->0@ == text::decimal_digits(row.number->0 as nat),
{
}

/// A place is kept as it was typed, where anything was.
pub proof fn a_place_is_kept_where_one_is_told(answer: String, r: Option<String>)
    requires
        call_ensures(setup::location_of, (answer,), r),
    ensures
        r is Some <==> text::trim_spec(answer@).len() > 0,
        r is Some ==> r->0@ == answer@,
{
}

/// A server's address and token are kept without white space around them, and the address
/// without slashes at its end.
pub proof fn a_server_is_kept_as_told(url: &str, token: &str, r: ServerCfg)
    requires
        call_ensures(setup::server_of, (url, token), r),
    ensures
        r.url@ == api::without_slashes(text::trim_spec(url@)),
        r.token@ == text::trim_spec(token@),
{
}

/// A request is done where the server says so, and else its problem is told.
pub proof fn a_request_is_done_where_the_server_says_so(reply: &Reply, r: Result<(), String>)
    requires
        call_ensures(api::read_done, (reply,), r),
    ensures
        r is Ok <==> *reply is Done,
        r is Err ==> r->Err_0@ == api::problem_of(*reply),
{
}

} // verus!
