//! How a station prints: into a folder, by a command template, or by the
//! system's own means.

use vstd::prelude::*;

use crate::checkers::util::{split_lines, tokenize};
use crate::client::config::PrinterCfg;
use crate::text::{chars_of, concat, concat3, stands, starts_with, string_of_range, trim};
use crate::text;
use crate::checkers::util;

verus! {

// ---------------------------------------------------------------------------
// Where a printer prints
// ---------------------------------------------------------------------------

/// The folder that a setting names.
pub open spec fn folder_of(setting: Option<String>) -> Option<Seq<char>> {
    match setting {
        Some(v) => if text::has_prefix(v@, "folder:"@) {
            Some(text::trim_spec(v@.skip("folder:"@.len() as int)))
        } else {
            None
        },
        None => None,
    }
}

/// The folder that a printer writes to, by its command or else by its queue.
pub open spec fn sink_of(printer: PrinterCfg) -> Option<Seq<char>> {
    if folder_of(printer.command) is Some {
        folder_of(printer.command)
    } else {
        folder_of(printer.os_id)
    }
}

fn folder(setting: &Option<String>) -> (r: Option<String>)
    ensures
        text::opt_view(r) == folder_of(*setting),
{
    match setting {
        Some(v) => {
            if !starts_with(v.as_str(), "folder:") {
                return None;
            }
            let chars = chars_of(v.as_str());
            let prefix = chars_of("folder:");
            let rest = string_of_range(&chars, prefix.len(), chars.len());
            assert(chars@.subrange(prefix@.len() as int, chars@.len() as int) =~= v@.skip(
                prefix@.len() as int,
            ));
            Some(trim(rest.as_str()))
        },
        None => None,
    }
}

/// The folder that a printer writes to, where it is no real printer.
pub fn sink_dir(printer: &PrinterCfg) -> (r: Option<String>)
    ensures
        text::opt_view(r) == sink_of(*printer),
{
    match folder(&printer.command) {
        Some(dir) => Some(dir),
        None => folder(&printer.os_id),
    }
}

// ---------------------------------------------------------------------------
// Command templates
// ---------------------------------------------------------------------------

/// A text with every occurrence of `from` replaced, from left to right.
pub open spec fn replaced(s: Seq<char>, from: Seq<char>, to: Seq<char>) -> Seq<char>
    decreases s.len(),
{
    if s.len() == 0 || from.len() == 0 {
        s
    } else if text::has_prefix(s, from) {
        to + replaced(s.skip(from.len() as int), from, to)
    } else {
        seq![s[0]] + replaced(s.skip(1), from, to)
    }
}

fn replace(s: &str, from: &str, to: &str) -> (r: String)
    requires
        from@.len() > 0,
    ensures
        r@ == replaced(s@, from@, to@),
{
    let chars = chars_of(s);
    let mark = chars_of(from);
    let mut out = String::new();
    let mut i: usize = 0;
    assert(s@.skip(0) =~= s@);
    assert(out@ + replaced(s@, from@, to@) =~= replaced(s@, from@, to@));
    while i < chars.len()
        invariant
            i <= chars@.len(),
            chars@ == s@,
            mark@ == from@,
            from@.len() > 0,
            out@ + replaced(s@.skip(i as int), from@, to@) == replaced(s@, from@, to@),
        decreases chars@.len() - i,
    {
        let ghost rest = s@.skip(i as int);
        let ghost out0 = out@;
        if stands(chars.as_slice(), mark.as_slice(), i) {
            proof {
                assert(s@.subrange(i as int, i + from@.len()) =~= rest.subrange(
                    0,
                    from@.len() as int,
                ));
                assert(text::has_prefix(rest, from@));
                assert(rest.skip(from@.len() as int) =~= s@.skip(i + from@.len()));
            }
            out.append(to);
            assert(out@ + replaced(s@.skip(i + from@.len()), from@, to@) =~= out0 + (to@
                + replaced(s@.skip(i + from@.len()), from@, to@)));
            i += mark.len();
        } else {
            proof {
                if text::has_prefix(rest, from@) {
                    assert(s@.subrange(i as int, i + from@.len()) =~= rest.subrange(
                        0,
                        from@.len() as int,
                    ));
                    assert(text::stands_at(s@, from@, i as int));
                }
                assert(rest.skip(1) =~= s@.skip(i as int + 1));
                assert(rest[0] == s@[i as int]);
            }
            out.push(chars[i]);
            assert(out@ + replaced(s@.skip(i as int + 1), from@, to@) =~= out0 + (seq![
                s@[i as int],
            ] + replaced(s@.skip(i as int + 1), from@, to@)));
            i += 1;
        }
    }
    assert(s@.skip(i as int) =~= Seq::<char>::empty());
    assert(out@ + Seq::<char>::empty() =~= out@);
    out
}

/// What a printer is called in a command: its queue, or else its name.
pub open spec fn printer_id(printer: PrinterCfg) -> Seq<char> {
    match printer.os_id {
        Some(id) => id@,
        None => printer.name@,
    }
}

/// One word of a command with its marks filled in.
pub open spec fn filled(word: Seq<char>, printer: Seq<char>, file: Seq<char>) -> Seq<char> {
    replaced(replaced(word, "{printer}"@, printer), "{file}"@, file)
}

/// The words of a template: the program, then its arguments with the marks
/// filled in. Words are split first, so what is filled in may hold spaces.
pub open spec fn command_is(
    program: Seq<char>,
    args: Seq<Seq<char>>,
    template: Seq<char>,
    printer: Seq<char>,
    file: Seq<char>,
) -> bool {
    let words = util::tokens_of(template);
    &&& words.len() > 0
    &&& program == words[0]
    &&& args == words.skip(1).map_values(|w: Seq<char>| filled(w, printer, file))
}

/// How to print a file.
#[derive(Debug, Clone, PartialEq, Eq)]
pub enum PrintAction {
    /// Copy the file into a folder.
    Folder { dir: String },
    /// Run a program.
    Run { program: String, args: Vec<String> },
    /// Run the bundled silent printer.
    Silent { args: Vec<String> },
}

/// The command that a template stands for; nothing where it is blank.
pub fn run_template(template: &str, printer: &PrinterCfg, file: &str) -> (r: Result<
    PrintAction,
    String,
>)
    ensures
        match r {
            Ok(PrintAction::Run { program, args }) => command_is(
                program@,
                text::views(args@),
                template@,
                printer_id(*printer),
                file@,
            ),
            Ok(_) => false,
            Err(e) => util::tokens_of(template@).len() == 0 && e@ == "empty print command for printer '"@
                + printer.name@ + "'"@,
        },
{
    let words = tokenize(template);
    assert(text::views(words@).len() == words@.len());
    if words.len() == 0 {
        return Err(concat3("empty print command for printer '", printer.name.as_str(), "'"));
    }
    let id: &str = match &printer.os_id {
        Some(id) => id.as_str(),
        None => printer.name.as_str(),
    };
    proof {
        reveal_strlit("{printer}");
        reveal_strlit("{file}");
    }
    let mut args: Vec<String> = Vec::new();
    let mut i: usize = 1;
    while i < words.len()
        invariant
            1 <= i <= words@.len(),
            id@ == printer_id(*printer),
            "{printer}"@.len() > 0,
            "{file}"@.len() > 0,
            args@.len() == i - 1,
            forall|k: int|
                0 <= k < args@.len() ==> (#[trigger] args@[k])@ == filled(
                    words@[k + 1]@,
                    id@,
                    file@,
                ),
        decreases words@.len() - i,
    {
        let first = replace(words[i].as_str(), "{printer}", id);
        let both = replace(first.as_str(), "{file}", file);
        args.push(both);
        i += 1;
    }
    let program = words[0].as_str().to_owned();
    proof {
        let all = text::views(words@);
        assert(text::views(args@) =~= all.skip(1).map_values(
            |w: Seq<char>| filled(w, printer_id(*printer), file@),
        ));
    }
    Ok(PrintAction::Run { program, args })
}

// ---------------------------------------------------------------------------
// The system's own means
// ---------------------------------------------------------------------------

/// The arguments of `lp`.
pub open spec fn lp_words(os_id: Option<Seq<char>>, file: Seq<char>) -> Seq<Seq<char>> {
    match os_id {
        Some(p) => if p.len() > 0 {
            seq!["-d"@, p, file]
        } else {
            seq![file]
        },
        None => seq![file],
    }
}

pub fn lp_args(os_id: &Option<String>, file: &str) -> (r: Vec<String>)
    ensures
        text::views(r@) == lp_words(text::opt_view(*os_id), file@),
{
    let mut args: Vec<String> = Vec::new();
    if let Some(p) = os_id {
        if !p.as_str().is_empty() {
            args.push("-d".to_owned());
            args.push(p.as_str().to_owned());
        }
    }
    args.push(file.to_owned());
    assert(text::views(args@) =~= lp_words(text::opt_view(*os_id), file@));
    args
}

/// The arguments of the bundled silent printer.
pub open spec fn sumatra_words(os_id: Option<Seq<char>>, file: Seq<char>) -> Seq<Seq<char>> {
    match os_id {
        Some(p) => if p.len() > 0 {
            seq!["-print-to"@, p, "-silent"@, file]
        } else {
            seq!["-print-to-default"@, "-silent"@, file]
        },
        None => seq!["-print-to-default"@, "-silent"@, file],
    }
}

pub fn sumatra_args(os_id: Option<&str>, file: &str) -> (r: Vec<String>)
    ensures
        text::views(r@) == sumatra_words(
            match os_id {
                Some(p) => Some(p@),
                None => None,
            },
            file@,
        ),
{
    let mut args: Vec<String> = Vec::new();
    match os_id {
        Some(p) => {
            if p.is_empty() {
                args.push("-print-to-default".to_owned());
            } else {
                args.push("-print-to".to_owned());
                args.push(p.to_owned());
            }
        },
        None => {
            args.push("-print-to-default".to_owned());
        },
    }
    args.push("-silent".to_owned());
    args.push(file.to_owned());
    assert(text::views(args@) =~= sumatra_words(
        match os_id {
            Some(p) => Some(p@),
            None => None,
        },
        file@,
    ));
    args
}

/// Decides how a printer prints a file.
pub fn print_pdf(printer: &PrinterCfg, file: &str, windows: bool) -> (r: Result<
    PrintAction,
    String,
>)
    ensures
        match r {
            Ok(PrintAction::Folder { dir }) => sink_of(*printer) == Some(dir@),
            Ok(PrintAction::Run { program, args }) => {
                &&& sink_of(*printer) is None
                &&& match printer.command {
                    Some(template) => command_is(
                        program@,
                        text::views(args@),
                        template@,
                        printer_id(*printer),
                        file@,
                    ),
                    None => !windows && program@ == "lp"@ && text::views(args@) == lp_words(
                        text::opt_view(printer.os_id),
                        file@,
                    ),
                }
            },
            Ok(PrintAction::Silent { args }) => {
                &&& sink_of(*printer) is None
                &&& printer.command is None
                &&& windows
                &&& text::views(args@) == sumatra_words(text::opt_view(printer.os_id), file@)
            },
            Err(e) => {
                &&& sink_of(*printer) is None
                &&& match printer.command {
                    Some(template) => util::tokens_of(template@).len() == 0,
                    None => false,
                }
                &&& e@ == "empty print command for printer '"@ + printer.name@ + "'"@
            },
        },
{
    if let Some(dir) = sink_dir(printer) {
        return Ok(PrintAction::Folder { dir });
    }
    match &printer.command {
        Some(template) => run_template(template.as_str(), printer, file),
        None => if windows {
            let target: Option<&str> = match &printer.os_id {
                Some(p) => Some(p.as_str()),
                None => None,
            };
            Ok(PrintAction::Silent { args: sumatra_args(target, file) })
        } else {
            Ok(
                PrintAction::Run {
                    program: "lp".to_owned(),
                    args: lp_args(&printer.os_id, file),
                },
            )
        },
    }
}

// ---------------------------------------------------------------------------
// The printers of the system
// ---------------------------------------------------------------------------

/// The first words of the lines that have one.
pub open spec fn first_words(lines: Seq<Seq<char>>) -> Seq<Seq<char>>
    decreases lines.len(),
{
    if lines.len() == 0 {
        seq![]
    } else {
        let words = util::tokens_of(lines[0]);
        if words.len() > 0 {
            seq![words[0]] + first_words(lines.skip(1))
        } else {
            first_words(lines.skip(1))
        }
    }
}

/// The lines without the white characters around them, where any are left.
pub open spec fn trimmed_names(lines: Seq<Seq<char>>) -> Seq<Seq<char>>
    decreases lines.len(),
{
    if lines.len() == 0 {
        seq![]
    } else if text::trim_spec(lines[0]).len() > 0 {
        seq![text::trim_spec(lines[0])] + trimmed_names(lines.skip(1))
    } else {
        trimmed_names(lines.skip(1))
    }
}

/// The printers that `lpstat -a` lists.
pub fn printers_of_lpstat(output: &str) -> (r: Vec<String>)
    ensures
        text::views(r@) == first_words(util::lines_of(output@)),
{
    let lines = split_lines(output);
    let ghost all = text::views(lines@);
    let mut out: Vec<String> = Vec::new();
    let mut i: usize = 0;
    assert(all.skip(0) =~= all);
    assert(text::views(out@) + first_words(all) =~= first_words(all));
    while i < lines.len()
        invariant
            i <= lines@.len(),
            all == text::views(lines@),
            text::views(out@) + first_words(all.skip(i as int)) == first_words(all),
        decreases lines@.len() - i,
    {
        let ghost out0 = out@;
        let words = tokenize(lines[i].as_str());
        proof {
            assert(all.skip(i as int)[0] == lines@[i as int]@);
            assert(all.skip(i as int).skip(1) =~= all.skip(i as int + 1));
            assert(text::views(words@).len() == words@.len());
        }
        if words.len() > 0 {
            let name = words[0].as_str().to_owned();
            let ghost n = name@;
            out.push(name);
            proof {
                assert(text::views(out@) =~= text::views(out0).push(n));
                assert(text::views(out@) + first_words(all.skip(i as int + 1))
                    =~= text::views(out0) + (seq![n]
                    + first_words(all.skip(i as int + 1))));
            }
        }
        i += 1;
    }
    assert(all.skip(i as int) =~= Seq::<Seq<char>>::empty());
    assert(text::views(out@) + Seq::<Seq<char>>::empty() =~= text::views(out@));
    out
}

/// The printers that `Get-Printer` lists, one in a line.
pub fn printers_of_listing(output: &str) -> (r: Vec<String>)
    ensures
        text::views(r@) == trimmed_names(util::lines_of(output@)),
{
    let lines = split_lines(output);
    let ghost all = text::views(lines@);
    let mut out: Vec<String> = Vec::new();
    let mut i: usize = 0;
    assert(all.skip(0) =~= all);
    assert(text::views(out@) + trimmed_names(all) =~= trimmed_names(all));
    while i < lines.len()
        invariant
            i <= lines@.len(),
            all == text::views(lines@),
            text::views(out@) + trimmed_names(all.skip(i as int)) == trimmed_names(all),
        decreases lines@.len() - i,
    {
        let ghost out0 = out@;
        let name = trim(lines[i].as_str());
        let ghost n = name@;
        proof {
            assert(all.skip(i as int)[0] == lines@[i as int]@);
            assert(all.skip(i as int).skip(1) =~= all.skip(i as int + 1));
        }
        if !name.as_str().is_empty() {
            out.push(name);
            proof {
                assert(text::views(out@) =~= text::views(out0).push(n));
                assert(text::views(out@) + trimmed_names(all.skip(i as int + 1))
                    =~= text::views(out0) + (seq![
                    n,
                ] + trimmed_names(all.skip(i as int + 1))));
            }
        }
        i += 1;
    }
    assert(all.skip(i as int) =~= Seq::<Seq<char>>::empty());
    assert(text::views(out@) + Seq::<Seq<char>>::empty() =~= text::views(out@));
    out
}

/// How the bundled silent printer stands, where the system needs one: its path,
/// or why it could not be set up.
pub fn silent_helper_status(helper: &Option<Result<String, String>>) -> (r: Option<String>)
    ensures
        match *helper {
            Some(Ok(path)) => text::opt_view(r) == Some("bundled SumatraPDF ready ("@ + path@ + ")"@),
            Some(Err(e)) => text::opt_view(r) == Some("bundled SumatraPDF unavailable: "@ + e@),
            None => r is None,
        },
{
    match helper {
        Some(Ok(path)) => Some(concat3("bundled SumatraPDF ready (", path.as_str(), ")")),
        Some(Err(e)) => Some(concat("bundled SumatraPDF unavailable: ", e.as_str())),
        None => None,
    }
}

// ---------------------------------------------------------------------------
// Laws
// ---------------------------------------------------------------------------

/// A text that holds no mark is kept as it is.
pub proof fn text_without_marks_is_kept(s: Seq<char>, from: Seq<char>, to: Seq<char>)
    requires
        forall|i: int| !(#[trigger] text::stands_at(s, from, i)),
    ensures
        replaced(s, from, to) == s,
    decreases s.len(),
{
    if s.len() > 0 && from.len() > 0 {
        assert(!text::stands_at(s, from, 0));
        let rest = s.skip(1);
        assert forall|i: int| !(#[trigger] text::stands_at(rest, from, i)) by {
            if text::stands_at(rest, from, i) {
                assert(rest.subrange(i, i + from.len()) =~= s.subrange(i + 1, i + 1 + from.len()));
                assert(text::stands_at(s, from, i + 1));
            }
        }
        text_without_marks_is_kept(rest, from, to);
        assert(seq![s[0]] + rest =~= s);
    }
}

/// A mark that stands alone gives way to what it stands for.
pub proof fn a_lone_mark_is_filled(from: Seq<char>, to: Seq<char>)
    requires
        from.len() > 0,
    ensures
        replaced(from, from, to) == to,
{
    assert(from.subrange(0, from.len() as int) =~= from);
    assert(text::has_prefix(from, from));
    let rest = from.skip(from.len() as int);
    assert(rest =~= seq![]);
    assert(replaced(rest, from, to) =~= seq![]);
    assert(to + Seq::<char>::empty() =~= to);
}

/// A folder sink never runs a program.
pub proof fn folders_run_nothing(printer: PrinterCfg)
    requires
        printer.command matches Some(c) && text::has_prefix(c@, "folder:"@),
    ensures
        sink_of(printer) is Some,
{
}

} // verus!
