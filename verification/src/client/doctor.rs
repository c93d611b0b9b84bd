//! What the station says of its printers, and its test page.

use vstd::prelude::*;

use crate::client::config::PrinterCfg;
use crate::client::pdf::DocMeta;
use crate::text::{concat, concat3, list_contains, str_eq};
use crate::text;

verus! {

pub const TEST_SOURCE: &'static str = "// broccoli print-client test page\n#include <iostream>\nint main() {\n    std::cout << \"If you can read this, printing works!\" << std::endl;\n    for (int i = 0; i < 3; i++) std::cout << i << \" \";\n    return 0;\n}\n";

/// How a printer prints, in words.
pub open spec fn printer_words(printer: PrinterCfg, detected: Seq<Seq<char>>) -> Seq<char> {
    match printer.command {
        Some(cmd) => "command `"@ + cmd@ + "`"@,
        None => match printer.os_id {
            Some(id) => "OS queue '"@ + id@ + "'"@ + if detected.contains(id@) {
                ""@
            } else {
                " (not found by lpstat/Get-Printer!)"@
            },
            None => "system default"@,
        },
    }
}

pub fn describe_printer(printer: &PrinterCfg, detected: &Vec<String>) -> (r: String)
    ensures
        r@ == printer_words(*printer, text::views(detected@)),
{
    match &printer.command {
        Some(cmd) => concat3("command `", cmd.as_str(), "`"),
        None => match &printer.os_id {
            Some(id) => {
                let start = concat3("OS queue '", id.as_str(), "'");
                if list_contains(detected, id.as_str()) {
                    concat(start.as_str(), "")
                } else {
                    concat(start.as_str(), " (not found by lpstat/Get-Printer!)")
                }
            },
            None => "system default".to_owned(),
        },
    }
}

/// What is printed around the test page.
pub fn test_meta(banner: &str, station: &str) -> (r: DocMeta)
    ensures
        r.banner@ == banner@,
        text::opt_view(r.problem_label) == Some("TEST"@),
        r.who@ == station@,
        r.filename@ == "test-page.cpp"@,
        r.when@.len() == 0,
        r.job_id == 0,
{
    DocMeta {
        banner: banner.to_owned(),
        problem_label: Some("TEST".to_owned()),
        who: station.to_owned(),
        filename: "test-page.cpp".to_owned(),
        when: String::new(),
        job_id: 0,
    }
}

/// The language of a file, by its extension.
pub open spec fn language_of(extension: Seq<char>) -> Seq<char> {
    let e = extension;
    if e == "cpp"@ || e == "cc"@ || e == "cxx"@ || e == "hpp"@ || e == "h"@ {
        "cpp"@
    } else if e == "c"@ {
        "c"@
    } else if e == "py"@ {
        "python3"@
    } else if e == "java"@ {
        "java"@
    } else if e == "js"@ || e == "mjs"@ {
        "javascript"@
    } else if e == "ts"@ {
        "typescript"@
    } else if e == "rs"@ {
        "rust"@
    } else if e == "go"@ {
        "go"@
    } else if e == "kt"@ {
        "kotlin"@
    } else {
        "text"@
    }
}

pub fn infer_language(extension: &str) -> (r: &'static str)
    ensures
        r@ == language_of(extension@),
{
    let e = extension;
    if str_eq(e, "cpp") || str_eq(e, "cc") || str_eq(e, "cxx") || str_eq(e, "hpp") || str_eq(
        e,
        "h",
    ) {
        "cpp"
    } else if str_eq(e, "c") {
        "c"
    } else if str_eq(e, "py") {
        "python3"
    } else if str_eq(e, "java") {
        "java"
    } else if str_eq(e, "js") || str_eq(e, "mjs") {
        "javascript"
    } else if str_eq(e, "ts") {
        "typescript"
    } else if str_eq(e, "rs") {
        "rust"
    } else if str_eq(e, "go") {
        "go"
    } else if str_eq(e, "kt") {
        "kotlin"
    } else {
        "text"
    }
}

/// The printer for a test: the first of a name, or the first of all.
pub fn choose_printer(printers: &Vec<PrinterCfg>, name: &Option<String>) -> (r: Option<usize>)
    ensures
        match *name {
            Some(n) => match r {
                Some(i) => i < printers@.len() && printers@[i as int].name@ == n@ && forall|k: int|
                    0 <= k < i ==> (#[trigger] printers@[k]).name@ != n@,
                None => forall|k: int|
                    0 <= k < printers@.len() ==> (#[trigger] printers@[k]).name@ != n@,
            },
            None => r == if printers@.len() > 0 {
                Some(0usize)
            } else {
                None
            },
        },
{
    match name {
        Some(n) => {
            let mut i: usize = 0;
            while i < printers.len()
                invariant
                    i <= printers@.len(),
                    *name == Some(*n),
                    forall|k: int| 0 <= k < i ==> (#[trigger] printers@[k]).name@ != n@,
                decreases printers@.len() - i,
            {
                if str_eq(printers[i].name.as_str(), n.as_str()) {
                    return Some(i);
                }
                i += 1;
            }
            None
        },
        None => if printers.len() > 0 {
            Some(0)
        } else {
            None
        },
    }
}

} // verus!
