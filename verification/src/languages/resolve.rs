//! Resolution of a submission's files into compile and run commands.

use vstd::prelude::*;

use crate::languages::path::file_stem;
use crate::text::{concat, push_all, push_text, str_eq};
use crate::languages::path;
use crate::text;

verus! {

/// A language as it is offered to authors.
#[derive(Debug, Clone, PartialEq, Eq)]
pub struct LanguageMeta {
    pub id: String,
    pub display_name: String,
    pub default_filename: String,
    pub extensions: Vec<String>,
    pub template: String,
}

pub const LANGUAGE_IDS: [&'static str; 4] = ["c", "cpp", "python3", "java"];

/// Process count that the Java virtual machine needs to start.
pub const JAVA_MIN_PROCESS_LIMIT: u32 = 64;

/// A file that accompanies the submission.
#[derive(Debug, Clone, PartialEq, Eq)]
pub struct FileRef {
    pub filename: String,
    pub content_type: Option<String>,
}

/// The caller's choice of compiler and flags.
#[derive(Debug, Clone, PartialEq, Eq)]
pub struct CompilerOverrides {
    pub compiler: Option<String>,
    pub flags: Option<Vec<String>>,
}

/// The configured tools of a language.
#[derive(Debug, Clone, PartialEq, Eq)]
pub struct LanguageCompilationConfig {
    pub compiler: Option<String>,
    pub interpreter: Option<String>,
    pub runner: Option<String>,
    pub flags: Option<Vec<String>>,
}

/// A problem's own entry point and compile flags for a language.
#[derive(Debug, Clone, PartialEq, Eq)]
pub struct EntryPointConfig {
    pub entry_point: Option<String>,
    pub extra_compile_flags: Option<Vec<String>>,
}

#[derive(Debug, Clone, PartialEq, Eq)]
pub struct ResolveLanguageInput {
    pub language_id: String,
    pub submitted_files: Vec<String>,
    pub additional_files: Vec<FileRef>,
    pub problem_id: Option<i32>,
    pub contest_id: Option<i32>,
    pub overrides: Option<CompilerOverrides>,
}

/// What a compilation leaves behind.
#[derive(Debug, Clone, PartialEq, Eq)]
pub enum OutputSpec {
    File(String),
    Glob(String),
}

impl OutputSpec {
    pub open spec fn name(self) -> Seq<char> {
        match self {
            OutputSpec::File(f) => f@,
            OutputSpec::Glob(g) => g@,
        }
    }
}

/// Limits that a language sets on its own compilation.
#[derive(Debug, Clone, PartialEq, Eq)]
pub struct CompileLimits {
    pub memory_limit: Option<u32>,
    pub process_limit: Option<u32>,
}

#[derive(Debug, Clone, PartialEq, Eq)]
pub struct CompileSpec {
    pub command: Vec<String>,
    pub cache_inputs: Vec<String>,
    pub outputs: Vec<OutputSpec>,
    pub resource_limits: Option<CompileLimits>,
}

#[derive(Debug, Clone, PartialEq, Eq)]
pub struct RunSpec {
    pub command: Vec<String>,
    pub extra_files: Vec<String>,
    pub min_process_limit: Option<u32>,
}

#[derive(Debug, Clone, PartialEq, Eq)]
pub struct ResolveLanguageOutput {
    pub compile: Option<CompileSpec>,
    pub run: RunSpec,
}

// ---------------------------------------------------------------------------
// The languages
// ---------------------------------------------------------------------------

fn meta(
    id: &str,
    display_name: &str,
    default_filename: &str,
    extensions: Vec<String>,
    template: &str,
) -> (r: LanguageMeta)
    ensures
        r.id@ == id@,
        r.display_name@ == display_name@,
        r.default_filename@ == default_filename@,
        r.extensions == extensions,
        r.template@ == template@,
{
    LanguageMeta {
        id: id.to_owned(),
        display_name: display_name.to_owned(),
        default_filename: default_filename.to_owned(),
        extensions,
        template: template.to_owned(),
    }
}

fn one(s: &str) -> (r: Vec<String>)
    ensures
        text::views(r@) == seq![s@],
{
    let mut out: Vec<String> = Vec::new();
    push_text(&mut out, s);
    assert(text::views(out@) =~= seq![s@]);
    out
}

pub open spec fn meta_is(
    m: LanguageMeta,
    id: Seq<char>,
    display_name: Seq<char>,
    default_filename: Seq<char>,
    extensions: Seq<Seq<char>>,
    template: Seq<char>,
) -> bool {
    &&& m.id@ == id
    &&& m.display_name@ == display_name
    &&& m.default_filename@ == default_filename
    &&& text::views(m.extensions@) == extensions
    &&& m.template@ == template
}

/// The languages on offer, in the order of their ids in `LANGUAGE_IDS`.
pub fn languages() -> (r: Vec<LanguageMeta>)
    ensures
        r@.len() == 4,
        meta_is(
            r@[0],
            "c"@,
            "C"@,
            "solution.c"@,
            seq!["c"@],
            "#include <stdio.h>\n\nint main() {\n    // Your code here\n    return 0;\n}\n"@,
        ),
        meta_is(
            r@[1],
            "cpp"@,
            "C++"@,
            "solution.cpp"@,
            seq!["cpp"@, "cc"@, "cxx"@, "c++"@],
            "#include <iostream>\nusing namespace std;\n\nint main() {\n    // Your code here\n    return 0;\n}\n"@,
        ),
        meta_is(
            r@[2],
            "python3"@,
            "Python 3"@,
            "solution.py"@,
            seq!["py"@],
            "# Your code here\n"@,
        ),
        meta_is(
            r@[3],
            "java"@,
            "Java"@,
            "Main.java"@,
            seq!["java"@],
            "public class Main {\n    public static void main(String[] args) {\n        // Your code here\n    }\n}\n"@,
        ),
{
    let mut cpp: Vec<String> = Vec::new();
    push_text(&mut cpp, "cpp");
    push_text(&mut cpp, "cc");
    push_text(&mut cpp, "cxx");
    push_text(&mut cpp, "c++");
    assert(text::views(cpp@) =~= seq!["cpp"@, "cc"@, "cxx"@, "c++"@]);
    let mut out: Vec<LanguageMeta> = Vec::new();
    out.push(
        meta(
            "c",
            "C",
            "solution.c",
            one("c"),
            "#include <stdio.h>\n\nint main() {\n    // Your code here\n    return 0;\n}\n",
        ),
    );
    out.push(
        meta(
            "cpp",
            "C++",
            "solution.cpp",
            cpp,
            "#include <iostream>\nusing namespace std;\n\nint main() {\n    // Your code here\n    return 0;\n}\n",
        ),
    );
    out.push(meta("python3", "Python 3", "solution.py", one("py"), "# Your code here\n"));
    out.push(
        meta(
            "java",
            "Java",
            "Main.java",
            one("java"),
            "public class Main {\n    public static void main(String[] args) {\n        // Your code here\n    }\n}\n",
        ),
    );
    out
}

/// The file that holds a submission in this language unless something else is
/// said.
pub open spec fn default_source_of(lang: Seq<char>) -> Seq<char> {
    if lang == "c"@ {
        "solution.c"@
    } else if lang == "cpp"@ {
        "solution.cpp"@
    } else if lang == "python3"@ {
        "solution.py"@
    } else if lang == "java"@ {
        "Main.java"@
    } else {
        ""@
    }
}

pub open spec fn default_basename_of(lang: Seq<char>) -> Seq<char> {
    if lang == "java"@ {
        "Main"@
    } else {
        "solution"@
    }
}

pub fn default_source(lang: &str) -> (r: &'static str)
    ensures
        r@ == default_source_of(lang@),
{
    if str_eq(lang, "c") {
        "solution.c"
    } else if str_eq(lang, "cpp") {
        "solution.cpp"
    } else if str_eq(lang, "python3") {
        "solution.py"
    } else if str_eq(lang, "java") {
        "Main.java"
    } else {
        ""
    }
}

pub fn default_basename(lang: &str) -> (r: &'static str)
    ensures
        r@ == default_basename_of(lang@),
{
    if str_eq(lang, "java") {
        "Main"
    } else {
        "solution"
    }
}

// ---------------------------------------------------------------------------
// Files
// ---------------------------------------------------------------------------

/// The names of the accompanying files.
pub open spec fn ref_names(files: Seq<FileRef>) -> Seq<Seq<char>> {
    files.map_values(|f: FileRef| f.filename@)
}

/// All files of a submission: its own, then those that accompany it.
pub open spec fn all_files_of(req: ResolveLanguageInput) -> Seq<Seq<char>> {
    text::views(req.submitted_files@) + ref_names(req.additional_files@)
}

pub fn collect_files(req: &ResolveLanguageInput) -> (r: Vec<String>)
    ensures
        text::views(r@) == all_files_of(*req),
{
    let mut out: Vec<String> = Vec::new();
    push_all(&mut out, req.submitted_files.as_slice());
    let ghost own = text::views(req.submitted_files@);
    let ghost names = ref_names(req.additional_files@);
    assert(text::views(out@) =~= own + names.take(0));
    let mut i: usize = 0;
    while i < req.additional_files.len()
        invariant
            i <= req.additional_files@.len(),
            names == ref_names(req.additional_files@),
            text::views(out@) == own + names.take(i as int),
        decreases req.additional_files@.len() - i,
    {
        push_text(&mut out, req.additional_files[i].filename.as_str());
        assert(own + names.take(i as int + 1) =~= (own + names.take(i as int)).push(
            req.additional_files@[i as int].filename@,
        ));
        i += 1;
    }
    assert(names.take(i as int) =~= names);
    out
}

/// The file to compile or run: the entry point, else the default source where
/// it was submitted, else the first file.
pub open spec fn primary_of(
    lang: Seq<char>,
    all: Seq<Seq<char>>,
    entry_point: Option<Seq<char>>,
) -> Seq<char> {
    match entry_point {
        Some(ep) => ep,
        None => if all.contains(default_source_of(lang)) {
            default_source_of(lang)
        } else if all.len() > 0 {
            all[0]
        } else {
            Seq::empty()
        },
    }
}

/// The name of what is built: the stem of the primary file.
pub open spec fn basename_of(lang: Seq<char>, primary: Seq<char>) -> Seq<char> {
    match path::file_stem_of(primary) {
        Some(stem) => if stem.len() > 0 {
            stem
        } else {
            default_basename_of(lang)
        },
        None => default_basename_of(lang),
    }
}

/// The primary source file and its base name.
pub fn resolve_primary(lang: &str, all_files: &Vec<String>, entry_point: Option<&str>) -> (r: (
    String,
    String,
))
    ensures
        r.0@ == primary_of(
            lang@,
            text::views(all_files@),
            match entry_point {
                Some(ep) => Some(ep@),
                None => None,
            },
        ),
        r.1@ == basename_of(lang@, r.0@),
{
    let primary = match entry_point {
        Some(ep) => ep.to_owned(),
        None => {
            let default = default_source(lang);
            if crate::text::list_contains(all_files, default) {
                default.to_owned()
            } else if all_files.len() > 0 {
                let first = all_files[0].clone();
                assert(text::views(all_files@)[0] == first@);
                first
            } else {
                let none = String::new();
                assert(none@ =~= Seq::<char>::empty());
                none
            }
        },
    };
    let basename = match file_stem(primary.as_str()) {
        Some(stem) => if stem.as_str().is_empty() {
            default_basename(lang).to_owned()
        } else {
            stem
        },
        None => default_basename(lang).to_owned(),
    };
    (primary, basename)
}

fn push_others(command: &mut Vec<String>, all_files: &Vec<String>, primary: &str)
    ensures
        text::views(final(command)@) == text::views(old(command)@)
            + text::without(text::views(all_files@), primary@),
{
    let ghost start = text::views(command@);
    let ghost all = text::views(all_files@);
    let mut i: usize = 0;
    assert(all.take(0) =~= Seq::<Seq<char>>::empty());
    assert(start + text::without(all.take(0), primary@) =~= start);
    while i < all_files.len()
        invariant
            i <= all_files@.len(),
            all == text::views(all_files@),
            text::views(command@) == start + text::without(all.take(i as int), primary@),
        decreases all_files@.len() - i,
    {
        assert(all.take(i as int + 1).drop_last() =~= all.take(i as int));
        assert(all.take(i as int + 1).last() == all_files@[i as int]@);
        if !str_eq(all_files[i].as_str(), primary) {
            push_text(command, all_files[i].as_str());
            assert(start + text::without(all.take(i as int + 1), primary@) =~= (start + text::without(
                all.take(i as int),
                primary@,
            )).push(all_files@[i as int]@));
        }
        i += 1;
    }
    assert(all.take(i as int) =~= all);
}

// ---------------------------------------------------------------------------
// Commands
// ---------------------------------------------------------------------------

/// The entry point that a problem sets, if any.
pub open spec fn entry_point_of(config: Option<EntryPointConfig>) -> Option<Seq<char>> {
    match config {
        Some(c) => text::opt_view(c.entry_point),
        None => None,
    }
}

fn entry_point<'a>(config: Option<&'a EntryPointConfig>) -> (r: Option<&'a str>)
    ensures
        match config {
            Some(c) => match c.entry_point {
                Some(ep) => r matches Some(e) && e@ == ep@,
                None => r is None,
            },
            None => r is None,
        },
{
    match config {
        Some(c) => match &c.entry_point {
            Some(ep) => Some(ep.as_str()),
            None => None,
        },
        None => None,
    }
}

pub open spec fn config_value(config: Option<&EntryPointConfig>) -> Option<EntryPointConfig> {
    match config {
        Some(c) => Some(*c),
        None => None,
    }
}

/// The compiler, its flags, the extra flags, the primary file and the others.
pub open spec fn compile_front(
    compiler: Seq<char>,
    flags: Seq<Seq<char>>,
    extra: Seq<Seq<char>>,
    primary: Seq<char>,
    all: Seq<Seq<char>>,
) -> Seq<Seq<char>> {
    seq![compiler] + flags + extra + seq![primary] + text::without(all, primary)
}

/// A language that compiles to one binary.
pub open spec fn is_compiled_output(
    out: ResolveLanguageOutput,
    lang: Seq<char>,
    all: Seq<Seq<char>>,
    ep: Option<Seq<char>>,
    compiler: Seq<char>,
    flags: Seq<Seq<char>>,
    extra: Seq<Seq<char>>,
    suffix: Seq<Seq<char>>,
) -> bool {
    let primary = primary_of(lang, all, ep);
    let basename = basename_of(lang, primary);
    &&& out.compile matches Some(c) && {
        &&& text::views(c.command@) == compile_front(compiler, flags, extra, primary, all) + seq![
            "-o"@,
            basename,
        ] + suffix
        &&& text::views(c.cache_inputs@) == all
        &&& c.outputs@.len() == 1
        &&& c.outputs@[0] is File
        &&& c.outputs@[0].name() == basename
        &&& c.resource_limits is None
    }
    &&& text::views(out.run.command@) == seq!["./"@ + basename]
    &&& out.run.extra_files@.len() == 0
    &&& out.run.min_process_limit is None
}

fn compile_command(
    compiler: &str,
    flags: &[String],
    extra_compile_flags: &[String],
    primary: &str,
    all_files: &Vec<String>,
) -> (r: Vec<String>)
    ensures
        text::views(r@) == compile_front(
            compiler@,
            text::views(flags@),
            text::views(extra_compile_flags@),
            primary@,
            text::views(all_files@),
        ),
{
    let mut command: Vec<String> = Vec::new();
    push_text(&mut command, compiler);
    assert(text::views(command@) =~= seq![compiler@]);
    push_all(&mut command, flags);
    push_all(&mut command, extra_compile_flags);
    let ghost front = text::views(command@);
    push_text(&mut command, primary);
    assert(text::views(command@) =~= front + seq![primary@]);
    push_others(&mut command, all_files, primary);
    command
}

/// A compiled language: the compiler gets the primary file first, then the
/// others, then the name of the binary and what has to come last.
fn resolve_compiled(
    lang: &str,
    req: &ResolveLanguageInput,
    entry_point_config: Option<&EntryPointConfig>,
    compiler: &str,
    flags: &[String],
    extra_compile_flags: &[String],
    suffix_args: &[String],
) -> (r: ResolveLanguageOutput)
    ensures
        is_compiled_output(
            r,
            lang@,
            all_files_of(*req),
            entry_point_of(config_value(entry_point_config)),
            compiler@,
            text::views(flags@),
            text::views(extra_compile_flags@),
            text::views(suffix_args@),
        ),
{
    let all_files = collect_files(req);
    let (primary, basename) = resolve_primary(lang, &all_files, entry_point(entry_point_config));
    let mut command = compile_command(
        compiler,
        flags,
        extra_compile_flags,
        primary.as_str(),
        &all_files,
    );
    let ghost front = text::views(command@);
    push_text(&mut command, "-o");
    push_text(&mut command, basename.as_str());
    assert(text::views(command@) =~= front + seq!["-o"@, basename@]);
    push_all(&mut command, suffix_args);
    let mut outputs: Vec<OutputSpec> = Vec::new();
    outputs.push(OutputSpec::File(basename.clone()));
    let run = one(concat("./", basename.as_str()).as_str());
    ResolveLanguageOutput {
        compile: Some(
            CompileSpec { command, cache_inputs: all_files, outputs, resource_limits: None },
        ),
        run: RunSpec { command: run, extra_files: Vec::new(), min_process_limit: None },
    }
}

pub fn resolve_c(
    req: &ResolveLanguageInput,
    entry_point_config: Option<&EntryPointConfig>,
    compiler: &str,
    flags: &[String],
    extra_compile_flags: &[String],
) -> (r: ResolveLanguageOutput)
    ensures
        is_compiled_output(
            r,
            "c"@,
            all_files_of(*req),
            entry_point_of(config_value(entry_point_config)),
            compiler@,
            text::views(flags@),
            text::views(extra_compile_flags@),
            seq!["-lm"@],
        ),
{
    let suffix = one("-lm");
    resolve_compiled(
        "c",
        req,
        entry_point_config,
        compiler,
        flags,
        extra_compile_flags,
        suffix.as_slice(),
    )
}

pub fn resolve_cpp(
    req: &ResolveLanguageInput,
    entry_point_config: Option<&EntryPointConfig>,
    compiler: &str,
    flags: &[String],
    extra_compile_flags: &[String],
) -> (r: ResolveLanguageOutput)
    ensures
        is_compiled_output(
            r,
            "cpp"@,
            all_files_of(*req),
            entry_point_of(config_value(entry_point_config)),
            compiler@,
            text::views(flags@),
            text::views(extra_compile_flags@),
            seq![],
        ),
{
    let suffix: Vec<String> = Vec::new();
    assert(text::views(suffix@) =~= Seq::<Seq<char>>::empty());
    resolve_compiled(
        "cpp",
        req,
        entry_point_config,
        compiler,
        flags,
        extra_compile_flags,
        suffix.as_slice(),
    )
}

/// An interpreted language: nothing is compiled, every file goes along.
pub open spec fn is_python_output(
    out: ResolveLanguageOutput,
    all: Seq<Seq<char>>,
    ep: Option<Seq<char>>,
    interpreter: Seq<char>,
) -> bool {
    &&& out.compile is None
    &&& text::views(out.run.command@) == seq![interpreter, primary_of("python3"@, all, ep)]
    &&& text::views(out.run.extra_files@) == all
    &&& out.run.min_process_limit is None
}

pub fn resolve_python3(
    req: &ResolveLanguageInput,
    entry_point_config: Option<&EntryPointConfig>,
    interpreter: &str,
) -> (r: ResolveLanguageOutput)
    ensures
        is_python_output(
            r,
            all_files_of(*req),
            entry_point_of(config_value(entry_point_config)),
            interpreter@,
        ),
{
    let all_files = collect_files(req);
    let (primary, _basename) = resolve_primary(
        "python3",
        &all_files,
        entry_point(entry_point_config),
    );
    let mut command: Vec<String> = Vec::new();
    push_text(&mut command, interpreter);
    push_text(&mut command, primary.as_str());
    assert(text::views(command@) =~= seq![interpreter@, primary@]);
    ResolveLanguageOutput {
        compile: None,
        run: RunSpec { command, extra_files: all_files, min_process_limit: None },
    }
}

/// Java: the compiler leaves class files, the runner gets the class name.
pub open spec fn is_java_output(
    out: ResolveLanguageOutput,
    all: Seq<Seq<char>>,
    ep: Option<Seq<char>>,
    compiler: Seq<char>,
    runner: Seq<char>,
    flags: Seq<Seq<char>>,
    extra: Seq<Seq<char>>,
) -> bool {
    let primary = primary_of("java"@, all, ep);
    &&& out.compile matches Some(c) && {
        &&& text::views(c.command@) == compile_front(compiler, flags, extra, primary, all)
        &&& text::views(c.cache_inputs@) == all
        &&& c.outputs@.len() == 1
        &&& c.outputs@[0] is Glob
        &&& c.outputs@[0].name() == "*.class"@
        &&& c.resource_limits is None
    }
    &&& text::views(out.run.command@) == seq![runner, "-cp"@, "."@, basename_of("java"@, primary)]
    &&& out.run.extra_files@.len() == 0
    &&& out.run.min_process_limit == Some(JAVA_MIN_PROCESS_LIMIT)
}

pub fn resolve_java(
    req: &ResolveLanguageInput,
    entry_point_config: Option<&EntryPointConfig>,
    compiler: &str,
    runner: &str,
    flags: &[String],
    extra_compile_flags: &[String],
) -> (r: ResolveLanguageOutput)
    ensures
        is_java_output(
            r,
            all_files_of(*req),
            entry_point_of(config_value(entry_point_config)),
            compiler@,
            runner@,
            text::views(flags@),
            text::views(extra_compile_flags@),
        ),
{
    let all_files = collect_files(req);
    let (primary, basename) = resolve_primary("java", &all_files, entry_point(entry_point_config));
    let command = compile_command(
        compiler,
        flags,
        extra_compile_flags,
        primary.as_str(),
        &all_files,
    );
    let mut outputs: Vec<OutputSpec> = Vec::new();
    outputs.push(OutputSpec::Glob("*.class".to_owned()));
    let mut run: Vec<String> = Vec::new();
    push_text(&mut run, runner);
    push_text(&mut run, "-cp");
    push_text(&mut run, ".");
    push_text(&mut run, basename.as_str());
    assert(text::views(run@) =~= seq![runner@, "-cp"@, "."@, basename@]);
    ResolveLanguageOutput {
        compile: Some(
            CompileSpec { command, cache_inputs: all_files, outputs, resource_limits: None },
        ),
        run: RunSpec {
            command: run,
            extra_files: Vec::new(),
            min_process_limit: Some(JAVA_MIN_PROCESS_LIMIT),
        },
    }
}

// ---------------------------------------------------------------------------
// Choice of tools
// ---------------------------------------------------------------------------

/// The caller's choice, else the configured one, else nothing.
pub open spec fn chosen_text(first: Option<Seq<char>>, second: Option<Seq<char>>) -> Seq<char> {
    match (first, second) {
        (Some(a), _) => a,
        (None, Some(b)) => b,
        (None, None) => ""@,
    }
}

pub open spec fn opt_views(o: Option<Vec<String>>) -> Option<Seq<Seq<char>>> {
    match o {
        Some(v) => Some(text::views(v@)),
        None => None,
    }
}

pub open spec fn chosen_list(
    first: Option<Seq<Seq<char>>>,
    second: Option<Seq<Seq<char>>>,
) -> Seq<Seq<char>> {
    match (first, second) {
        (Some(a), _) => a,
        (None, Some(b)) => b,
        (None, None) => seq![],
    }
}

pub open spec fn override_compiler(req: ResolveLanguageInput) -> Option<Seq<char>> {
    match req.overrides {
        Some(o) => text::opt_view(o.compiler),
        None => None,
    }
}

pub open spec fn override_flags(req: ResolveLanguageInput) -> Option<Seq<Seq<char>>> {
    match req.overrides {
        Some(o) => opt_views(o.flags),
        None => None,
    }
}

pub open spec fn extra_flags_of(config: Option<EntryPointConfig>) -> Seq<Seq<char>> {
    match config {
        Some(c) => chosen_list(opt_views(c.extra_compile_flags), None),
        None => seq![],
    }
}

fn pick_text(first: &Option<String>, second: &Option<String>) -> (r: String)
    ensures
        r@ == chosen_text(text::opt_view(*first), text::opt_view(*second)),
{
    match (first, second) {
        (Some(a), _) => a.clone(),
        (None, Some(b)) => b.clone(),
        (None, None) => "".to_owned(),
    }
}

fn pick_list(first: &Option<Vec<String>>, second: &Option<Vec<String>>) -> (r: Vec<String>)
    ensures
        text::views(r@) == chosen_list(opt_views(*first), opt_views(*second)),
{
    let mut out: Vec<String> = Vec::new();
    assert(text::views(out@) =~= Seq::<Seq<char>>::empty());
    match (first, second) {
        (Some(a), _) => {
            push_all(&mut out, a.as_slice());
        },
        (None, Some(b)) => {
            push_all(&mut out, b.as_slice());
        },
        (None, None) => {},
    }
    out
}

pub open spec fn unsupported_text(lang: Seq<char>) -> Seq<char> {
    "Unsupported language: "@ + lang
}

/// How a submission is resolved.
pub open spec fn resolution_is(
    r: Result<ResolveLanguageOutput, String>,
    req: ResolveLanguageInput,
    lang_config: LanguageCompilationConfig,
    config: Option<EntryPointConfig>,
) -> bool {
    let lang = req.language_id@;
    let all = all_files_of(req);
    let ep = entry_point_of(config);
    let extra = extra_flags_of(config);
    let compiler = chosen_text(override_compiler(req), text::opt_view(lang_config.compiler));
    let flags = chosen_list(override_flags(req), opt_views(lang_config.flags));
    if lang == "c"@ {
        r matches Ok(out) && is_compiled_output(
            out,
            lang,
            all,
            ep,
            compiler,
            flags,
            extra,
            seq!["-lm"@],
        )
    } else if lang == "cpp"@ {
        r matches Ok(out) && is_compiled_output(
            out,
            lang,
            all,
            ep,
            compiler,
            flags,
            extra,
            seq![],
        )
    } else if lang == "python3"@ {
        r matches Ok(out) && is_python_output(
            out,
            all,
            ep,
            chosen_text(text::opt_view(lang_config.interpreter), None),
        )
    } else if lang == "java"@ {
        r matches Ok(out) && is_java_output(
            out,
            all,
            ep,
            compiler,
            chosen_text(text::opt_view(lang_config.runner), None),
            flags,
            extra,
        )
    } else {
        r matches Err(e) && e@ == unsupported_text(lang)
    }
}

/// Resolves a submission in one of the standard languages. The caller's
/// compiler and flags go before the configured ones.
pub fn resolve_standard_language(
    req: &ResolveLanguageInput,
    lang_config: &LanguageCompilationConfig,
    entry_point_config: Option<&EntryPointConfig>,
) -> (r: Result<ResolveLanguageOutput, String>)
    ensures
        resolution_is(r, *req, *lang_config, config_value(entry_point_config)),
{
    let no_text: Option<String> = None;
    let no_list: Option<Vec<String>> = None;
    let (compiler, flags) = match &req.overrides {
        Some(o) => (
            pick_text(&o.compiler, &lang_config.compiler),
            pick_list(&o.flags, &lang_config.flags),
        ),
        None => (
            pick_text(&no_text, &lang_config.compiler),
            pick_list(&no_list, &lang_config.flags),
        ),
    };
    let extra = match entry_point_config {
        Some(c) => pick_list(&c.extra_compile_flags, &no_list),
        None => pick_list(&no_list, &no_list),
    };
    let lang = req.language_id.as_str();
    if str_eq(lang, "c") {
        Ok(resolve_c(req, entry_point_config, compiler.as_str(), flags.as_slice(), extra.as_slice()))
    } else if str_eq(lang, "cpp") {
        Ok(
            resolve_cpp(
                req,
                entry_point_config,
                compiler.as_str(),
                flags.as_slice(),
                extra.as_slice(),
            ),
        )
    } else if str_eq(lang, "python3") {
        let interpreter = pick_text(&lang_config.interpreter, &no_text);
        Ok(resolve_python3(req, entry_point_config, interpreter.as_str()))
    } else if str_eq(lang, "java") {
        let runner = pick_text(&lang_config.runner, &no_text);
        Ok(
            resolve_java(
                req,
                entry_point_config,
                compiler.as_str(),
                runner.as_str(),
                flags.as_slice(),
                extra.as_slice(),
            ),
        )
    } else {
        Err(concat("Unsupported language: ", lang))
    }
}

/// Every submitted file reaches the compiler: the primary one, or the rest.
pub proof fn every_file_is_compiled(
    compiler: Seq<char>,
    flags: Seq<Seq<char>>,
    extra: Seq<Seq<char>>,
    primary: Seq<char>,
    all: Seq<Seq<char>>,
    i: int,
)
    requires
        0 <= i < all.len(),
    ensures
        compile_front(compiler, flags, extra, primary, all).contains(all[i]),
{
    let front = seq![compiler] + flags + extra + seq![primary];
    let others = text::without(all, primary);
    let whole = front + others;
    if all[i] == primary {
        assert(front[front.len() - 1] == primary);
        assert(whole[front.len() - 1] == primary);
    } else {
        lemma_without_keeps(all, primary, i);
        let j = choose|j: int| 0 <= j < others.len() && others[j] == all[i];
        assert(whole[front.len() + j] == all[i]);
    }
}

proof fn lemma_without_keeps(v: Seq<Seq<char>>, x: Seq<char>, i: int)
    requires
        0 <= i < v.len(),
        v[i] != x,
    ensures
        text::without(v, x).contains(v[i]),
    decreases v.len(),
{
    let w = text::without(v.drop_last(), x);
    if i == v.len() - 1 {
        assert(text::without(v, x)[w.len() as int] == v[i]);
    } else {
        lemma_without_keeps(v.drop_last(), x, i);
        let j = choose|j: int| 0 <= j < w.len() && w[j] == v[i];
        if v.last() == x {
        } else {
            assert(text::without(v, x)[j] == v[i]);
        }
    }
}

} // verus!
