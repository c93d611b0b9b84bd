//! What resolving a submission promises, said of the request and the
//! configuration themselves.

use vstd::prelude::*;

use crate::languages::resolve::{
    CompileSpec, EntryPointConfig, LanguageCompilationConfig, LanguageMeta, OutputSpec, ResolveLanguageInput,
    ResolveLanguageOutput,
};
use crate::languages::path;
use crate::languages::resolve;
use crate::text;

verus! {

/// The names of all files: those submitted, then those that accompany them.
pub open spec fn file_names(req: ResolveLanguageInput) -> Seq<Seq<char>> {
    Seq::new(
        req.submitted_files@.len() + req.additional_files@.len(),
        |i: int|
            if i < req.submitted_files@.len() {
                req.submitted_files@[i]@
            } else {
                req.additional_files@[i - req.submitted_files@.len()].filename@
            },
    )
}

/// `part` stands in `whole` from place `at` on.
pub open spec fn stands_at(whole: Seq<Seq<char>>, at: int, part: Seq<String>) -> bool {
    &&& 0 <= at
    &&& at + part.len() <= whole.len()
    &&& forall|i: int| 0 <= i < part.len() ==> whole[at + i] == (#[trigger] part[i])@
}

/// How many flags are chosen: the caller's where there are any, else the
/// configured ones.
pub open spec fn flag_count(req: ResolveLanguageInput, config: LanguageCompilationConfig) -> int {
    if req.overrides is Some && req.overrides->0.flags is Some {
        req.overrides->0.flags->0@.len() as int
    } else if config.flags is Some {
        config.flags->0@.len() as int
    } else {
        0
    }
}

/// How many flags the problem adds.
pub open spec fn extra_count(entry: Option<EntryPointConfig>) -> int {
    if entry is Some && entry->0.extra_compile_flags is Some {
        entry->0.extra_compile_flags->0@.len() as int
    } else {
        0
    }
}

pub open spec fn is_compiled(lang: Seq<char>) -> bool {
    lang == "c"@ || lang == "cpp"@ || lang == "java"@
}

proof fn lemma_all_files(req: ResolveLanguageInput)
    ensures
        resolve::all_files_of(req) == file_names(req),
{
    assert(resolve::all_files_of(req) =~= file_names(req));
}

/// A submission is resolved in the four languages, and refused in any other, by
/// its name. Python is not compiled, the others are.
pub proof fn the_four_languages_are_resolved(
    r: Result<ResolveLanguageOutput, String>,
    req: ResolveLanguageInput,
    lang_config: LanguageCompilationConfig,
    entry: Option<EntryPointConfig>,
)
    requires
        resolve::resolution_is(r, req, lang_config, entry),
    ensures
        r is Ok <==> is_compiled(req.language_id@) || req.language_id@ == "python3"@,
        r matches Ok(out) ==> (out.compile is Some <==> is_compiled(req.language_id@)),
        r matches Err(e) ==> exists|before: Seq<char>| e@ == #[trigger] (before
            + req.language_id@),
{
    lemma_languages_differ();
}

proof fn lemma_languages_differ()
    ensures
        "c"@ != "cpp"@,
        "c"@ != "java"@,
        "c"@ != "python3"@,
        "cpp"@ != "java"@,
        "cpp"@ != "python3"@,
        "java"@ != "python3"@,
{
    reveal_strlit("c");
    reveal_strlit("cpp");
    reveal_strlit("java");
    reveal_strlit("python3");
    assert("c"@.len() == 1);
    assert("cpp"@.len() == 3);
    assert("java"@.len() == 4);
    assert("python3"@.len() == 7);
}

/// The compiler that runs is the caller's, else the configured one, and it gets,
/// in this order, the chosen flags (the caller's, else the configured ones) and
/// every flag that the problem adds.
pub proof fn the_compiler_gets_all_flags(
    r: Result<ResolveLanguageOutput, String>,
    req: ResolveLanguageInput,
    lang_config: LanguageCompilationConfig,
    entry: Option<EntryPointConfig>,
)
    requires
        is_compiled(req.language_id@),
        resolve::resolution_is(r, req, lang_config, entry),
    ensures
        r matches Ok(out) && out.compile matches Some(c) && ({
            let command = text::views(c.command@);
            let f = flag_count(req, lang_config);
            &&& command.len() > 1 + f + extra_count(entry)
            &&& req.overrides is Some && req.overrides->0.compiler is Some ==> command[0]
                == req.overrides->0.compiler->0@
            &&& (req.overrides is None || req.overrides->0.compiler is None)
                && lang_config.compiler is Some ==> command[0] == lang_config.compiler->0@
            &&& req.overrides is Some && req.overrides->0.flags is Some ==> stands_at(
                command,
                1,
                req.overrides->0.flags->0@,
            )
            &&& (req.overrides is None || req.overrides->0.flags is None)
                && lang_config.flags is Some ==> stands_at(command, 1, lang_config.flags->0@)
            &&& entry is Some && entry->0.extra_compile_flags is Some ==> stands_at(
                command,
                1 + f,
                entry->0.extra_compile_flags->0@,
            )
        }),
{
    lemma_languages_differ();
    lemma_front(r, req, lang_config, entry);
    let command = text::views(r->Ok_0.compile->0.command@);
    let flags = resolve::chosen_list(
        resolve::override_flags(req),
        resolve::opt_views(lang_config.flags),
    );
    let extra = resolve::extra_flags_of(entry);
    let f = flag_count(req, lang_config);
    if req.overrides is Some && req.overrides->0.flags is Some {
        lemma_stands(command, 1, flags, req.overrides->0.flags->0@);
    } else if lang_config.flags is Some {
        lemma_stands(command, 1, flags, lang_config.flags->0@);
    }
    if entry is Some && entry->0.extra_compile_flags is Some {
        lemma_stands(command, 1 + f, extra, entry->0.extra_compile_flags->0@);
    }
}

proof fn lemma_stands(whole: Seq<Seq<char>>, at: int, part: Seq<Seq<char>>, texts: Seq<String>)
    requires
        part == text::views(texts),
        0 <= at,
        at + part.len() <= whole.len(),
        forall|i: int| 0 <= i < part.len() ==> whole[at + i] == #[trigger] part[i],
    ensures
        stands_at(whole, at, texts),
{
    assert forall|i: int| 0 <= i < texts.len() implies whole[at + i] == (#[trigger] texts[i])@ by {
        assert(part[i] == texts[i]@);
    }
}

/// How the command of a compilation begins.
proof fn lemma_front(
    r: Result<ResolveLanguageOutput, String>,
    req: ResolveLanguageInput,
    lang_config: LanguageCompilationConfig,
    entry: Option<EntryPointConfig>,
)
    requires
        is_compiled(req.language_id@),
        resolve::resolution_is(r, req, lang_config, entry),
    ensures
        r is Ok,
        r->Ok_0.compile is Some,
        ({
            let command = text::views(r->Ok_0.compile->0.command@);
            let lang = req.language_id@;
            let all = resolve::all_files_of(req);
            let primary = resolve::primary_of(lang, all, resolve::entry_point_of(entry));
            let compiler = resolve::chosen_text(
                resolve::override_compiler(req),
                text::opt_view(lang_config.compiler),
            );
            let flags = resolve::chosen_list(
                resolve::override_flags(req),
                resolve::opt_views(lang_config.flags),
            );
            let extra = resolve::extra_flags_of(entry);
            let others = text::without(all, primary);
            let f = flag_count(req, lang_config);
            let x = extra_count(entry);
            let tail = if lang == "java"@ {
                Seq::<Seq<char>>::empty()
            } else if lang == "c"@ {
                seq!["-o"@, resolve::basename_of(lang, primary), "-lm"@]
            } else {
                seq!["-o"@, resolve::basename_of(lang, primary)]
            };
            &&& flags.len() == f
            &&& extra.len() == x
            &&& command == seq![compiler] + flags + extra + seq![primary] + others + tail
            &&& forall|i: int| 0 <= i < f ==> command[1 + i] == #[trigger] flags[i]
            &&& forall|i: int| 0 <= i < x ==> command[1 + f + i] == #[trigger] extra[i]
            &&& command.len() == 1 + f + x + 1 + others.len() + tail.len()
            &&& command[1 + f + x] == primary
            &&& command.subrange(2 + f + x, 2 + f + x + others.len() as int) == others
            &&& command.skip(2 + f + x + others.len() as int) == tail
        }),
{
    lemma_languages_differ();
    let command = text::views(r->Ok_0.compile->0.command@);
    let lang = req.language_id@;
    let all = resolve::all_files_of(req);
    let primary = resolve::primary_of(lang, all, resolve::entry_point_of(entry));
    let compiler = resolve::chosen_text(
        resolve::override_compiler(req),
        text::opt_view(lang_config.compiler),
    );
    let flags = resolve::chosen_list(
        resolve::override_flags(req),
        resolve::opt_views(lang_config.flags),
    );
    let extra = resolve::extra_flags_of(entry);
    let others = text::without(all, primary);
    let f = flag_count(req, lang_config);
    let x = extra_count(entry);
    let tail = if lang == "java"@ {
        Seq::<Seq<char>>::empty()
    } else if lang == "c"@ {
        seq!["-o"@, resolve::basename_of(lang, primary), "-lm"@]
    } else {
        seq!["-o"@, resolve::basename_of(lang, primary)]
    };
    assert(command =~= seq![compiler] + flags + extra + seq![primary] + others + tail);
    assert(command.subrange(2 + f + x, 2 + f + x + others.len() as int) =~= others);
    assert(command.skip(2 + f + x + others.len() as int) =~= tail);
}

/// The source files follow the flags: the entry point that the problem sets, or
/// else the file with the name that the language expects, or else the first one;
/// then all others in the order in which they came. No flag stands among them.
pub proof fn the_compiler_gets_all_files(
    r: Result<ResolveLanguageOutput, String>,
    req: ResolveLanguageInput,
    lang_config: LanguageCompilationConfig,
    entry: Option<EntryPointConfig>,
)
    requires
        is_compiled(req.language_id@),
        resolve::resolution_is(r, req, lang_config, entry),
    ensures
        r matches Ok(out) && out.compile matches Some(c) && ({
            let command = text::views(c.command@);
            let at = 1 + flag_count(req, lang_config) + extra_count(entry);
            let files = file_names(req);
            let main = command[at];
            let others = files.filter(|f: Seq<char>| f != main);
            &&& is_main_file(main, req, entry)
            &&& command.len() >= at + 1 + others.len()
            &&& command.subrange(at + 1, at + 1 + others.len() as int) == others
            &&& req.language_id@ == "java"@ ==> command.len() == at + 1 + others.len()
            &&& text::views(c.cache_inputs@) == files
        }),
{
    lemma_languages_differ();
    lemma_front(r, req, lang_config, entry);
    lemma_all_files(req);
    let lang = req.language_id@;
    let all = file_names(req);
    let primary = resolve::primary_of(lang, all, resolve::entry_point_of(entry));
    lemma_without_filters(all, primary);
    lemma_main_file(req, entry);
}

proof fn lemma_without_filters(v: Seq<Seq<char>>, x: Seq<char>)
    ensures
        text::without(v, x) == v.filter(|f: Seq<char>| f != x),
    decreases v.len(),
{
    reveal(Seq::filter);
    if v.len() > 0 {
        lemma_without_filters(v.drop_last(), x);
    }
}

/// The name that the main file of a language has unless something else is said.
pub open spec fn usual_name(lang: Seq<char>) -> Seq<char> {
    if lang == "c"@ {
        "solution.c"@
    } else if lang == "cpp"@ {
        "solution.cpp"@
    } else if lang == "java"@ {
        "Main.java"@
    } else {
        "solution.py"@
    }
}

/// The file that is compiled first, or run.
pub open spec fn is_main_file(
    main: Seq<char>,
    req: ResolveLanguageInput,
    entry: Option<EntryPointConfig>,
) -> bool {
    let files = file_names(req);
    if entry is Some && entry->0.entry_point is Some {
        main == entry->0.entry_point->0@
    } else if files.contains(usual_name(req.language_id@)) {
        main == usual_name(req.language_id@)
    } else if files.len() > 0 {
        main == files[0]
    } else {
        main.len() == 0
    }
}

proof fn lemma_main_file(req: ResolveLanguageInput, entry: Option<EntryPointConfig>)
    requires
        is_compiled(req.language_id@) || req.language_id@ == "python3"@,
    ensures
        is_main_file(
            resolve::primary_of(
                req.language_id@,
                file_names(req),
                resolve::entry_point_of(entry),
            ),
            req,
            entry,
        ),
{
    lemma_languages_differ();
}

/// What is built is what is run: C and C++ leave one binary under the name that
/// follows `-o`, and that is started; C links the mathematical library last.
pub proof fn what_is_built_is_run(
    r: Result<ResolveLanguageOutput, String>,
    req: ResolveLanguageInput,
    lang_config: LanguageCompilationConfig,
    entry: Option<EntryPointConfig>,
)
    requires
        req.language_id@ == "c"@ || req.language_id@ == "cpp"@,
        resolve::resolution_is(r, req, lang_config, entry),
    ensures
        r matches Ok(out) && out.compile matches Some(c) && ({
            let command = text::views(c.command@);
            let n = if req.language_id@ == "c"@ {
                command.len() - 1
            } else {
                command.len() as int
            };
            let name = command[n - 1];
            &&& command[n - 2] == "-o"@
            &&& req.language_id@ == "c"@ ==> command[n] == "-lm"@
            &&& c.outputs@.len() == 1
            &&& c.outputs@[0] matches OutputSpec::File(file) && file@ == name
            &&& text::views(out.run.command@) == seq!["./"@ + name]
            &&& out.run.extra_files@.len() == 0
            &&& out.run.min_process_limit is None
            &&& c.resource_limits is None
            &&& built_from(
                name,
                command[1 + flag_count(req, lang_config) + extra_count(entry)],
                "solution"@,
            )
        }),
{
    lemma_languages_differ();
    lemma_front(r, req, lang_config, entry);
    let command = text::views(r->Ok_0.compile->0.command@);
    let lang = req.language_id@;
    let all = resolve::all_files_of(req);
    let primary = resolve::primary_of(lang, all, resolve::entry_point_of(entry));
    let others = text::without(all, primary);
    let at = 2 + flag_count(req, lang_config) + extra_count(entry) + others.len() as int;
    let tail = command.skip(at);
    assert(tail[0] == command[at]);
    assert(tail[1] == command[at + 1]);
    if lang == "c"@ {
        assert(tail[2] == command[at + 2]);
    }
    stems_end_before_the_dot(primary);
}

/// A path that names a file: some directories, or none, and a last part with
/// neither a slash nor just dots in it; or such a path with empty parts, or parts
/// that are a dot, behind.
pub open spec fn names_file(path: Seq<char>, dir: Seq<char>, name: Seq<char>, rest: Seq<char>) -> bool {
    &&& path == dir + name + rest
    &&& dir.len() > 0 ==> dir[dir.len() - 1] == '/'
    &&& !name.contains('/')
    &&& name.len() > 0
    &&& name != seq!['.']
    &&& rest.len() > 0 ==> rest[0] == '/'
    &&& forall|i: int| 0 <= i < rest.len() ==> #[trigger] rest[i] == '/' || rest[i] == '.'
}

/// A name without its extension: what stands before its last dot, unless that
/// dot begins it.
pub open spec fn without_extension(name: Seq<char>, stem: Seq<char>) -> bool {
    ||| stem == name && forall|i: int| 0 < i < name.len() ==> #[trigger] name[i] != '.'
    ||| {
        &&& 0 < stem.len() < name.len()
        &&& stem == name.take(stem.len() as int)
        &&& name[stem.len() as int] == '.'
        &&& forall|i: int| stem.len() < i < name.len() ==> #[trigger] name[i] != '.'
    }
}

/// What is built has the name of the main file without its extension; where that
/// names no file, a usual name.
pub open spec fn built_from(built: Seq<char>, main: Seq<char>, usual: Seq<char>) -> bool {
    ||| exists|dir: Seq<char>, name: Seq<char>, rest: Seq<char>|
        #[trigger] names_file(main, dir, name, rest) && without_extension(name, built)
    ||| built == usual && path::file_stem_of(main) is None
}

proof fn lemma_segment_start(s: Seq<char>)
    ensures
        0 <= path::segment_start(s) <= s.len(),
        path::segment_start(s) > 0 ==> s[path::segment_start(s) - 1] == '/',
        forall|i: int| path::segment_start(s) <= i < s.len() ==> #[trigger] s[i] != '/',
    decreases s.len(),
{
    if s.len() > 0 && s.last() != '/' {
        let rest = s.drop_last();
        lemma_segment_start(rest);
        assert forall|i: int| path::segment_start(s) <= i < s.len() implies #[trigger] s[i]
            != '/' by {
            if i < rest.len() {
                assert(rest[i] == s[i]);
            }
        }
    }
}

proof fn lemma_last_segment(s: Seq<char>)
    ensures
        path::last_segment(s).len() > 0 ==> exists|dir: Seq<char>, rest: Seq<char>| #[trigger]
            names_file(s, dir, path::last_segment(s), rest),
    decreases s.len(),
{
    lemma_segment_start(s);
    let start = path::segment_start(s);
    let seg = s.skip(start);
    let name = path::last_segment(s);
    if name.len() > 0 {
        if seg.len() == 0 || seg == seq!['.'] {
            let before = s.take(start - 1);
            lemma_last_segment(before);
            let (dir, rest) = choose|dir: Seq<char>, rest: Seq<char>| #[trigger]
                names_file(before, dir, name, rest);
            let tail = rest + seq!['/'] + seg;
            assert(s =~= before + seq!['/'] + seg);
            assert(s =~= dir + name + tail);
            assert(names_file(s, dir, name, tail));
        } else {
            let dir = s.take(start);
            let none = Seq::<char>::empty();
            assert(s =~= dir + seg + none);
            if seg.contains('/') {
                let k = choose|k: int| 0 <= k < seg.len() && seg[k] == '/';
                assert(s[start + k] == '/');
            }
            assert(names_file(s, dir, seg, none));
        }
    }
}

proof fn lemma_last_dot(s: Seq<char>)
    ensures
        -1 <= path::last_dot(s) < s.len(),
        path::last_dot(s) >= 0 ==> s[path::last_dot(s)] == '.',
        forall|i: int| path::last_dot(s) < i < s.len() ==> #[trigger] s[i] != '.',
    decreases s.len(),
{
    if s.len() > 0 && s.last() != '.' {
        let rest = s.drop_last();
        lemma_last_dot(rest);
        assert forall|i: int| path::last_dot(s) < i < s.len() implies #[trigger] s[i] != '.' by {
            if i < rest.len() {
                assert(rest[i] == s[i]);
            }
        }
    }
}

/// The stem of a path is the name of the file that it names, without the
/// extension.
pub proof fn stems_end_before_the_dot(path: Seq<char>)
    ensures
        path::file_stem_of(path) matches Some(stem) ==> stem.len() > 0 && exists|
            dir: Seq<char>,
            name: Seq<char>,
            rest: Seq<char>,
        | #[trigger]
            names_file(path, dir, name, rest) && without_extension(name, stem),
{
    let name = path::last_segment(path);
    if path::file_stem_of(path) is Some {
        let stem = path::file_stem_of(path)->0;
        lemma_last_segment(path);
        lemma_last_dot(name);
        let (dir, rest) = choose|dir: Seq<char>, rest: Seq<char>| #[trigger]
            names_file(path, dir, name, rest);
        assert(without_extension(name, stem));
        assert(names_file(path, dir, name, rest));
    }
}

/// A plain file name has a stem: all of it, or what stands before its last dot.
pub proof fn plain_names_have_stems(name: Seq<char>)
    requires
        name.len() > 0,
        !name.contains('/'),
        name != seq!['.'],
        name != seq!['.', '.'],
    ensures
        path::file_stem_of(name) matches Some(stem) && without_extension(name, stem),
{
    lemma_segment_start(name);
    if path::segment_start(name) > 0 {
        assert(name.contains(name[path::segment_start(name) - 1]));
    }
    assert(name.skip(0) =~= name);
    lemma_last_dot(name);
}

/// Java leaves class files, and its runner gets the class of the main file; the
/// virtual machine gets the processes that it needs.
pub proof fn java_runs_the_class_of_its_main_file(
    r: Result<ResolveLanguageOutput, String>,
    req: ResolveLanguageInput,
    lang_config: LanguageCompilationConfig,
    entry: Option<EntryPointConfig>,
)
    requires
        req.language_id@ == "java"@,
        resolve::resolution_is(r, req, lang_config, entry),
    ensures
        r matches Ok(out) && out.compile matches Some(c) && ({
            let command = text::views(c.command@);
            let run = text::views(out.run.command@);
            let main = command[1 + flag_count(req, lang_config) + extra_count(entry)];
            &&& run.len() == 4
            &&& lang_config.runner matches Some(runner) ==> run[0] == runner@
            &&& run[1] == "-cp"@
            &&& run[2] == "."@
            &&& built_from(run[3], main, "Main"@)
            &&& c.outputs@.len() == 1
            &&& c.outputs@[0] matches OutputSpec::Glob(glob) && glob@ == "*.class"@
            &&& out.run.min_process_limit == Some(64u32)
            &&& out.run.extra_files@.len() == 0
            &&& c.resource_limits is None
        }),
{
    lemma_languages_differ();
    lemma_front(r, req, lang_config, entry);
    let all = resolve::all_files_of(req);
    let primary = resolve::primary_of("java"@, all, resolve::entry_point_of(entry));
    stems_end_before_the_dot(primary);
}

/// Python runs its main file with the configured interpreter, and every file
/// goes along.
pub proof fn python_runs_its_main_file(
    r: Result<ResolveLanguageOutput, String>,
    req: ResolveLanguageInput,
    lang_config: LanguageCompilationConfig,
    entry: Option<EntryPointConfig>,
)
    requires
        req.language_id@ == "python3"@,
        resolve::resolution_is(r, req, lang_config, entry),
    ensures
        r matches Ok(out) && ({
            let run = text::views(out.run.command@);
            &&& run.len() == 2
            &&& lang_config.interpreter matches Some(i) ==> run[0] == i@
            &&& is_main_file(run[1], req, entry)
            &&& text::views(out.run.extra_files@) == file_names(req)
            &&& out.run.min_process_limit is None
        }),
{
    lemma_languages_differ();
    lemma_all_files(req);
    lemma_main_file(req, entry);
}

/// The command that resolving gives holds every flag that the problem adds, in order, right
/// behind the chosen flags.
pub proof fn resolving_keeps_the_flags_of_the_problem(
    req: &ResolveLanguageInput,
    lang_config: &LanguageCompilationConfig,
    entry: Option<&EntryPointConfig>,
    r: Result<ResolveLanguageOutput, String>,
)
    requires
        call_ensures(resolve::resolve_standard_language, (req, lang_config, entry), r),
        is_compiled(req.language_id@),
    ensures
        r is Ok && r->Ok_0.compile is Some,
        entry is Some && entry->0.extra_compile_flags is Some ==> stands_at(
            text::views(r->Ok_0.compile->0.command@),
            1 + flag_count(*req, *lang_config),
            entry->0.extra_compile_flags->0@,
        ),
        req.overrides is Some && req.overrides->0.flags is Some ==> stands_at(
            text::views(r->Ok_0.compile->0.command@),
            1,
            req.overrides->0.flags->0@,
        ),
        (req.overrides is None || req.overrides->0.flags is None) && lang_config.flags is Some
            ==> stands_at(
            text::views(r->Ok_0.compile->0.command@),
            1,
            lang_config.flags->0@,
        ),
        ({
            let config = resolve::config_value(entry);
            let command = text::views(r->Ok_0.compile->0.command@);
            let at = 1 + flag_count(*req, *lang_config) + extra_count(config);
            &&& at < command.len()
            &&& is_main_file(command[at], *req, config)
        }),
        entry is Some ==> resolve::config_value(entry) == Some(*entry->0),
        entry is None ==> resolve::config_value(entry) is None,
{
    let config = resolve::config_value(entry);
    the_compiler_gets_all_flags(r, *req, *lang_config, config);
    the_compiler_gets_all_files(r, *req, *lang_config, config);
}

/// Every language has its own id, and a default file with one of its endings.
pub proof fn languages_have_their_own_files(r: Vec<LanguageMeta>)
    requires
        call_ensures(resolve::languages, (), r),
    ensures
        r@.len() == 4,
        forall|i: int, j: int|
            0 <= i < j < 4 ==> (#[trigger] r@[i]).id@ != (#[trigger] r@[j]).id@,
        forall|i: int|
            0 <= i < 4 ==> {
                &&& is_compiled((#[trigger] r@[i]).id@) || r@[i].id@ == "python3"@
                &&& r@[i].extensions@.len() > 0
                &&& text::has_suffix(
                    r@[i].default_filename@,
                    "."@ + text::views(r@[i].extensions@)[0],
                )
            },
        forall|i: int|
            0 <= i < 4 && (#[trigger] r@[i]).id@ == "java"@ ==> r@[i].default_filename@
                == "Main.java"@,
{
    lemma_languages_differ();
    reveal_strlit(".");
    reveal_strlit("c");
    reveal_strlit("cpp");
    reveal_strlit("py");
    reveal_strlit("java");
    reveal_strlit("solution.c");
    reveal_strlit("solution.cpp");
    reveal_strlit("solution.py");
    reveal_strlit("Main.java");
    assert("solution.c"@.subrange(8, 10) =~= "."@ + "c"@);
    assert("solution.cpp"@.subrange(8, 12) =~= "."@ + "cpp"@);
    assert("solution.py"@.subrange(8, 11) =~= "."@ + "py"@);
    assert("Main.java"@.subrange(4, 9) =~= "."@ + "java"@);
    assert(text::views(r@[0].extensions@).len() == 1);
    assert(text::views(r@[1].extensions@).len() == 4);
    assert(text::views(r@[2].extensions@).len() == 1);
    assert(text::views(r@[3].extensions@).len() == 1);
    assert forall|i: int| 0 <= i < 4 implies {
        &&& is_compiled((#[trigger] r@[i]).id@) || r@[i].id@ == "python3"@
        &&& r@[i].extensions@.len() > 0
        &&& text::has_suffix(r@[i].default_filename@, "."@ + text::views(r@[i].extensions@)[0])
    } by {
        if i == 0 {
        } else if i == 1 {
        } else if i == 2 {
        } else {
            assert(i == 3);
        }
    }
}

} // verus!
