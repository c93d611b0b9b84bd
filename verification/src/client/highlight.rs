//! Source text as colored lines. The theme is a light one, so that the colors
//! stay legible on paper.

use vstd::prelude::*;

use crate::client::layout::Span;
use crate::text::{chars_of, str_eq, string_of, to_ascii_lower};
use crate::client::layout;
use crate::text;

verus! {

pub const TAB_WIDTH: usize = 4;

// ---------------------------------------------------------------------------
// The highlighter
// ---------------------------------------------------------------------------

/// A highlighting theme: its name and its background.
pub struct ThemeEntry {
    pub name: String,
    pub background: Option<(u8, u8, u8)>,
}

/// The name of the syntax that `SyntaxSet::find_syntax_by_extension` of syntect
/// finds in the default set.
pub uninterp spec fn extension_syntax(extension: Seq<char>) -> Option<Seq<char>>;

/// The name of the syntax that `SyntaxSet::find_syntax_by_token` of syntect
/// finds in the default set.
pub uninterp spec fn token_syntax(token: Seq<char>) -> Option<Seq<char>>;

/// The tokens of lines and their colors, as `HighlightLines` of syntect gives
/// them for a syntax and a theme of the default sets; nothing for a line that it
/// fails on, nothing at all where there is no such syntax or theme.
pub uninterp spec fn tokens_of_lines(
    syntax: Seq<char>,
    theme: Seq<char>,
    lines: Seq<Seq<char>>,
) -> Option<Seq<Option<Seq<(Seq<char>, (u8, u8, u8))>>>>;

pub open spec fn token_views(styled: Option<Vec<Option<Vec<Span>>>>) -> Option<
    Seq<Option<Seq<(Seq<char>, (u8, u8, u8))>>>,
> {
    match styled {
        Some(lines) => Some(
            lines@.map_values(
                |l: Option<Vec<Span>>|
                    match l {
                        Some(spans) => Some(layout::span_views(spans@)),
                        None => None,
                    },
            ),
        ),
        None => None,
    }
}

/// The tokens of each line make up the line.
pub open spec fn tokens_are_whole(
    lines: Seq<Seq<char>>,
    styled: Option<Seq<Option<Seq<(Seq<char>, (u8, u8, u8))>>>>,
) -> bool {
    forall|i: int|
        0 <= i < lines.len() ==> (#[trigger] tokens_at(styled, i) matches Some(t) ==> layout::plain_text(
            layout::run_cells(t),
        ) == lines[i])
}

/// The themes of `ThemeSet::load_defaults` of syntect. InspiredGitHub is
/// documented to be one of them.
#[verifier::external_body]
fn default_themes() -> (r: Vec<ThemeEntry>)
    ensures
        has_theme(r@, "InspiredGitHub"@),
{
    syntect::highlighting::ThemeSet::load_defaults()
        .themes
        .into_iter()
        .map(|(name, theme)| ThemeEntry {
            name,
            background: theme.settings.background.map(|c| (c.r, c.g, c.b)),
        })
        .collect()
}

/// `SyntaxSet::find_syntax_by_extension` of syntect on the default set: the name
/// of what it finds depends on the extension alone.
#[verifier::external_body]
fn syntax_by_extension(extension: &str) -> (r: Option<String>)
    ensures
        text::opt_view(r) == extension_syntax(extension@),
{
    syntect::parsing::SyntaxSet::load_defaults_nonewlines()
        .find_syntax_by_extension(extension)
        .map(|s| s.name.clone())
}

/// `SyntaxSet::find_syntax_by_token` of syntect on the default set: the name of
/// what it finds depends on the token alone.
#[verifier::external_body]
fn syntax_by_token(token: &str) -> (r: Option<String>)
    ensures
        text::opt_view(r) == token_syntax(token@),
{
    syntect::parsing::SyntaxSet::load_defaults_nonewlines()
        .find_syntax_by_token(token)
        .map(|s| s.name.clone())
}

/// `HighlightLines::highlight_line` of syntect on each line in turn: the tokens
/// and their colors depend on the syntax, the theme and the lines alone. Put
/// together, the tokens of a line make the line, as is documented of the
/// iterator that they come from.
#[verifier::external_body]
fn style_lines(syntax: &str, theme: &str, lines: &Vec<String>) -> (r: Option<
    Vec<Option<Vec<Span>>>,
>)
    ensures
        token_views(r) == tokens_of_lines(syntax@, theme@, text::views(lines@)),
        tokens_are_whole(text::views(lines@), token_views(r)),
{
    let ps = syntect::parsing::SyntaxSet::load_defaults_nonewlines();
    let ts = syntect::highlighting::ThemeSet::load_defaults();
    let found = ps.find_syntax_by_name(syntax)?;
    let mut hl = syntect::easy::HighlightLines::new(found, ts.themes.get(theme)?);
    let span = |(style, text): (syntect::highlighting::Style, &str)| Span {
        text: text.to_string(),
        color: (style.foreground.r, style.foreground.g, style.foreground.b),
    };
    let style = |line: &String| {
        let ranges = hl.highlight_line(line, &ps).ok()?;
        Some(ranges.into_iter().map(span).collect())
    };
    Some(lines.iter().map(style).collect())
}

// ---------------------------------------------------------------------------
// Themes
// ---------------------------------------------------------------------------

pub open spec fn has_theme(themes: Seq<ThemeEntry>, name: Seq<char>) -> bool {
    exists|i: int| 0 <= i < themes.len() && (#[trigger] themes[i]).name@ == name
}

/// A background that is light by its luminance, or none.
pub open spec fn is_light(t: ThemeEntry) -> bool {
    match t.background {
        Some(c) => 299 * c.0 + 587 * c.1 + 114 * c.2 > 128000,
        None => true,
    }
}

pub open spec fn first_light(themes: Seq<ThemeEntry>) -> Option<Seq<char>>
    decreases themes.len(),
{
    if themes.len() == 0 {
        None
    } else if is_light(themes[0]) {
        Some(themes[0].name@)
    } else {
        first_light(themes.drop_first())
    }
}

/// The theme to print in: a preferred one, else any light one, else any.
pub open spec fn picked(themes: Seq<ThemeEntry>) -> Option<Seq<char>> {
    if has_theme(themes, "InspiredGitHub"@) {
        Some("InspiredGitHub"@)
    } else if has_theme(themes, "base16-ocean.light"@) {
        Some("base16-ocean.light"@)
    } else if has_theme(themes, "Solarized (light)"@) {
        Some("Solarized (light)"@)
    } else if first_light(themes) is Some {
        first_light(themes)
    } else if themes.len() > 0 {
        Some(themes[0].name@)
    } else {
        None
    }
}

fn named_theme(themes: &Vec<ThemeEntry>, name: &str) -> (r: bool)
    ensures
        r == has_theme(themes@, name@),
{
    let mut i: usize = 0;
    while i < themes.len()
        invariant
            i <= themes@.len(),
            forall|j: int| 0 <= j < i ==> (#[trigger] themes@[j]).name@ != name@,
        decreases themes@.len() - i,
    {
        if str_eq(themes[i].name.as_str(), name) {
            assert(themes@[i as int].name@ == name@);
            return true;
        }
        i += 1;
    }
    false
}

fn light_theme(themes: &Vec<ThemeEntry>) -> (r: Option<String>)
    ensures
        text::opt_view(r) == first_light(themes@),
{
    let mut i: usize = 0;
    assert(themes@.skip(0) =~= themes@);
    while i < themes.len()
        invariant
            i <= themes@.len(),
            first_light(themes@.skip(i as int)) == first_light(themes@),
        decreases themes@.len() - i,
    {
        let light = match themes[i].background {
            Some(c) => 299 * (c.0 as u32) + 587 * (c.1 as u32) + 114 * (c.2 as u32) > 128000,
            None => true,
        };
        proof {
            assert(themes@.skip(i as int)[0] == themes@[i as int]);
            assert(themes@.skip(i as int).drop_first() =~= themes@.skip(i as int + 1));
        }
        if light {
            return Some(themes[i].name.as_str().to_owned());
        }
        i += 1;
    }
    None
}

/// Picks the theme to print in.
pub fn pick_theme(themes: &Vec<ThemeEntry>) -> (r: Option<String>)
    ensures
        text::opt_view(r) == picked(themes@),
{
    if named_theme(themes, "InspiredGitHub") {
        return Some("InspiredGitHub".to_owned());
    }
    if named_theme(themes, "base16-ocean.light") {
        return Some("base16-ocean.light".to_owned());
    }
    if named_theme(themes, "Solarized (light)") {
        return Some("Solarized (light)".to_owned());
    }
    match light_theme(themes) {
        Some(name) => Some(name),
        None => if themes.len() > 0 {
            Some(themes[0].name.as_str().to_owned())
        } else {
            None
        },
    }
}

// ---------------------------------------------------------------------------
// Syntaxes
// ---------------------------------------------------------------------------

/// The file extension of a language, by which its syntax is found; nothing for
/// an unknown one.
pub open spec fn extension_of(language: Seq<char>) -> Seq<char> {
    let l = text::ascii_lower_all(language);
    if l == "cpp"@ || l == "c++"@ || l == "cc"@ || l == "cxx"@ {
        "cpp"@
    } else if l == "c"@ {
        "c"@
    } else if l == "python"@ || l == "python3"@ || l == "py"@ {
        "py"@
    } else if l == "java"@ {
        "java"@
    } else if l == "javascript"@ || l == "js"@ || l == "node"@ {
        "js"@
    } else if l == "typescript"@ || l == "ts"@ {
        "ts"@
    } else if l == "rust"@ || l == "rs"@ {
        "rs"@
    } else if l == "go"@ || l == "golang"@ {
        "go"@
    } else if l == "kotlin"@ || l == "kt"@ {
        "kt"@
    } else if l == "csharp"@ || l == "cs"@ {
        "cs"@
    } else if l == "ruby"@ || l == "rb"@ {
        "rb"@
    } else if l == "php"@ {
        "php"@
    } else if l == "shell"@ || l == "bash"@ || l == "sh"@ {
        "sh"@
    } else {
        ""@
    }
}

pub fn language_extension(language: &str) -> (r: &'static str)
    ensures
        r@ == extension_of(language@),
{
    let lower = to_ascii_lower(language);
    let l = lower.as_str();
    if str_eq(l, "cpp") || str_eq(l, "c++") || str_eq(l, "cc") || str_eq(l, "cxx") {
        "cpp"
    } else if str_eq(l, "c") {
        "c"
    } else if str_eq(l, "python") || str_eq(l, "python3") || str_eq(l, "py") {
        "py"
    } else if str_eq(l, "java") {
        "java"
    } else if str_eq(l, "javascript") || str_eq(l, "js") || str_eq(l, "node") {
        "js"
    } else if str_eq(l, "typescript") || str_eq(l, "ts") {
        "ts"
    } else if str_eq(l, "rust") || str_eq(l, "rs") {
        "rs"
    } else if str_eq(l, "go") || str_eq(l, "golang") {
        "go"
    } else if str_eq(l, "kotlin") || str_eq(l, "kt") {
        "kt"
    } else if str_eq(l, "csharp") || str_eq(l, "cs") {
        "cs"
    } else if str_eq(l, "ruby") || str_eq(l, "rb") {
        "rb"
    } else if str_eq(l, "php") {
        "php"
    } else if str_eq(l, "shell") || str_eq(l, "bash") || str_eq(l, "sh") {
        "sh"
    } else {
        ""
    }
}

/// The syntax for a language, given what its extension and its name find: by
/// extension where it has one, else by name, else plain text.
pub open spec fn chosen_syntax(
    language: Seq<char>,
    by_extension: Option<Seq<char>>,
    by_token: Option<Seq<char>>,
) -> Seq<char> {
    if extension_of(language).len() > 0 && by_extension is Some {
        by_extension->0
    } else if by_token is Some {
        by_token->0
    } else {
        "Plain Text"@
    }
}

/// Chooses the syntax for a language from what its extension and its name find.
pub fn choose_syntax(
    language: &str,
    by_extension: Option<String>,
    by_token: Option<String>,
) -> (r: String)
    ensures
        r@ == chosen_syntax(language@, text::opt_view(by_extension), text::opt_view(by_token)),
{
    if !language_extension(language).is_empty() {
        if let Some(name) = by_extension {
            return name;
        }
    }
    match by_token {
        Some(name) => name,
        None => "Plain Text".to_owned(),
    }
}

/// The name of the syntax that a language is printed in.
pub open spec fn syntax_for(language: Seq<char>) -> Seq<char> {
    chosen_syntax(
        language,
        extension_syntax(extension_of(language)),
        token_syntax(language),
    )
}

/// Finds the syntax that a language is printed in.
pub fn resolve_syntax(language: &str) -> (r: String)
    ensures
        r@ == syntax_for(language@),
{
    let ext = language_extension(language);
    if !ext.is_empty() {
        if let Some(name) = syntax_by_extension(ext) {
            return name;
        }
    }
    choose_syntax(language, None, syntax_by_token(language))
}

// ---------------------------------------------------------------------------
// Lines
// ---------------------------------------------------------------------------

pub open spec fn spaces(n: nat) -> Seq<char> {
    Seq::new(n, |i: int| ' ')
}

/// A line with its tabs widened to the next stop, and without line ends.
pub open spec fn expanded(line: Seq<char>) -> Seq<char>
    decreases line.len(),
{
    if line.len() == 0 {
        seq![]
    } else {
        let before = expanded(line.drop_last());
        let c = line.last();
        if c == '\t' {
            before + spaces((TAB_WIDTH - before.len() % TAB_WIDTH as nat) as nat)
        } else if c == '\n' || c == '\r' {
            before
        } else {
            before.push(c)
        }
    }
}

/// Widens tabs to fixed stops and drops line ends.
pub fn expand_tabs(line: &str) -> (r: String)
    ensures
        r@ == expanded(line@),
{
    let chars = chars_of(line);
    let mut out = String::new();
    let mut col: usize = 0;
    let mut i: usize = 0;
    assert(chars@.take(0) =~= Seq::<char>::empty());
    while i < chars.len()
        invariant
            i <= chars@.len(),
            out@ == expanded(chars@.take(i as int)),
            col < TAB_WIDTH,
            col == out@.len() % TAB_WIDTH as nat,
        decreases chars@.len() - i,
    {
        proof {
            assert(chars@.take(i as int + 1).drop_last() =~= chars@.take(i as int));
            assert(chars@.take(i as int + 1).last() == chars@[i as int]);
        }
        let ghost before = out@;
        let c: char = chars[i];
        if c == '\t' {
            let mut k: usize = col;
            assert(before + spaces(0) =~= before);
            while k < TAB_WIDTH
                invariant
                    col <= k <= TAB_WIDTH,
                    out@ == before + spaces((k - col) as nat),
                decreases TAB_WIDTH - k,
            {
                out.push(' ');
                assert(out@ =~= before + spaces((k + 1 - col) as nat));
                k += 1;
            }
            col = 0;
        } else if c == '\n' || c == '\r' {
        } else {
            out.push(c);
            col = if col + 1 == TAB_WIDTH {
                0
            } else {
                col + 1
            };
        }
        i += 1;
    }
    assert(chars@.take(i as int) =~= chars@);
    out
}

/// The lines of a text, each with its line end.
pub open spec fn pieces(s: Seq<char>) -> Seq<Seq<char>>
    decreases s.len(),
{
    if s.len() == 0 {
        seq![]
    } else {
        let before = pieces(s.drop_last());
        if before.len() == 0 || (before.last().len() > 0 && before.last().last() == '\n') {
            before.push(seq![s.last()])
        } else {
            before.update(before.len() - 1, before.last().push(s.last()))
        }
    }
}

/// The lines of a source text as they are printed.
pub open spec fn source_lines(source: Seq<char>) -> Seq<Seq<char>> {
    pieces(source).map_values(|p: Seq<char>| expanded(p))
}

/// Splits a source text into lines, without line ends and with tabs widened.
pub fn split_source(source: &str) -> (r: Vec<String>)
    ensures
        text::views(r@) == source_lines(source@),
{
    let chars = chars_of(source);
    let mut out: Vec<String> = Vec::new();
    let mut cur: Vec<char> = Vec::new();
    let mut i: usize = 0;
    let ghost mut done: Seq<Seq<char>> = Seq::empty();
    assert(chars@.take(0) =~= Seq::<char>::empty());
    assert(text::views(out@) =~= done.map_values(|p: Seq<char>| expanded(p)));
    while i < chars.len()
        invariant
            i <= chars@.len(),
            text::views(out@) == done.map_values(|p: Seq<char>| expanded(p)),
            forall|k: int| 0 <= k < done.len() ==> (#[trigger] done[k]).len() > 0,
            done.len() > 0 ==> done.last().last() == '\n',
            cur@.len() > 0 ==> cur@.last() != '\n',
            pieces(chars@.take(i as int)) == if cur@.len() == 0 {
                done
            } else {
                done.push(cur@)
            },
        decreases chars@.len() - i,
    {
        let ghost p0 = pieces(chars@.take(i as int));
        let ghost cur0 = cur@;
        proof {
            assert(chars@.take(i as int + 1).drop_last() =~= chars@.take(i as int));
            assert(chars@.take(i as int + 1).last() == chars@[i as int]);
        }
        cur.push(chars[i]);
        let ghost p1 = pieces(chars@.take(i as int + 1));
        proof {
            if cur0.len() == 0 {
                assert(cur@ =~= seq![chars@[i as int]]);
            } else {
                assert(p0.last() == cur0);
            }
            assert(p1 =~= done.push(cur@));
        }
        if chars[i] == '\n' {
            let ghost out0 = out@;
            let text = string_of(cur.as_slice());
            let line = expand_tabs(text.as_str());
            out.push(line);
            proof {
                assert(text::views(out@) =~= text::views(out0).push(expanded(cur@)));
                done = done.push(cur@);
                assert(text::views(out@) =~= done.map_values(|p: Seq<char>| expanded(p)));
            }
            cur = Vec::new();
        }
        i += 1;
    }
    assert(chars@.take(i as int) =~= chars@);
    if cur.len() > 0 {
        let text = string_of(cur.as_slice());
        let line = expand_tabs(text.as_str());
        let ghost out0 = out@;
        out.push(line);
        assert(text::views(out@) =~= text::views(out0).push(expanded(cur@)));
        assert(text::views(out@) =~= done.push(cur@).map_values(|p: Seq<char>| expanded(p)));
    }
    out
}

// ---------------------------------------------------------------------------
// Colored lines
// ---------------------------------------------------------------------------

/// The runs that are not empty.
pub open spec fn visible(spans: Seq<(Seq<char>, (u8, u8, u8))>) -> Seq<
    (Seq<char>, (u8, u8, u8)),
>
    decreases spans.len(),
{
    if spans.len() == 0 {
        seq![]
    } else if spans.last().0.len() == 0 {
        visible(spans.drop_last())
    } else {
        visible(spans.drop_last()).push(spans.last())
    }
}

/// A line in color, or in black where it has no tokens.
pub open spec fn line_spans(
    line: Seq<char>,
    tokens: Option<Seq<(Seq<char>, (u8, u8, u8))>>,
) -> Seq<(Seq<char>, (u8, u8, u8))> {
    match tokens {
        Some(t) => visible(t),
        None => seq![(line, (0u8, 0u8, 0u8))],
    }
}

/// The tokens of line `i`, where there are any.
pub open spec fn tokens_at(
    styled: Option<Seq<Option<Seq<(Seq<char>, (u8, u8, u8))>>>>,
    i: int,
) -> Option<Seq<(Seq<char>, (u8, u8, u8))>> {
    match styled {
        Some(t) => if 0 <= i < t.len() {
            t[i]
        } else {
            None
        },
        None => None,
    }
}

/// Lines in color, given the tokens of each.
pub open spec fn styled_lines(
    lines: Seq<Seq<char>>,
    styled: Option<Seq<Option<Seq<(Seq<char>, (u8, u8, u8))>>>>,
) -> Seq<Seq<(Seq<char>, (u8, u8, u8))>> {
    Seq::new(lines.len(), |i: int| line_spans(lines[i], tokens_at(styled, i)))
}

fn visible_spans(spans: &Vec<Span>) -> (r: Vec<Span>)
    ensures
        layout::span_views(r@) == visible(layout::span_views(spans@)),
{
    let mut out: Vec<Span> = Vec::new();
    let ghost all = layout::span_views(spans@);
    let mut i: usize = 0;
    assert(all.take(0) =~= Seq::<(Seq<char>, (u8, u8, u8))>::empty());
    assert(layout::span_views(out@) =~= visible(all.take(0)));
    while i < spans.len()
        invariant
            i <= spans@.len(),
            all == layout::span_views(spans@),
            layout::span_views(out@) == visible(all.take(i as int)),
        decreases spans@.len() - i,
    {
        let ghost out0 = out@;
        proof {
            assert(all.take(i as int + 1).drop_last() =~= all.take(i as int));
            assert(all.take(i as int + 1).last() == all[i as int]);
            assert(all[i as int] == (spans@[i as int].text@, spans@[i as int].color));
        }
        if !spans[i].text.as_str().is_empty() {
            let span = Span { text: spans[i].text.as_str().to_owned(), color: spans[i].color };
            let ghost s = span;
            out.push(span);
            assert(layout::span_views(out@) =~= layout::span_views(out0).push((s.text@, s.color)));
        }
        i += 1;
    }
    assert(all.take(i as int) =~= all);
    out
}

/// Gives lines their colors. A line without tokens is printed in black.
pub fn spans_of(lines: &Vec<String>, styled: &Option<Vec<Option<Vec<Span>>>>) -> (r: Vec<
    Vec<Span>,
>)
    ensures
        layout::line_views(r@) == styled_lines(text::views(lines@), token_views(*styled)),
{
    let mut out: Vec<Vec<Span>> = Vec::new();
    let mut i: usize = 0;
    while i < lines.len()
        invariant
            i <= lines@.len(),
            out@.len() == i,
            forall|k: int|
                0 <= k < i ==> layout::span_views((#[trigger] out@[k])@) == line_spans(
                    lines@[k]@,
                    tokens_at(token_views(*styled), k),
                ),
        decreases lines@.len() - i,
    {
        let found: Option<&Vec<Span>> = match styled {
            Some(all) => if i < all.len() {
                match &all[i] {
                    Some(spans) => Some(spans),
                    None => None,
                }
            } else {
                None
            },
            None => None,
        };
        match found {
            Some(spans) => {
                let kept = visible_spans(spans);
                out.push(kept);
            },
            None => {
                let mut one: Vec<Span> = Vec::new();
                one.push(Span { text: lines[i].as_str().to_owned(), color: (0, 0, 0) });
                assert(layout::span_views(one@) =~= seq![(lines@[i as int]@, (0u8, 0u8, 0u8))]);
                out.push(one);
            },
        }
        i += 1;
    }
    assert(layout::line_views(out@) =~= styled_lines(text::views(lines@), token_views(*styled)));
    out
}

/// A source text in color, line by line.
pub open spec fn highlighted(source: Seq<char>, language: Seq<char>) -> Seq<
    Seq<(Seq<char>, (u8, u8, u8))>,
> {
    let lines = source_lines(source);
    styled_lines(lines, tokens_of_lines(syntax_for(language), "InspiredGitHub"@, lines))
}

/// Colored lines that hold the characters of `lines`, and no others.
pub open spec fn spell_lines(
    shown: Seq<Seq<(Seq<char>, (u8, u8, u8))>>,
    lines: Seq<Seq<char>>,
) -> bool {
    &&& shown.len() == lines.len()
    &&& forall|i: int|
        0 <= i < lines.len() ==> layout::plain_text(layout::run_cells(#[trigger] shown[i])) == lines[i]
}

/// Highlights a source text. The colors leave its characters as they are.
pub fn highlight(source: &str, language: &str) -> (r: Vec<Vec<Span>>)
    ensures
        layout::line_views(r@) == highlighted(source@, language@),
        spell_lines(layout::line_views(r@), source_lines(source@)),
{
    let lines = split_source(source);
    let themes = default_themes();
    let theme = match pick_theme(&themes) {
        Some(name) => name,
        None => String::new(),
    };
    let syntax = resolve_syntax(language);
    let styled = style_lines(syntax.as_str(), theme.as_str(), &lines);
    proof {
        styling_keeps_the_lines(text::views(lines@), token_views(styled));
    }
    spans_of(&lines, &styled)
}

// ---------------------------------------------------------------------------
// Laws
// ---------------------------------------------------------------------------

/// Texts put together.
pub open spec fn concatenated(parts: Seq<Seq<char>>) -> Seq<char>
    decreases parts.len(),
{
    if parts.len() == 0 {
        seq![]
    } else {
        concatenated(parts.drop_last()) + parts.last()
    }
}

/// Splitting into lines loses nothing, and a line ends only at its end.
pub proof fn lines_make_up_the_source(s: Seq<char>)
    ensures
        concatenated(pieces(s)) == s,
        forall|k: int, j: int|
            0 <= k < pieces(s).len() && 0 <= j < pieces(s)[k].len() - 1 ==> #[trigger] pieces(
                s,
            )[k][j] != '\n',
    decreases s.len(),
{
    if s.len() > 0 {
        let before = pieces(s.drop_last());
        lines_make_up_the_source(s.drop_last());
        assert(s =~= s.drop_last().push(s.last()));
        let after = pieces(s);
        if before.len() == 0 || (before.last().len() > 0 && before.last().last() == '\n') {
            assert(after.drop_last() =~= before);
            assert(concatenated(after) =~= s);
        } else {
            assert(after.drop_last() =~= before.drop_last());
            assert(concatenated(after) =~= concatenated(before.drop_last()) + before.last().push(
                s.last(),
            ));
            assert(concatenated(after) =~= s);
        }
        assert forall|k: int, j: int|
            0 <= k < after.len() && 0 <= j < after[k].len() - 1 implies #[trigger] after[k][j]
            != '\n' by {
            if k < before.len() && after[k] != before[k] {
                if j < before[k].len() - 1 {
                    assert(before[k][j] != '\n');
                    assert(after[k][j] == before[k][j]);
                } else {
                    assert(j == before[k].len() - 1);
                    assert(after[k][j] == before[k].last());
                }
            } else if k < before.len() {
                assert(before[k][j] != '\n');
            }
        }
    }
}

/// What is printed of a line holds no tabs and no line ends.
pub proof fn expanded_lines_are_clean(line: Seq<char>, i: int)
    requires
        0 <= i < expanded(line).len(),
    ensures
        expanded(line)[i] != '\t',
        expanded(line)[i] != '\n',
        expanded(line)[i] != '\r',
    decreases line.len(),
{
    if line.len() > 0 {
        let before = expanded(line.drop_last());
        if i < before.len() {
            expanded_lines_are_clean(line.drop_last(), i);
        }
    }
}

/// A line without tabs and line ends is printed as it is.
pub proof fn clean_lines_are_kept(line: Seq<char>)
    requires
        forall|i: int|
            0 <= i < line.len() ==> (#[trigger] line[i]) != '\t' && line[i] != '\n' && line[i]
                != '\r',
    ensures
        expanded(line) == line,
    decreases line.len(),
{
    if line.len() > 0 {
        assert forall|i: int| 0 <= i < line.drop_last().len() implies (
        #[trigger] line.drop_last()[i]) != '\t' && line.drop_last()[i] != '\n'
            && line.drop_last()[i] != '\r' by {
            assert(line.drop_last()[i] == line[i]);
        }
        clean_lines_are_kept(line.drop_last());
        assert(line.last() == line[line.len() - 1]);
        assert(line =~= line.drop_last().push(line.last()));
    }
}

/// A tab takes a column at least and ends at a stop.
pub proof fn tabs_end_at_stops(line: Seq<char>)
    requires
        line.len() > 0,
        line.last() == '\t',
    ensures
        expanded(line).len() % TAB_WIDTH as nat == 0,
        expanded(line).len() > expanded(line.drop_last()).len(),
{
    let n = expanded(line.drop_last()).len();
    assert((n + (4 - n % 4)) % 4 == 0);
}

proof fn lemma_visible_cells(spans: Seq<(Seq<char>, (u8, u8, u8))>)
    ensures
        layout::run_cells(visible(spans)) == layout::run_cells(spans),
    decreases spans.len(),
{
    if spans.len() > 0 {
        lemma_visible_cells(spans.drop_last());
        if spans.last().0.len() == 0 {
            assert(layout::colored(spans.last()) =~= seq![]);
            assert(layout::run_cells(spans) =~= layout::run_cells(spans.drop_last()));
        } else {
            assert(visible(spans).drop_last() =~= visible(spans.drop_last()));
        }
    }
}

/// A line is printed with all of its characters, and no others, where its tokens
/// make up the line or it has none.
pub proof fn highlighting_keeps_the_text(
    line: Seq<char>,
    tokens: Option<Seq<(Seq<char>, (u8, u8, u8))>>,
)
    requires
        tokens matches Some(t) ==> layout::plain_text(layout::run_cells(t)) == line,
    ensures
        layout::plain_text(layout::run_cells(line_spans(line, tokens))) == line,
{
    match tokens {
        Some(t) => {
            lemma_visible_cells(t);
        },
        None => {
            let spans = line_spans(line, tokens);
            assert(spans.drop_last() =~= seq![]);
            assert(layout::run_cells(spans.drop_last()) =~= seq![]);
            assert(layout::run_cells(spans) =~= layout::colored(spans.last()));
            assert(layout::plain_text(layout::run_cells(spans)) =~= line);
        },
    }
}

/// Lines in color hold their characters, where the tokens of each make up the
/// line.
pub proof fn styling_keeps_the_lines(
    lines: Seq<Seq<char>>,
    styled: Option<Seq<Option<Seq<(Seq<char>, (u8, u8, u8))>>>>,
)
    requires
        tokens_are_whole(lines, styled),
    ensures
        spell_lines(styled_lines(lines, styled), lines),
{
    let shown = styled_lines(lines, styled);
    assert forall|i: int| 0 <= i < lines.len() implies layout::plain_text(
        layout::run_cells(#[trigger] shown[i]),
    ) == lines[i] by {
        highlighting_keeps_the_text(lines[i], tokens_at(styled, i));
    }
}

/// A source text has as many printed lines as it has lines.
pub proof fn every_line_is_highlighted(source: Seq<char>, language: Seq<char>)
    ensures
        highlighted(source, language).len() == pieces(source).len(),
{
}

} // verus!
