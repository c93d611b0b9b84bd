//! Tokens, lines and the messages that the checkers report.

use vstd::prelude::*;

use crate::text::{chars_of, decimal, is_whitespace, string_of_range, trim_end_range};
use crate::text;

verus! {

// ---------------------------------------------------------------------------
// Truncation
// ---------------------------------------------------------------------------

/// The text, cut after `max` characters and marked where it was longer.
pub open spec fn truncated(s: Seq<char>, max: nat) -> Seq<char> {
    if s.len() <= max {
        s
    } else {
        s.take(max as int) + "... (truncated)"@
    }
}

/// Cuts a string to at most `max_chars` characters.
pub fn truncate(s: &str, max_chars: usize) -> (r: String)
    ensures
        r@ == truncated(s@, max_chars as nat),
{
    let chars = chars_of(s);
    if chars.len() <= max_chars {
        s.to_owned()
    } else {
        let mut out = string_of_range(&chars, 0, max_chars);
        assert(out@ =~= s@.take(max_chars as int));
        out.append("... (truncated)");
        out
    }
}

/// A cut text is at most the marker longer than the limit, and a text within
/// the limit stays as it is.
pub proof fn truncated_is_bounded(s: Seq<char>, max: nat)
    ensures
        truncated(s, max).len() <= max + "... (truncated)"@.len(),
        s.len() <= max ==> truncated(s, max) == s,
        s.len() > max ==> truncated(s, max).take(max as int) == s.take(max as int),
{
    if s.len() > max {
        assert(truncated(s, max).take(max as int) =~= s.take(max as int));
    }
}

// ---------------------------------------------------------------------------
// Tokens
// ---------------------------------------------------------------------------

/// How many characters of `s` stand before the first white one.
pub open spec fn word_len(s: Seq<char>) -> nat
    decreases s.len(),
{
    if s.len() > 0 && !text::is_white(s[0]) {
        1 + word_len(s.drop_first())
    } else {
        0
    }
}

pub proof fn lemma_word_len(s: Seq<char>)
    ensures
        word_len(s) <= s.len(),
        s.len() > 0 && !text::is_white(s[0]) ==> word_len(s) > 0,
        forall|i: int| 0 <= i < word_len(s) ==> !text::is_white(#[trigger] s[i]),
        word_len(s) < s.len() ==> text::is_white(s[word_len(s) as int]),
    decreases s.len(),
{
    if s.len() > 0 && !text::is_white(s[0]) {
        lemma_word_len(s.drop_first());
        assert forall|i: int| 0 <= i < word_len(s) implies !text::is_white(#[trigger] s[i]) by {
            if i > 0 {
                assert(s.drop_first()[i - 1] == s[i]);
            }
        }
    }
}

/// `n` characters that are not white, then a white one or the end: a word of
/// `n` characters.
pub proof fn lemma_word_len_is(s: Seq<char>, n: nat)
    requires
        n <= s.len(),
        forall|i: int| 0 <= i < n ==> !text::is_white(#[trigger] s[i]),
        n < s.len() ==> text::is_white(s[n as int]),
    ensures
        word_len(s) == n,
    decreases s.len(),
{
    if n > 0 {
        assert forall|i: int| 0 <= i < n - 1 implies !text::is_white(#[trigger] s.drop_first()[i]) by {
            assert(s.drop_first()[i] == s[i + 1]);
        }
        lemma_word_len_is(s.drop_first(), (n - 1) as nat);
    }
}

/// The words of `s`, in order: what stands between white characters.
pub open spec fn tokens_of(s: Seq<char>) -> Seq<Seq<char>>
    decreases s.len(),
{
    if s.len() == 0 {
        seq![]
    } else if text::is_white(s[0]) {
        tokens_of(s.drop_first())
    } else {
        let n = word_len(s) as int;
        if 0 < n <= s.len() {
            seq![s.take(n)] + tokens_of(s.skip(n))
        } else {
            seq![]
        }
    }
}

pub proof fn lemma_tokens_white(s: Seq<char>)
    requires
        s.len() > 0,
        text::is_white(s[0]),
    ensures
        tokens_of(s) == tokens_of(s.drop_first()),
{
}

/// A word before a white character or the end is the first token.
pub proof fn lemma_tokens_word(s: Seq<char>, n: int)
    requires
        0 < n <= s.len(),
        forall|i: int| 0 <= i < n ==> !text::is_white(#[trigger] s[i]),
        n < s.len() ==> text::is_white(s[n]),
    ensures
        tokens_of(s) == seq![s.take(n)] + tokens_of(s.skip(n)),
{
    lemma_word_len_is(s, n as nat);
}

/// Every token is a nonempty run of characters that are not white.
pub proof fn tokens_are_words(s: Seq<char>, i: int)
    requires
        0 <= i < tokens_of(s).len(),
    ensures
        tokens_of(s)[i].len() > 0,
        forall|k: int| 0 <= k < tokens_of(s)[i].len()
            ==> !text::is_white(#[trigger] tokens_of(s)[i][k]),
    decreases s.len(),
{
    if s.len() > 0 {
        if text::is_white(s[0]) {
            tokens_are_words(s.drop_first(), i);
        } else {
            lemma_word_len(s);
            let n = word_len(s) as int;
            let rest = tokens_of(s.skip(n));
            assert(tokens_of(s) == seq![s.take(n)] + rest);
            if i == 0 {
                assert forall|k: int| 0 <= k < n implies !text::is_white(#[trigger] s.take(n)[k]) by {
                    assert(s.take(n)[k] == s[k]);
                }
            } else {
                tokens_are_words(s.skip(n), i - 1);
                assert(tokens_of(s)[i] == rest[i - 1]);
            }
        }
    }
}

/// White characters only separate: the tokens of two texts with a white
/// character between them are the tokens of the first and then of the second.
pub proof fn tokens_split_at_white(a: Seq<char>, w: char, b: Seq<char>)
    requires
        text::is_white(w),
    ensures
        tokens_of(a + seq![w] + b) == tokens_of(a) + tokens_of(b),
    decreases a.len(),
{
    let s = a + seq![w] + b;
    if a.len() == 0 {
        assert(s.drop_first() =~= b);
        assert(tokens_of(a) + tokens_of(b) =~= tokens_of(b));
    } else if text::is_white(a[0]) {
        tokens_split_at_white(a.drop_first(), w, b);
        assert(s.drop_first() =~= a.drop_first() + seq![w] + b);
    } else {
        lemma_word_len(a);
        let n = word_len(a) as int;
        assert forall|i: int| 0 <= i < n implies !text::is_white(#[trigger] s[i]) by {
            assert(s[i] == a[i]);
        }
        lemma_tokens_word(s, n);
        tokens_split_at_white(a.skip(n), w, b);
        assert(s.take(n) =~= a.take(n));
        assert(s.skip(n) =~= a.skip(n) + seq![w] + b);
        assert(tokens_of(s) =~= tokens_of(a) + tokens_of(b));
    }
}

/// Put together, the tokens are the text without its white characters.
pub proof fn tokens_make_up_the_text(s: Seq<char>)
    ensures
        tokens_of(s).flatten() == s.filter(|c: char| !text::is_white(c)),
    decreases s.len(),
{
    let dark = |c: char| !text::is_white(c);
    reveal(Seq::filter);
    if s.len() == 0 {
        assert(tokens_of(s).flatten() =~= s.filter(dark));
    } else if text::is_white(s[0]) {
        let rest = s.drop_first();
        tokens_make_up_the_text(rest);
        assert(s =~= seq![s[0]] + rest);
        Seq::filter_distributes_over_add(seq![s[0]], rest, dark);
        let one = seq![s[0]];
        assert(one.drop_last() =~= Seq::<char>::empty());
        assert(Seq::<char>::empty().filter(dark) =~= Seq::<char>::empty());
        assert(one.filter(dark) =~= Seq::<char>::empty());
        assert(Seq::<char>::empty() + rest.filter(dark) =~= rest.filter(dark));
    } else {
        lemma_word_len(s);
        let n = word_len(s) as int;
        let word = s.take(n);
        let rest = s.skip(n);
        tokens_make_up_the_text(rest);
        assert(s =~= word + rest);
        Seq::filter_distributes_over_add(word, rest, dark);
        lemma_dark_word(word);
        let all = tokens_of(s);
        assert(all == seq![word] + tokens_of(rest));
        assert(all.drop_first() =~= tokens_of(rest));
    }
}

proof fn lemma_dark_word(word: Seq<char>)
    requires
        forall|i: int| 0 <= i < word.len() ==> !text::is_white(#[trigger] word[i]),
    ensures
        word.filter(|c: char| !text::is_white(c)) == word,
    decreases word.len(),
{
    reveal(Seq::filter);
    if word.len() > 0 {
        let front = word.drop_last();
        assert forall|i: int| 0 <= i < front.len() implies !text::is_white(
            #[trigger] front[i],
        ) by {
            assert(front[i] == word[i]);
        }
        lemma_dark_word(front);
        assert(!text::is_white(word[word.len() - 1]));
        assert(front.push(word.last()) =~= word);
    }
}

/// Splits a string into its words.
pub fn tokenize(s: &str) -> (r: Vec<String>)
    ensures
        text::views(r@) == tokens_of(s@),
{
    let chars = chars_of(s);
    let mut out: Vec<String> = Vec::new();
    let mut i: usize = 0;
    assert(s@.skip(0) =~= s@);
    assert(text::views(out@) + tokens_of(s@) =~= tokens_of(s@));
    while i < chars.len()
        invariant
            i <= chars@.len(),
            chars@ == s@,
            text::views(out@) + tokens_of(s@.skip(i as int)) == tokens_of(s@),
        decreases chars@.len() - i,
    {
        let ghost rest = s@.skip(i as int);
        if is_whitespace(chars[i]) {
            assert(rest.drop_first() =~= s@.skip(i as int + 1));
            i += 1;
        } else {
            let mut j: usize = i;
            while j < chars.len() && !is_whitespace(chars[j])
                invariant
                    i <= j <= chars@.len(),
                    chars@ == s@,
                    rest == s@.skip(i as int),
                    forall|k: int| 0 <= k < j - i ==> !text::is_white(#[trigger] rest[k]),
                decreases chars@.len() - j,
            {
                assert(rest[j - i] == s@[j as int]);
                j += 1;
            }
            proof {
                if j < s@.len() {
                    assert(rest[j - i] == s@[j as int]);
                }
                if i == j {
                    assert(rest[0] == s@[i as int]);
                }
                lemma_tokens_word(rest, j - i);
                assert(rest.take(j - i) =~= s@.subrange(i as int, j as int));
                assert(rest.skip(j - i) =~= s@.skip(j as int));
            }
            let word = string_of_range(&chars, i, j);
            proof {
                text::lemma_views_push(out@, word);
                assert(text::views(out@).push(word@) + tokens_of(s@.skip(j as int))
                    =~= text::views(out@) + (
                seq![word@] + tokens_of(s@.skip(j as int))));
            }
            out.push(word);
            i = j;
        }
    }
    assert(s@.skip(i as int) =~= Seq::<char>::empty());
    assert(text::views(out@) =~= tokens_of(s@));
    out
}

// ---------------------------------------------------------------------------
// Lines
// ---------------------------------------------------------------------------

/// How many characters of `s` stand before the first line feed.
pub open spec fn line_len(s: Seq<char>) -> nat
    decreases s.len(),
{
    if s.len() > 0 && s[0] != '\n' {
        1 + line_len(s.drop_first())
    } else {
        0
    }
}

pub proof fn lemma_line_len_is(s: Seq<char>, n: nat)
    requires
        n <= s.len(),
        forall|i: int| 0 <= i < n ==> #[trigger] s[i] != '\n',
        n < s.len() ==> s[n as int] == '\n',
    ensures
        line_len(s) == n,
    decreases s.len(),
{
    if n > 0 {
        assert forall|i: int| 0 <= i < n - 1 implies #[trigger] s.drop_first()[i] != '\n' by {
            assert(s.drop_first()[i] == s[i + 1]);
        }
        lemma_line_len_is(s.drop_first(), (n - 1) as nat);
    }
}

/// A line without the carriage return before its line feed.
pub open spec fn strip_cr(l: Seq<char>) -> Seq<char> {
    if l.len() > 0 && l.last() == '\r' {
        l.drop_last()
    } else {
        l
    }
}

/// The lines of `s`: each ends at a line feed (or a carriage return and a line
/// feed); a last line need not end.
pub open spec fn lines_of(s: Seq<char>) -> Seq<Seq<char>>
    decreases s.len(),
{
    if s.len() == 0 {
        seq![]
    } else {
        let n = line_len(s) as int;
        if 0 <= n < s.len() {
            seq![strip_cr(s.take(n))] + lines_of(s.skip(n + 1))
        } else {
            seq![s]
        }
    }
}

/// The lines, each without its trailing white characters.
pub open spec fn right_trimmed(lines: Seq<Seq<char>>) -> Seq<Seq<char>> {
    lines.map_values(|l: Seq<char>| text::trim_end_spec(l))
}

/// The list without the empty lines at its end.
pub open spec fn drop_trailing_empty(lines: Seq<Seq<char>>) -> Seq<Seq<char>>
    decreases lines.len(),
{
    if lines.len() > 0 && lines.last().len() == 0 {
        drop_trailing_empty(lines.drop_last())
    } else {
        lines
    }
}

/// The lines of `s` as the line checkers compare them.
pub open spec fn trimmed_lines(s: Seq<char>) -> Seq<Seq<char>> {
    drop_trailing_empty(right_trimmed(lines_of(s)))
}

pub proof fn lemma_trim_strip(l: Seq<char>)
    ensures
        text::trim_end_spec(strip_cr(l)) == text::trim_end_spec(l),
{
}

pub proof fn lemma_right_trimmed_cons(l: Seq<char>, rest: Seq<Seq<char>>)
    ensures
        right_trimmed(seq![l] + rest) == seq![text::trim_end_spec(l)] + right_trimmed(rest),
{
    assert(right_trimmed(seq![l] + rest) =~= seq![text::trim_end_spec(l)] + right_trimmed(rest));
}

/// The last of the compared lines is not empty.
pub proof fn trimmed_lines_end_in_text(s: Seq<char>)
    ensures
        trimmed_lines(s).len() > 0 ==> trimmed_lines(s).last().len() > 0,
{
    lemma_drop_trailing_last(right_trimmed(lines_of(s)));
}

proof fn lemma_drop_trailing_last(lines: Seq<Seq<char>>)
    ensures
        drop_trailing_empty(lines).len() > 0 ==> drop_trailing_empty(lines).last().len() > 0,
        drop_trailing_empty(lines).len() <= lines.len(),
    decreases lines.len(),
{
    if lines.len() > 0 && lines.last().len() == 0 {
        lemma_drop_trailing_last(lines.drop_last());
    }
}

/// A text that has these lines, with a line feed between each two.
pub open spec fn joined_lines(lines: Seq<Seq<char>>) -> Seq<char>
    decreases lines.len(),
{
    if lines.len() == 0 {
        seq![]
    } else if lines.len() == 1 {
        lines[0]
    } else {
        lines[0].push('\n') + joined_lines(lines.drop_first())
    }
}

/// A line without a line feed, and without white characters at its end.
pub open spec fn is_trimmed_line(l: Seq<char>) -> bool {
    !l.contains('\n') && text::trim_end_spec(l) == l
}

/// Trimming leaves trimmed lines, and those come back when they are joined and
/// split again: to trim a second time changes nothing.
pub proof fn trimming_twice_is_trimming_once(s: Seq<char>)
    ensures
        forall|i: int|
            0 <= i < trimmed_lines(s).len() ==> is_trimmed_line(#[trigger] trimmed_lines(s)[i]),
        lines_of(joined_lines(trimmed_lines(s))) == trimmed_lines(s),
        trimmed_lines(joined_lines(trimmed_lines(s))) == trimmed_lines(s),
{
    let all = right_trimmed(lines_of(s));
    let kept = trimmed_lines(s);
    lemma_drop_trailing_prefix(all);
    assert forall|i: int| 0 <= i < kept.len() implies is_trimmed_line(#[trigger] kept[i]) by {
        assert(kept[i] == all[i]);
        assert(all[i] == text::trim_end_spec(lines_of(s)[i]));
        lemma_lines_hold_no_feed(s, i);
        lemma_trimming_a_line(lines_of(s)[i]);
    }
    trimmed_lines_end_in_text(s);
    lemma_lines_of_joined(kept);
    assert forall|i: int| 0 <= i < kept.len() implies text::trim_end_spec(kept[i])
        == #[trigger] kept[i] by {
        assert(is_trimmed_line(kept[i]));
    }
    assert(right_trimmed(kept) =~= kept);
}

proof fn lemma_drop_trailing_prefix(lines: Seq<Seq<char>>)
    ensures
        drop_trailing_empty(lines).len() <= lines.len(),
        drop_trailing_empty(lines) == lines.take(drop_trailing_empty(lines).len() as int),
    decreases lines.len(),
{
    if lines.len() > 0 && lines.last().len() == 0 {
        lemma_drop_trailing_prefix(lines.drop_last());
        let n = drop_trailing_empty(lines).len() as int;
        assert(lines.drop_last().take(n) =~= lines.take(n));
    } else {
        assert(lines.take(lines.len() as int) =~= lines);
    }
}

proof fn lemma_line_len_bounds(s: Seq<char>)
    ensures
        line_len(s) <= s.len(),
        forall|i: int| 0 <= i < line_len(s) ==> #[trigger] s[i] != '\n',
        line_len(s) < s.len() ==> s[line_len(s) as int] == '\n',
    decreases s.len(),
{
    if s.len() > 0 && s[0] != '\n' {
        let rest = s.drop_first();
        lemma_line_len_bounds(rest);
        assert forall|i: int| 0 <= i < line_len(s) implies #[trigger] s[i] != '\n' by {
            if i > 0 {
                assert(rest[i - 1] == s[i]);
            }
        }
    }
}

proof fn lemma_lines_hold_no_feed(s: Seq<char>, i: int)
    requires
        0 <= i < lines_of(s).len(),
    ensures
        !lines_of(s)[i].contains('\n'),
    decreases s.len(),
{
    lemma_line_len_bounds(s);
    let n = line_len(s) as int;
    if n < s.len() {
        let first = strip_cr(s.take(n));
        if i == 0 {
            assert(lines_of(s)[0] == first);
            assert forall|k: int| 0 <= k < first.len() implies #[trigger] first[k] != '\n' by {
                assert(first[k] == s[k]);
            }
        } else {
            lemma_lines_hold_no_feed(s.skip(n + 1), i - 1);
            assert(lines_of(s)[i] == lines_of(s.skip(n + 1))[i - 1]);
        }
    } else {
        assert(lines_of(s)[i] == s);
    }
}

proof fn lemma_trimming_a_line(l: Seq<char>)
    requires
        !l.contains('\n'),
    ensures
        is_trimmed_line(text::trim_end_spec(l)),
    decreases l.len(),
{
    if l.len() > 0 && text::is_white(l.last()) {
        let rest = l.drop_last();
        assert forall|k: int| 0 <= k < rest.len() implies #[trigger] rest[k] != '\n' by {
            assert(l.contains(l[k]));
        }
        lemma_trimming_a_line(rest);
    }
}

proof fn lemma_lines_of_joined(lines: Seq<Seq<char>>)
    requires
        forall|i: int| 0 <= i < lines.len() ==> is_trimmed_line(#[trigger] lines[i]),
        lines.len() > 0 ==> lines.last().len() > 0,
    ensures
        lines_of(joined_lines(lines)) == lines,
    decreases lines.len(),
{
    if lines.len() > 0 {
        let first = lines[0];
        let text = joined_lines(lines);
        assert(is_trimmed_line(first));
        assert forall|k: int| 0 <= k < first.len() implies #[trigger] first[k] != '\n' by {
            assert(first.contains(first[k]));
        }
        if lines.len() == 1 {
            lemma_line_len_is(text, text.len());
            assert(seq![first] =~= lines);
        } else {
            let rest = lines.drop_first();
            assert forall|i: int| 0 <= i < rest.len() implies is_trimmed_line(
                #[trigger] rest[i],
            ) by {
                assert(rest[i] == lines[i + 1]);
            }
            lemma_lines_of_joined(rest);
            let n = first.len() as int;
            assert forall|k: int| 0 <= k < n implies #[trigger] text[k] != '\n' by {
                assert(text[k] == first[k]);
            }
            lemma_line_len_is(text, first.len());
            assert(text.take(n) =~= first);
            assert(text.skip(n + 1) =~= joined_lines(rest));
            text::lemma_trim_end_tail(first);
            assert(strip_cr(first) == first);
            assert(seq![first] + rest =~= lines);
        }
    } else {
        assert(lines_of(joined_lines(lines)) =~= lines);
    }
}

/// Splits into lines.
pub fn split_lines(s: &str) -> (r: Vec<String>)
    ensures
        text::views(r@) == lines_of(s@),
{
    let chars = chars_of(s);
    let mut out: Vec<String> = Vec::new();
    let mut i: usize = 0;
    assert(s@.skip(0) =~= s@);
    assert(text::views(out@) + lines_of(s@) =~= lines_of(s@));
    while i < chars.len()
        invariant
            i <= chars@.len(),
            chars@ == s@,
            text::views(out@) + lines_of(s@.skip(i as int)) == lines_of(s@),
        decreases chars@.len() - i,
    {
        let ghost rest = s@.skip(i as int);
        let mut j: usize = i;
        while j < chars.len() && chars[j] != '\n'
            invariant
                i <= j <= chars@.len(),
                chars@ == s@,
                rest == s@.skip(i as int),
                forall|k: int| 0 <= k < j - i ==> #[trigger] rest[k] != '\n',
            decreases chars@.len() - j,
        {
            assert(rest[j - i] == s@[j as int]);
            j += 1;
        }
        let end: usize = if j < chars.len() && j > i && chars[j - 1] == '\r' {
            j - 1
        } else {
            j
        };
        let line = string_of_range(&chars, i, end);
        proof {
            if j < s@.len() {
                assert(rest[j - i] == s@[j as int]);
            }
            lemma_line_len_is(rest, (j - i) as nat);
            text::lemma_views_push(out@, line);
            assert(rest.take(j - i) =~= s@.subrange(i as int, j as int));
            if j < s@.len() {
                let tail = lines_of(s@.skip(j as int + 1));
                assert(rest.skip(j - i + 1) =~= s@.skip(j as int + 1));
                assert(line@ =~= strip_cr(rest.take(j - i)));
                assert(text::views(out@).push(line@) + tail =~= text::views(out@) + (seq![line@]
                    + tail));
            } else {
                assert(rest.take(j - i) =~= rest);
                assert(s@.skip(j as int) =~= Seq::<char>::empty());
                assert(lines_of(s@.skip(j as int)) =~= Seq::<Seq<char>>::empty());
                assert(text::views(out@).push(line@) + Seq::<Seq<char>>::empty() =~= text::views(
                    out@,
                ) + seq![line@]);
            }
        }
        out.push(line);
        if j < chars.len() {
            i = j + 1;
        } else {
            i = j;
        }
    }
    assert(s@.skip(i as int) =~= Seq::<char>::empty());
    assert(text::views(out@) =~= lines_of(s@));
    out
}

/// Splits into lines, trims the end of each, drops the empty lines at the end.
pub fn split_lines_trimmed(s: &str) -> (r: Vec<String>)
    ensures
        text::views(r@) == trimmed_lines(s@),
{
    let chars = chars_of(s);
    let mut out: Vec<String> = Vec::new();
    let mut i: usize = 0;
    assert(s@.skip(0) =~= s@);
    assert(text::views(out@) + right_trimmed(lines_of(s@)) =~= right_trimmed(lines_of(s@)));
    while i < chars.len()
        invariant
            i <= chars@.len(),
            chars@ == s@,
            text::views(out@) + right_trimmed(lines_of(s@.skip(i as int)))
                == right_trimmed(lines_of(s@)),
        decreases chars@.len() - i,
    {
        let ghost rest = s@.skip(i as int);
        let mut j: usize = i;
        while j < chars.len() && chars[j] != '\n'
            invariant
                i <= j <= chars@.len(),
                chars@ == s@,
                rest == s@.skip(i as int),
                forall|k: int| 0 <= k < j - i ==> #[trigger] rest[k] != '\n',
            decreases chars@.len() - j,
        {
            assert(rest[j - i] == s@[j as int]);
            j += 1;
        }
        let line = trim_end_range(&chars, i, j);
        proof {
            if j < s@.len() {
                assert(rest[j - i] == s@[j as int]);
            }
            lemma_line_len_is(rest, (j - i) as nat);
            text::lemma_views_push(out@, line);
            assert(rest.take(j - i) =~= s@.subrange(i as int, j as int));
            lemma_trim_strip(rest.take(j - i));
            if j < s@.len() {
                let tail = lines_of(s@.skip(j as int + 1));
                assert(rest.skip(j - i + 1) =~= s@.skip(j as int + 1));
                lemma_right_trimmed_cons(strip_cr(rest.take(j - i)), tail);
                assert(text::views(out@).push(line@) + right_trimmed(tail) =~= text::views(out@)
                    + (seq![line@]
                    + right_trimmed(tail)));
            } else {
                assert(rest.take(j - i) =~= rest);
                assert(s@.skip(j as int) =~= Seq::<char>::empty());
                assert(lines_of(s@.skip(j as int)) =~= Seq::<Seq<char>>::empty());
                lemma_right_trimmed_cons(rest, Seq::<Seq<char>>::empty());
                assert(seq![rest] + Seq::<Seq<char>>::empty() =~= seq![rest]);
                assert(text::views(out@).push(line@) + right_trimmed(Seq::<Seq<char>>::empty())
                    =~= text::views(out@) + (seq![line@] + right_trimmed(Seq::<Seq<char>>::empty())));
            }
        }
        out.push(line);
        if j < chars.len() {
            i = j + 1;
        } else {
            i = j;
        }
    }
    assert(s@.skip(i as int) =~= Seq::<char>::empty());
    assert(text::views(out@) =~= right_trimmed(lines_of(s@)));
    while out.len() > 0 && out[out.len() - 1].as_str().is_empty()
        invariant
            drop_trailing_empty(text::views(out@)) == trimmed_lines(s@),
        decreases out@.len(),
    {
        assert(text::views(out@).last() == out@.last()@);
        assert(text::views(out@).drop_last() =~= text::views(out@.drop_last()));
        out.pop();
    }
    proof {
        if out@.len() > 0 {
            assert(text::views(out@).last() == out@.last()@);
        }
    }
    out
}

/// The first line of a text, empty where there is none.
pub open spec fn first_line_of(s: Seq<char>) -> Seq<char> {
    if lines_of(s).len() > 0 {
        lines_of(s)[0]
    } else {
        Seq::empty()
    }
}

/// The first line of a text.
pub fn first_line(s: &str) -> (r: String)
    ensures
        r@ == first_line_of(s@),
{
    let chars = chars_of(s);
    let mut j: usize = 0;
    while j < chars.len() && chars[j] != '\n'
        invariant
            j <= chars@.len(),
            forall|k: int| 0 <= k < j ==> #[trigger] chars@[k] != '\n',
        decreases chars@.len() - j,
    {
        j += 1;
    }
    proof {
        lemma_line_len_is(s@, j as nat);
    }
    if j == chars.len() {
        let r = string_of_range(&chars, 0, j);
        assert(r@ =~= s@);
        r
    } else if j > 0 && chars[j - 1] == '\r' {
        let r = string_of_range(&chars, 0, j - 1);
        assert(s@.take(j as int).last() == '\r');
        assert(r@ =~= strip_cr(s@.take(j as int)));
        r
    } else {
        let r = string_of_range(&chars, 0, j);
        assert(j > 0 ==> s@.take(j as int).last() == chars@[j - 1]);
        assert(r@ =~= strip_cr(s@.take(j as int)));
        r
    }
}

/// How many characters stand before the first white one.
pub fn split_first_word(chars: &[char]) -> (n: usize)
    ensures
        n == word_len(chars@),
        n <= chars@.len(),
{
    let mut n: usize = 0;
    while n < chars.len() && !is_whitespace(chars[n])
        invariant
            n <= chars@.len(),
            forall|k: int| 0 <= k < n ==> !text::is_white(#[trigger] chars@[k]),
        decreases chars@.len() - n,
    {
        n += 1;
    }
    proof {
        lemma_word_len_is(chars@, n as nat);
    }
    n
}

// ---------------------------------------------------------------------------
// Messages
// ---------------------------------------------------------------------------

pub open spec fn count_text(what: Seq<char>, unit: Seq<char>, expected: nat, actual: nat) -> Seq<
    char,
> {
    what + " count mismatch: expected "@ + text::decimal_digits(expected) + " "@ + unit + ", got "@
        + text::decimal_digits(actual)
}

pub open spec fn token_count_text(expected: nat, actual: nat) -> Seq<char> {
    count_text("Token"@, "tokens"@, expected, actual)
}

pub open spec fn line_count_text(expected: nat, actual: nat) -> Seq<char> {
    count_text("Line"@, "lines"@, expected, actual)
}

pub open spec fn token_mismatch_text(pos: nat, expected: Seq<char>, actual: Seq<char>) -> Seq<
    char,
> {
    "Token mismatch at position "@ + text::decimal_digits(pos) + ": expected '"@ + truncated(expected, 50)
        + "', got '"@ + truncated(actual, 50) + "'"@
}

pub open spec fn line_mismatch_text(line: nat, expected: Seq<char>, actual: Seq<char>) -> Seq<
    char,
> {
    "Line "@ + text::decimal_digits(line) + " differs:\n  expected: '"@ + truncated(expected, 100)
        + "'\n  actual:   '"@ + truncated(actual, 100) + "'"@
}

pub open spec fn diff_preview_text(expected: Seq<char>, actual: Seq<char>, max: nat) -> Seq<char> {
    "Expected:\n"@ + truncated(expected, max) + "\n\nGot:\n"@ + truncated(actual, max)
}

fn count_msg(what: &str, unit: &str, expected: usize, actual: usize) -> (r: String)
    ensures
        r@ == count_text(what@, unit@, expected as nat, actual as nat),
{
    let mut out = what.to_owned();
    out.append(" count mismatch: expected ");
    out.append(decimal(expected as u64).as_str());
    out.append(" ");
    out.append(unit);
    out.append(", got ");
    out.append(decimal(actual as u64).as_str());
    out
}

pub fn token_count_msg(expected: usize, actual: usize) -> (r: String)
    ensures
        r@ == token_count_text(expected as nat, actual as nat),
{
    count_msg("Token", "tokens", expected, actual)
}

pub fn token_mismatch_msg(pos: usize, expected: &str, actual: &str) -> (r: String)
    ensures
        r@ == token_mismatch_text(pos as nat, expected@, actual@),
{
    let mut out = "Token mismatch at position ".to_owned();
    out.append(decimal(pos as u64).as_str());
    out.append(": expected '");
    out.append(truncate(expected, 50).as_str());
    out.append("', got '");
    out.append(truncate(actual, 50).as_str());
    out.append("'");
    out
}

pub fn line_count_msg(expected: usize, actual: usize) -> (r: String)
    ensures
        r@ == line_count_text(expected as nat, actual as nat),
{
    count_msg("Line", "lines", expected, actual)
}

pub fn line_mismatch_msg(line: usize, expected: &str, actual: &str) -> (r: String)
    ensures
        r@ == line_mismatch_text(line as nat, expected@, actual@),
{
    let mut out = "Line ".to_owned();
    out.append(decimal(line as u64).as_str());
    out.append(" differs:\n  expected: '");
    out.append(truncate(expected, 100).as_str());
    out.append("'\n  actual:   '");
    out.append(truncate(actual, 100).as_str());
    out.append("'");
    out
}

pub fn diff_preview(expected: &str, actual: &str, max_chars: usize) -> (r: String)
    ensures
        r@ == diff_preview_text(expected@, actual@, max_chars as nat),
{
    let mut out = "Expected:\n".to_owned();
    out.append(truncate(expected, max_chars).as_str());
    out.append("\n\nGot:\n");
    out.append(truncate(actual, max_chars).as_str());
    out
}

} // verus!
