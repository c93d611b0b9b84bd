//! What the comparisons promise, said of the texts and the verdicts themselves.

use vstd::prelude::*;
use vstd::utf8::*;

use crate::checkers::exact;
use crate::checkers::streaming::{ByteSource, NumericPair, StreamingFormat, TokenMode};
use crate::checkers::types::{CheckerParseInput, CheckerVerdict, JudgeFile};
use crate::checkers::lines;
use crate::checkers::streaming;
use crate::checkers::tokens;
use crate::checkers::tokens_case;
use crate::checkers::tokens_float;
use crate::checkers::unordered_lines;
use crate::checkers::unordered_tokens;
use crate::checkers::util;
use crate::text;

verus! {

/// A verdict of a comparison: the full score and nothing to say where the output
/// is accepted, no score and a message where it is wrong, and nothing else.
pub open spec fn fair(v: CheckerVerdict) -> bool {
    if v.verdict is Accepted {
        v.score is Full && v.message is None
    } else {
        v.verdict is WrongAnswer && v.score is Zero && v.message is Some
    }
}

// ---------------------------------------------------------------------------
// Numbers
// ---------------------------------------------------------------------------

/// Two tokens pass where they are numbers that agree, or where one is no number
/// and they are the same.
pub open spec fn passes(expected: Seq<char>, actual: Seq<char>, found: NumericPair) -> bool {
    ||| found is Agree
    ||| found is NotNumbers && expected == actual
}

/// Every two tokens in the same place pass.
pub open spec fn all_pass(
    expected: Seq<Seq<char>>,
    actual: Seq<Seq<char>>,
    founds: Seq<NumericPair>,
) -> bool {
    &&& expected.len() == actual.len() == founds.len()
    &&& forall|i: int|
        0 <= i < founds.len() ==> passes(expected[i], actual[i], #[trigger] founds[i])
}

/// The comparison of numbers accepts exactly where every two tokens in the same
/// place pass; and a pair that does not pass makes the answer wrong.
pub proof fn numbers_are_accepted_where_all_pass(
    v: CheckerVerdict,
    expected: Seq<Seq<char>>,
    actual: Seq<Seq<char>>,
    founds: Seq<NumericPair>,
)
    requires
        founds.len() <= expected.len(),
        founds.len() <= actual.len(),
        streaming::numeric_verdict(v, expected, actual, founds),
    ensures
        fair(v),
        v.verdict is Accepted <==> all_pass(expected, actual, founds),
        forall|i: int|
            0 <= i < founds.len() && !passes(expected[i], actual[i], #[trigger] founds[i])
                ==> v.verdict is WrongAnswer,
{
    let n = founds.len() as int;
    if streaming::numeric_differ(v, expected, actual, founds) {
        assert(!passes(expected[n - 1], actual[n - 1], founds[n - 1]));
    } else {
        assert forall|i: int| 0 <= i < founds.len() implies passes(
            expected[i],
            actual[i],
            #[trigger] founds[i],
        ) by {
            assert(streaming::numeric_complaint(
                (i + 1) as nat,
                expected[i],
                actual[i],
                founds[i],
            ) is None);
        }
    }
}

/// The first pair that does not pass is the one that is reported, by its place.
pub proof fn the_first_failing_pair_is_reported(
    v: CheckerVerdict,
    expected: Seq<Seq<char>>,
    actual: Seq<Seq<char>>,
    founds: Seq<NumericPair>,
    i: int,
)
    requires
        founds.len() <= expected.len(),
        founds.len() <= actual.len(),
        streaming::numeric_verdict(v, expected, actual, founds),
        0 <= i < founds.len(),
        !passes(expected[i], actual[i], founds[i]),
        forall|k: int|
            0 <= k < i ==> passes(expected[k], actual[k], #[trigger] founds[k]),
    ensures
        i == founds.len() - 1,
        v.message matches Some(m) && names_pair(m@, (i + 1) as nat, expected[i], actual[i]),
{
    let n = founds.len() as int;
    assert(streaming::numeric_complaint((i + 1) as nat, expected[i], actual[i], founds[i]) is Some);
    if streaming::numeric_differ(v, expected, actual, founds) {
        if i < n - 1 {
            assert(streaming::numeric_complaint((i + 1) as nat, expected[i], actual[i], founds[i])
                is None);
        }
        if n - 1 < i {
            assert(passes(expected[n - 1], actual[n - 1], founds[n - 1]));
        }
        lemma_complaints_name_their_pair((i + 1) as nat, expected[i], actual[i], founds[i]);
    } else {
        assert(streaming::numeric_complaint((i + 1) as nat, expected[i], actual[i], founds[i])
            is None);
    }
}

proof fn lemma_complaints_name_their_pair(
    pos: nat,
    expected: Seq<char>,
    actual: Seq<char>,
    found: NumericPair,
)
    ensures
        streaming::numeric_complaint(pos, expected, actual, found) matches Some(m) ==> names_pair(
            m,
            pos,
            expected,
            actual,
        ),
{
    let number = text::decimal_digits(pos);
    match found {
        NumericPair::NotNumbers => {
            mismatches_name_their_pair(pos, expected, actual);
        },
        NumericPair::Agree => {},
        NumericPair::NonFinite => {
            let m = streaming::non_finite_text(pos, expected, actual);
            let a = "Non-finite mismatch at token "@;
            let b = ": expected "@;
            let c = ", got "@;
            let x = util::truncated(expected, 50);
            let y = util::truncated(actual, 50);
            lemma_cut(expected, 50);
            lemma_cut(actual, 50);
            assert(m =~= a + number + b + x + c + y + Seq::<char>::empty());
            assert(in_order(m, a, number, b, x, c, y, Seq::<char>::empty()));
        },
        NumericPair::Apart { diff, tolerance } => {
            let m = streaming::float_text(pos, expected, actual, diff@, tolerance@);
            let a = "Float mismatch at token "@;
            let b = ": expected "@;
            let c = ", got "@;
            let d = ", diff "@ + diff@ + " > tolerance "@ + tolerance@;
            assert(m =~= a + number + b + expected + c + actual + d);
            assert(in_order(m, a, number, b, expected, c, actual, d));
        },
    }
}

/// In a stream the tokens-float format accepts only where every two tokens in
/// the same place pass, by what `numeric` can find of them.
pub proof fn streamed_numbers_pass<F: Fn(&str, &str) -> NumericPair>(
    v: CheckerVerdict,
    expected: Seq<u8>,
    actual: Seq<u8>,
    numeric: F,
)
    requires
        valid_utf8(expected),
        valid_utf8(actual),
        streaming::streaming_verdict(v, StreamingFormat::TokensFloat, expected, actual, numeric),
    ensures
        fair(v),
        v.verdict is Accepted ==> numbers_pass(
            numeric,
            util::tokens_of(decode_utf8(expected)),
            util::tokens_of(decode_utf8(actual)),
        ),
{
    let e = util::tokens_of(decode_utf8(expected));
    let a = util::tokens_of(decode_utf8(actual));
    let founds = choose|founds: Seq<NumericPair>| #[trigger]
        streaming::can_find_all(numeric, e, a, founds) && streaming::numeric_verdict(
            v,
            e,
            a,
            founds,
        );
    numbers_are_accepted_where_all_pass(v, e, a, founds);
    if v.verdict is Accepted {
        lemma_pass_one_by_one(numeric, e, a, founds);
    }
}

/// The lists are as long as each other, and of every two tokens in the same
/// place `numeric` can find that they pass.
pub open spec fn numbers_pass<F: Fn(&str, &str) -> NumericPair>(
    numeric: F,
    expected: Seq<Seq<char>>,
    actual: Seq<Seq<char>>,
) -> bool {
    &&& expected.len() == actual.len()
    &&& forall|i: int|
        0 <= i < expected.len() ==> {
            ||| #[trigger] expected[i] == actual[i] && can_be(
                numeric,
                expected[i],
                actual[i],
                NumericPair::NotNumbers,
            )
            ||| can_be(numeric, expected[i], actual[i], NumericPair::Agree)
        }
}

/// `numeric` can answer so, asked about these two tokens.
pub open spec fn can_be<F: Fn(&str, &str) -> NumericPair>(
    numeric: F,
    expected: Seq<char>,
    actual: Seq<char>,
    answer: NumericPair,
) -> bool {
    exists|x: &str, y: &str|
        x@ == expected && y@ == actual && #[trigger] call_ensures(numeric, (x, y), answer)
}

proof fn lemma_pass_one_by_one<F: Fn(&str, &str) -> NumericPair>(
    numeric: F,
    e: Seq<Seq<char>>,
    a: Seq<Seq<char>>,
    founds: Seq<NumericPair>,
)
    requires
        streaming::can_find_all(numeric, e, a, founds),
        all_pass(e, a, founds),
    ensures
        numbers_pass(numeric, e, a),
{
    assert forall|i: int| 0 <= i < e.len() implies {
        ||| #[trigger] e[i] == a[i] && can_be(numeric, e[i], a[i], NumericPair::NotNumbers)
        ||| can_be(numeric, e[i], a[i], NumericPair::Agree)
    } by {
        assert(streaming::can_find(numeric, e[i], a[i], founds[i]));
        assert(passes(e[i], a[i], founds[i]));
        let (x, y) = choose|x: &str, y: &str|
            x@ == e[i] && y@ == a[i] && #[trigger] call_ensures(numeric, (x, y), founds[i]);
        if founds[i] is Agree {
            assert(founds[i] == NumericPair::Agree);
            assert(can_be(numeric, e[i], a[i], NumericPair::Agree));
        } else {
            assert(founds[i] == NumericPair::NotNumbers);
            assert(can_be(numeric, e[i], a[i], NumericPair::NotNumbers));
        }
    }
}

/// In memory the tokens-float checker accepts only where every two tokens in the
/// same place pass.
pub proof fn whole_numbers_pass<F: Fn(&str, &str) -> NumericPair>(
    v: CheckerVerdict,
    expected: Seq<Seq<char>>,
    actual: Seq<Seq<char>>,
    numeric: F,
    founds: Seq<NumericPair>,
)
    requires
        streaming::can_find_all(numeric, expected, actual, founds),
        tokens_float::numeric_in_memory(v, expected, actual, founds),
    ensures
        fair(v),
        v.verdict is Accepted <==> all_pass(expected, actual, founds),
        v.verdict is Accepted ==> numbers_pass(numeric, expected, actual),
{
    if expected.len() == actual.len() {
        numbers_are_accepted_where_all_pass(v, expected, actual, founds);
        if v.verdict is Accepted {
            lemma_pass_one_by_one(numeric, expected, actual, founds);
        }
    }
}

/// Two words that are not both numbers, by all that `numeric` can say, and that
/// differ, are never accepted: neither in a stream nor in memory.
pub proof fn different_words_are_wrong<F: Fn(&str, &str) -> NumericPair>(
    v: CheckerVerdict,
    expected: Seq<Seq<char>>,
    actual: Seq<Seq<char>>,
    numeric: F,
    founds: Seq<NumericPair>,
    i: int,
)
    requires
        streaming::can_find_all(numeric, expected, actual, founds),
        streaming::numeric_verdict(v, expected, actual, founds)
            || tokens_float::numeric_in_memory(v, expected, actual, founds),
        0 <= i < expected.len(),
        i < actual.len(),
        expected[i] != actual[i],
        forall|answer: NumericPair| #[trigger]
            can_be(numeric, expected[i], actual[i], answer) ==> !(answer is Agree),
    ensures
        v.verdict is WrongAnswer,
        v.score is Zero,
{
    if expected.len() == actual.len() || streaming::numeric_verdict(v, expected, actual, founds) {
        numbers_are_accepted_where_all_pass(v, expected, actual, founds);
        if all_pass(expected, actual, founds) {
            assert(passes(expected[i], actual[i], founds[i]));
            assert(streaming::can_find(numeric, expected[i], actual[i], founds[i]));
            assert(can_be(numeric, expected[i], actual[i], founds[i]));
        }
    }
}

// ---------------------------------------------------------------------------
// Tokens and lines
// ---------------------------------------------------------------------------

/// Two tokens are the same: as they are, or in lower case.
pub open spec fn alike(any_case: bool, expected: Seq<char>, actual: Seq<char>) -> bool {
    if any_case {
        text::lowercase_of(expected) == text::lowercase_of(actual)
    } else {
        expected == actual
    }
}

/// The lists are as long as each other, and the tokens in the same place alike.
pub open spec fn all_alike(
    any_case: bool,
    expected: Seq<Seq<char>>,
    actual: Seq<Seq<char>>,
) -> bool {
    &&& expected.len() == actual.len()
    &&& forall|i: int|
        0 <= i < expected.len() ==> alike(any_case, #[trigger] expected[i], actual[i])
}

proof fn lemma_first_unlike(mode: TokenMode, e: Seq<Seq<char>>, a: Seq<Seq<char>>)
    ensures
        ({
            let k = streaming::agreeing_tokens(mode, e, a) as int;
            &&& k <= e.len()
            &&& k <= a.len()
            &&& forall|i: int|
                0 <= i < k ==> alike(mode is CaseInsensitive, #[trigger] e[i], a[i])
            &&& k < e.len() && k < a.len() ==> !alike(mode is CaseInsensitive, e[k], a[k])
        }),
{
    crate::checkers::tokens::lemma_agreeing_bound(mode, e, a);
    let k = streaming::agreeing_tokens(mode, e, a) as int;
    assert forall|i: int| 0 <= i < k implies alike(
        mode is CaseInsensitive,
        #[trigger] e[i],
        a[i],
    ) by {
        assert(streaming::same_token(mode, e[i], a[i]));
    }
}

/// The token checkers accept exactly where the tokens in the same place are
/// alike, in memory and in a stream.
pub proof fn tokens_are_accepted_where_alike(
    v: CheckerVerdict,
    mode: TokenMode,
    expected: Seq<Seq<char>>,
    actual: Seq<Seq<char>>,
)
    requires
        tokens::tokens_in_memory(v, mode, expected, actual) || streaming::tokens_verdict(
            v,
            mode,
            expected,
            actual,
        ),
    ensures
        fair(v),
        v.verdict is Accepted <==> all_alike(mode is CaseInsensitive, expected, actual),
{
    lemma_first_unlike(mode, expected, actual);
    let k = streaming::agreeing_tokens(mode, expected, actual) as int;
    if k < expected.len() && k < actual.len() {
        assert(!alike(mode is CaseInsensitive, expected[k], actual[k]));
    }
}

/// Of two lists of the same length, the first place where the tokens are not
/// alike is the one that is reported.
pub proof fn the_first_unlike_token_is_reported(
    v: CheckerVerdict,
    mode: TokenMode,
    expected: Seq<Seq<char>>,
    actual: Seq<Seq<char>>,
    i: int,
)
    requires
        tokens::tokens_in_memory(v, mode, expected, actual) && expected.len() == actual.len()
            || streaming::tokens_verdict(v, mode, expected, actual),
        0 <= i < expected.len(),
        i < actual.len(),
        !alike(mode is CaseInsensitive, expected[i], actual[i]),
        forall|k: int|
            0 <= k < i ==> alike(mode is CaseInsensitive, #[trigger] expected[k], actual[k]),
    ensures
        v.message matches Some(m) && names_pair(m@, (i + 1) as nat, expected[i], actual[i]),
{
    lemma_first_unlike(mode, expected, actual);
    let k = streaming::agreeing_tokens(mode, expected, actual) as int;
    if k < i {
        assert(alike(mode is CaseInsensitive, expected[k], actual[k]));
    }
    if i < k {
        assert(alike(mode is CaseInsensitive, expected[i], actual[i]));
    }
    mismatches_name_their_pair((i + 1) as nat, expected[i], actual[i]);
}

/// The line checkers accept exactly where the compared lines are the same, in
/// memory and in a stream.
pub proof fn lines_are_accepted_where_equal(
    v: CheckerVerdict,
    expected: Seq<Seq<char>>,
    actual: Seq<Seq<char>>,
)
    requires
        lines::lines_in_memory(v, expected, actual) || streaming::lines_verdict(
            v,
            expected,
            actual,
        ),
    ensures
        fair(v),
        v.verdict is Accepted <==> expected == actual,
{
    lemma_first_other_line(expected, actual);
    let k = streaming::equal_lines(expected, actual) as int;
    if expected.len() == actual.len() && k == expected.len() {
        assert(expected =~= actual);
    }
}

proof fn lemma_first_other_line(e: Seq<Seq<char>>, a: Seq<Seq<char>>)
    ensures
        ({
            let k = streaming::equal_lines(e, a) as int;
            &&& k <= e.len()
            &&& k <= a.len()
            &&& forall|i: int| 0 <= i < k ==> #[trigger] e[i] == a[i]
            &&& k < e.len() && k < a.len() ==> e[k] != a[k]
        }),
    decreases e.len(),
{
    if e.len() > 0 && a.len() > 0 && e[0] == a[0] {
        lemma_first_other_line(e.drop_first(), a.drop_first());
        let k = streaming::equal_lines(e, a) as int;
        assert forall|i: int| 0 <= i < k implies #[trigger] e[i] == a[i] by {
            if i > 0 {
                assert(e.drop_first()[i - 1] == a.drop_first()[i - 1]);
            }
        }
    }
}

/// Of two lists of the same length, the first line that differs is the one that
/// is reported.
pub proof fn the_first_other_line_is_reported(
    v: CheckerVerdict,
    expected: Seq<Seq<char>>,
    actual: Seq<Seq<char>>,
    i: int,
)
    requires
        lines::lines_in_memory(v, expected, actual) && expected.len() == actual.len()
            || streaming::lines_verdict(v, expected, actual),
        0 <= i < expected.len(),
        i < actual.len(),
        expected[i] != actual[i],
        forall|k: int| 0 <= k < i ==> #[trigger] expected[k] == actual[k],
    ensures
        v.message matches Some(m) && names_lines(m@, (i + 1) as nat, expected[i], actual[i]),
{
    lemma_first_other_line(expected, actual);
    let k = streaming::equal_lines(expected, actual) as int;
    if k < i {
        assert(expected[k] == actual[k]);
    }
    mismatches_name_their_lines((i + 1) as nat, expected[i], actual[i]);
}

/// The unordered checkers accept exactly where each token, or line, occurs as
/// often in the one text as in the other.
pub proof fn unordered_lists_are_accepted_as_multisets(
    v: CheckerVerdict,
    expected: Seq<Seq<char>>,
    actual: Seq<Seq<char>>,
)
    requires
        unordered_tokens::unordered_verdict(v, expected, actual)
            || unordered_lines::unordered_verdict(v, expected, actual),
    ensures
        fair(v),
        v.verdict is Accepted <==> expected.to_multiset() == actual.to_multiset(),
{
    if expected.to_multiset() == actual.to_multiset() {
        expected.to_multiset_ensures();
        actual.to_multiset_ensures();
    }
}

/// A comparison of text in a stream is fair too, also where the text ends in
/// bytes that cannot be read: then nothing is accepted.
pub proof fn streams_are_judged_fairly<F: Fn(&str, &str) -> NumericPair>(
    v: CheckerVerdict,
    format: StreamingFormat,
    expected: Seq<u8>,
    actual: Seq<u8>,
    numeric: F,
)
    requires
        streaming::streaming_verdict(v, format, expected, actual, numeric),
    ensures
        fair(v),
        v.verdict is Accepted ==> format is Exact || valid_utf8(expected) && valid_utf8(actual),
        format is Exact ==> (v.verdict is Accepted <==> expected == actual),
        format is Lines && v.verdict is Accepted ==> util::trimmed_lines(decode_utf8(expected))
            == util::trimmed_lines(decode_utf8(actual)),
        format is Tokens && v.verdict is Accepted ==> util::tokens_of(decode_utf8(expected))
            == util::tokens_of(decode_utf8(actual)),
        format is TokensCaseInsensitive && v.verdict is Accepted ==> all_alike(
            true,
            util::tokens_of(decode_utf8(expected)),
            util::tokens_of(decode_utf8(actual)),
        ),
{
    if !(format is Exact) {
        if valid_utf8(expected) && valid_utf8(actual) {
            let e = decode_utf8(expected);
            let a = decode_utf8(actual);
            match format {
                StreamingFormat::Lines => {
                    lines_are_accepted_where_equal(
                        v,
                        util::trimmed_lines(e),
                        util::trimmed_lines(a),
                    );
                },
                StreamingFormat::Tokens => {
                    let x = util::tokens_of(e);
                    let y = util::tokens_of(a);
                    tokens_are_accepted_where_alike(v, TokenMode::Exact, x, y);
                    if v.verdict is Accepted {
                        assert forall|i: int| 0 <= i < x.len() implies x[i] == y[i] by {
                            assert(alike(false, x[i], y[i]));
                        }
                        assert(x =~= y);
                    }
                },
                StreamingFormat::TokensCaseInsensitive => {
                    tokens_are_accepted_where_alike(
                        v,
                        TokenMode::CaseInsensitive,
                        util::tokens_of(e),
                        util::tokens_of(a),
                    );
                },
                StreamingFormat::TokensFloat => {
                    streamed_numbers_pass(v, expected, actual, numeric);
                },
                StreamingFormat::Exact => {},
            }
        }
    }
}

// ---------------------------------------------------------------------------
// Messages
// ---------------------------------------------------------------------------

/// A text made of these parts, one after the other.
pub open spec fn in_order(
    m: Seq<char>,
    a: Seq<char>,
    number: Seq<char>,
    b: Seq<char>,
    expected: Seq<char>,
    c: Seq<char>,
    actual: Seq<char>,
    d: Seq<char>,
) -> bool {
    m == a + number + b + expected + c + actual + d
}

/// A long text is shown by its start, so many characters of it.
pub open spec fn stands_for(shown: Seq<char>, whole: Seq<char>, max: int) -> bool {
    if whole.len() <= max {
        shown == whole
    } else {
        shown.len() > max && shown.take(max) == whole.take(max)
    }
}

/// A message that names the place of two tokens, counted from one, then shows
/// the expected one, then the actual one: each whole, or by its first fifty
/// characters.
pub open spec fn names_pair(
    m: Seq<char>,
    pos: nat,
    expected: Seq<char>,
    actual: Seq<char>,
) -> bool {
    exists|
        a: Seq<char>,
        b: Seq<char>,
        x: Seq<char>,
        c: Seq<char>,
        y: Seq<char>,
        d: Seq<char>,
    |
        {
            &&& #[trigger] in_order(m, a, text::decimal_digits(pos), b, x, c, y, d)
            &&& x == expected || stands_for(x, expected, 50)
            &&& y == actual || stands_for(y, actual, 50)
        }
}

/// The same of two lines, each by its first hundred characters.
pub open spec fn names_lines(
    m: Seq<char>,
    pos: nat,
    expected: Seq<char>,
    actual: Seq<char>,
) -> bool {
    exists|
        a: Seq<char>,
        b: Seq<char>,
        x: Seq<char>,
        c: Seq<char>,
        y: Seq<char>,
        d: Seq<char>,
    |
        {
            &&& #[trigger] in_order(m, a, text::decimal_digits(pos), b, x, c, y, d)
            &&& stands_for(x, expected, 100)
            &&& stands_for(y, actual, 100)
        }
}

proof fn lemma_cut(s: Seq<char>, max: nat)
    ensures
        stands_for(util::truncated(s, max), s, max as int),
{
    reveal_strlit("... (truncated)");
    if s.len() > max {
        assert(util::truncated(s, max).take(max as int) =~= s.take(max as int));
    }
}

/// The message on two tokens names their place and shows both.
pub proof fn mismatches_name_their_pair(pos: nat, expected: Seq<char>, actual: Seq<char>)
    ensures
        names_pair(util::token_mismatch_text(pos, expected, actual), pos, expected, actual),
{
    let m = util::token_mismatch_text(pos, expected, actual);
    let a = "Token mismatch at position "@;
    let b = ": expected '"@;
    let c = "', got '"@;
    let d = "'"@;
    let x = util::truncated(expected, 50);
    let y = util::truncated(actual, 50);
    lemma_cut(expected, 50);
    lemma_cut(actual, 50);
    assert(in_order(m, a, text::decimal_digits(pos), b, x, c, y, d));
}

/// The message on two lines names their number and shows both.
pub proof fn mismatches_name_their_lines(line: nat, expected: Seq<char>, actual: Seq<char>)
    ensures
        names_lines(util::line_mismatch_text(line, expected, actual), line, expected, actual),
{
    let m = util::line_mismatch_text(line, expected, actual);
    let a = "Line "@;
    let b = " differs:\n  expected: '"@;
    let c = "'\n  actual:   '"@;
    let d = "'"@;
    let x = util::truncated(expected, 100);
    let y = util::truncated(actual, 100);
    lemma_cut(expected, 100);
    lemma_cut(actual, 100);
    assert(in_order(m, a, text::decimal_digits(line), b, x, c, y, d));
}

/// A message that says first how many were expected, then how many there are.
pub open spec fn tells_counts(m: Seq<char>, expected: nat, actual: nat) -> bool {
    exists|a: Seq<char>, b: Seq<char>|
        m == #[trigger] (a + text::decimal_digits(expected) + b) + text::decimal_digits(actual)
}

/// Where the numbers of tokens, or of lines, differ, the message tells both.
pub proof fn different_counts_are_told(
    v: CheckerVerdict,
    mode: TokenMode,
    founds: Seq<NumericPair>,
    expected: Seq<Seq<char>>,
    actual: Seq<Seq<char>>,
)
    requires
        tokens::tokens_in_memory(v, mode, expected, actual) || lines::lines_in_memory(
            v,
            expected,
            actual,
        ) || tokens_float::numeric_in_memory(v, expected, actual, founds)
            || unordered_tokens::unordered_verdict(v, expected, actual)
            || unordered_lines::unordered_verdict(v, expected, actual),
        expected.len() != actual.len(),
    ensures
        v.message matches Some(m) && tells_counts(m@, expected.len(), actual.len()),
{
    lemma_counts_are_told(expected.len(), actual.len());
}

proof fn lemma_counts_are_told(expected: nat, actual: nat)
    ensures
        tells_counts(util::token_count_text(expected, actual), expected, actual),
        tells_counts(util::line_count_text(expected, actual), expected, actual),
{
    let e = text::decimal_digits(expected);
    let n = text::decimal_digits(actual);
    let a = "Token"@ + " count mismatch: expected "@;
    let b = " "@ + "tokens"@ + ", got "@;
    assert(util::token_count_text(expected, actual) =~= (a + e + b) + n);
    let a = "Line"@ + " count mismatch: expected "@;
    let b = " "@ + "lines"@ + ", got "@;
    assert(util::line_count_text(expected, actual) =~= (a + e + b) + n);
}

// ---------------------------------------------------------------------------
// Words and lines of a text
// ---------------------------------------------------------------------------

/// The white characters are these.
pub proof fn white_characters_are_these(c: char)
    ensures
        text::is_white(c) <==> seq![
            0x9int,
            0xa,
            0xb,
            0xc,
            0xd,
            0x20,
            0x85,
            0xa0,
            0x1680,
            0x2000,
            0x2001,
            0x2002,
            0x2003,
            0x2004,
            0x2005,
            0x2006,
            0x2007,
            0x2008,
            0x2009,
            0x200a,
            0x2028,
            0x2029,
            0x202f,
            0x205f,
            0x3000,
        ].contains(c as int),
{
    let all = seq![
        0x9int,
        0xa,
        0xb,
        0xc,
        0xd,
        0x20,
        0x85,
        0xa0,
        0x1680,
        0x2000,
        0x2001,
        0x2002,
        0x2003,
        0x2004,
        0x2005,
        0x2006,
        0x2007,
        0x2008,
        0x2009,
        0x200a,
        0x2028,
        0x2029,
        0x202f,
        0x205f,
        0x3000,
    ];
    let n = c as int;
    if text::is_white(c) {
        let k: int = if n <= 0xd {
            n - 9
        } else if n == 0x20 {
            5
        } else if n == 0x85 {
            6
        } else if n == 0xa0 {
            7
        } else if n == 0x1680 {
            8
        } else if n <= 0x200a {
            n - 0x2000 + 9
        } else if n == 0x2028 {
            20
        } else if n == 0x2029 {
            21
        } else if n == 0x202f {
            22
        } else if n == 0x205f {
            23
        } else {
            24
        };
        assert(all[k] == n);
    }
    if all.contains(n) {
        let k = choose|k: int| 0 <= k < all.len() && all[k] == n;
        assert(0 <= k < 25);
    }
}

/// Trimming takes white characters off the end, all of them and nothing else.
pub proof fn trimming_takes_the_white_end(s: Seq<char>)
    ensures
        ({
            let t = text::trim_end_spec(s);
            &&& t.len() <= s.len()
            &&& t == s.take(t.len() as int)
            &&& t.len() > 0 ==> !text::is_white(t[t.len() - 1])
            &&& forall|i: int| t.len() <= i < s.len() ==> text::is_white(#[trigger] s[i])
        }),
    decreases s.len(),
{
    let t = text::trim_end_spec(s);
    if s.len() > 0 && text::is_white(s.last()) {
        let rest = s.drop_last();
        trimming_takes_the_white_end(rest);
        assert(rest.take(t.len() as int) =~= s.take(t.len() as int));
        assert forall|i: int| t.len() <= i < s.len() implies text::is_white(#[trigger] s[i]) by {
            if i < rest.len() {
                assert(rest[i] == s[i]);
            }
        }
    } else {
        assert(s.take(s.len() as int) =~= s);
    }
}

/// A text without a line feed is one line; a line feed ends a line, with the
/// carriage return before it; and nothing follows the last line feed.
pub proof fn line_feeds_end_lines(line: Seq<char>, rest: Seq<char>)
    requires
        forall|i: int| 0 <= i < line.len() ==> #[trigger] line[i] != '\n',
    ensures
        line.len() > 0 ==> util::lines_of(line) == seq![line],
        util::lines_of(Seq::<char>::empty()).len() == 0,
        line.len() == 0 || line[line.len() - 1] != '\r' ==> util::lines_of(
            line + seq!['\n'] + rest,
        ) == seq![line] + util::lines_of(rest),
        util::lines_of(line + seq!['\r', '\n'] + rest) == seq![line] + util::lines_of(rest),
{
    if line.len() > 0 {
        util::lemma_line_len_is(line, line.len());
    }
    let s = line + seq!['\n'] + rest;
    let n = line.len() as int;
    assert forall|i: int| 0 <= i < n implies #[trigger] s[i] != '\n' by {
        assert(s[i] == line[i]);
    }
    assert(s[n] == '\n');
    util::lemma_line_len_is(s, line.len());
    assert(s.take(n) =~= line);
    assert(s.skip(n + 1) =~= rest);
    let t = line + seq!['\r', '\n'] + rest;
    let whole = line.push('\r');
    assert forall|i: int| 0 <= i < n + 1 implies #[trigger] t[i] != '\n' by {
        assert(t[i] == whole[i]);
        if i < n {
            assert(whole[i] == line[i]);
        }
    }
    assert(t[n + 1] == '\n');
    util::lemma_line_len_is(t, (n + 1) as nat);
    assert(t.take(n + 1) =~= whole);
    assert(whole.drop_last() =~= line);
    assert(t.skip(n + 2) =~= rest);
}

/// The compared lines are the lines, each trimmed at its end, without the empty
/// ones at the end of the text.
pub proof fn compared_lines_are_trimmed(s: Seq<char>)
    ensures
        ({
            let all = util::lines_of(s);
            let kept = util::trimmed_lines(s);
            &&& kept.len() <= all.len()
            &&& forall|i: int|
                0 <= i < kept.len() ==> #[trigger] kept[i] == text::trim_end_spec(all[i])
            &&& kept.len() > 0 ==> kept[kept.len() - 1].len() > 0
            &&& forall|i: int|
                kept.len() <= i < all.len() ==> text::trim_end_spec(#[trigger] all[i]).len() == 0
        }),
{
    lemma_drop_trailing(util::right_trimmed(util::lines_of(s)));
    let all = util::lines_of(s);
    let trimmed = util::right_trimmed(all);
    assert forall|i: int| util::trimmed_lines(s).len() <= i < all.len() implies
        text::trim_end_spec(#[trigger] all[i]).len() == 0 by {
        assert(trimmed[i] == text::trim_end_spec(all[i]));
    }
}

proof fn lemma_drop_trailing(lines: Seq<Seq<char>>)
    ensures
        ({
            let kept = util::drop_trailing_empty(lines);
            &&& kept.len() <= lines.len()
            &&& forall|i: int| 0 <= i < kept.len() ==> #[trigger] kept[i] == lines[i]
            &&& kept.len() > 0 ==> kept[kept.len() - 1].len() > 0
            &&& forall|i: int| kept.len() <= i < lines.len() ==> (#[trigger] lines[i]).len() == 0
        }),
    decreases lines.len(),
{
    if lines.len() > 0 && lines.last().len() == 0 {
        let rest = lines.drop_last();
        lemma_drop_trailing(rest);
        let kept = util::drop_trailing_empty(lines);
        assert forall|i: int| kept.len() <= i < lines.len() implies (#[trigger] lines[i]).len()
            == 0 by {
            if i < rest.len() {
                assert(rest[i] == lines[i]);
            }
        }
    }
}

// ---------------------------------------------------------------------------
// The checkers themselves
// ---------------------------------------------------------------------------

/// Two tokens are reported as wrong exactly where they do not pass: where they are numbers
/// that do not agree, or where they are not both numbers and not the same text.
pub proof fn a_pair_is_wrong_where_it_does_not_pass(
    position: usize,
    expected: &str,
    actual: &str,
    found: &NumericPair,
    r: Option<CheckerVerdict>,
)
    requires
        call_ensures(
            streaming::token_mismatch_verdict,
            (position, expected, actual, found),
            r,
        ),
    ensures
        *found is Agree ==> r is None,
        *found is NotNumbers ==> (r is None <==> expected@ == actual@),
        !(*found is Agree) && !(*found is NotNumbers) ==> r is Some,
        r is Some ==> r->0.verdict is WrongAnswer && r->0.score is Zero && r->0.message is Some,
{
}

/// The tokens-float checker accepts where every two tokens in the same place pass, and
/// rejects everything else.
pub proof fn the_float_checker_accepts_what_passes<F: Fn(&str, &str) -> NumericPair>(
    req: &CheckerParseInput,
    numeric: F,
    r: Result<CheckerVerdict, String>,
)
    requires
        call_ensures(tokens_float::check::<F>, (req, numeric), r),
    ensures
        r is Ok && fair(r->Ok_0),
        r->Ok_0.verdict is Accepted ==> numbers_pass(
            numeric,
            util::tokens_of(req.expected()),
            util::tokens_of(req.actual()),
        ),
        ({
            let e = util::tokens_of(req.expected());
            let a = util::tokens_of(req.actual());
            e.len() == a.len() && (forall|i: int, answer: NumericPair|
                0 <= i < e.len() && #[trigger] can_be(numeric, e[i], a[i], answer) ==> passes(
                    e[i],
                    a[i],
                    answer,
                )) ==> r->Ok_0.verdict is Accepted
        }),
{
    let v = r->Ok_0;
    let e = util::tokens_of(req.expected());
    let a = util::tokens_of(req.actual());
    let founds = choose|founds: Seq<NumericPair>| #[trigger]
        streaming::can_find_all(numeric, e, a, founds) && tokens_float::numeric_in_memory(
            v,
            e,
            a,
            founds,
        );
    whole_numbers_pass(v, e, a, numeric, founds);
    if e.len() == a.len() && (forall|i: int, answer: NumericPair|
        0 <= i < e.len() && #[trigger] can_be(numeric, e[i], a[i], answer) ==> passes(
            e[i],
            a[i],
            answer,
        )) {
        assert forall|i: int| 0 <= i < founds.len() implies passes(
            e[i],
            a[i],
            #[trigger] founds[i],
        ) by {
            assert(streaming::can_find(numeric, e[i], a[i], founds[i]));
            assert(can_be(numeric, e[i], a[i], founds[i]));
        }
        let n = founds.len() as int;
        if n > 0 {
            assert(passes(e[n - 1], a[n - 1], founds[n - 1]));
        }
        assert(all_pass(e, a, founds));
    }
}

/// The other checkers on whole texts, by what they compare: the texts, their trimmed
/// lines or their tokens, in order or in any, as they are or in lower case.
pub proof fn the_checkers_accept_what_is_the_same(
    req: &CheckerParseInput,
    exact: Result<CheckerVerdict, String>,
    by_line: Result<CheckerVerdict, String>,
    by_token: Result<CheckerVerdict, String>,
    in_any_case: Result<CheckerVerdict, String>,
    lines_in_any_order: Result<CheckerVerdict, String>,
    tokens_in_any_order: Result<CheckerVerdict, String>,
)
    requires
        call_ensures(exact::check, (req,), exact),
        call_ensures(lines::check, (req,), by_line),
        call_ensures(tokens::check, (req,), by_token),
        call_ensures(tokens_case::check, (req,), in_any_case),
        call_ensures(unordered_lines::check, (req,), lines_in_any_order),
        call_ensures(unordered_tokens::check, (req,), tokens_in_any_order),
    ensures
        req.stdout matches JudgeFile::Inline { text } ==> req.actual() == text@,
        req.expected_output matches JudgeFile::Inline { text } ==> req.expected() == text@,
        exact is Ok && fair(exact->Ok_0) && (exact->Ok_0.verdict is Accepted <==> req.expected()
            == req.actual()),
        by_line is Ok && fair(by_line->Ok_0) && (by_line->Ok_0.verdict is Accepted
            <==> util::trimmed_lines(req.expected()) == util::trimmed_lines(req.actual())),
        by_token is Ok && fair(by_token->Ok_0) && (by_token->Ok_0.verdict is Accepted <==> all_alike(
            false,
            util::tokens_of(req.expected()),
            util::tokens_of(req.actual()),
        )),
        in_any_case is Ok && fair(in_any_case->Ok_0) && (in_any_case->Ok_0.verdict is Accepted
            <==> all_alike(
            true,
            util::tokens_of(req.expected()),
            util::tokens_of(req.actual()),
        )),
        lines_in_any_order is Ok && fair(lines_in_any_order->Ok_0) && (
        lines_in_any_order->Ok_0.verdict is Accepted <==> util::trimmed_lines(
            req.expected(),
        ).to_multiset() == util::trimmed_lines(req.actual()).to_multiset()),
        tokens_in_any_order is Ok && fair(tokens_in_any_order->Ok_0) && (
        tokens_in_any_order->Ok_0.verdict is Accepted <==> util::tokens_of(
            req.expected(),
        ).to_multiset() == util::tokens_of(req.actual()).to_multiset()),
{
    let (l, k) = (util::trimmed_lines(req.expected()), util::trimmed_lines(req.actual()));
    let (e, a) = (util::tokens_of(req.expected()), util::tokens_of(req.actual()));
    lines_are_accepted_where_equal(by_line->Ok_0, l, k);
    tokens_are_accepted_where_alike(by_token->Ok_0, TokenMode::Exact, e, a);
    tokens_are_accepted_where_alike(in_any_case->Ok_0, TokenMode::CaseInsensitive, e, a);
    unordered_lists_are_accepted_as_multisets(lines_in_any_order->Ok_0, l, k);
    unordered_lists_are_accepted_as_multisets(tokens_in_any_order->Ok_0, e, a);
}

/// A stream that can be read to its end is accepted exactly where the whole text would
/// be; one that cannot is an error or wrong.
pub proof fn streams_are_accepted_as_whole_texts<
    E: ByteSource,
    A: ByteSource,
    F: Fn(&str, &str) -> NumericPair,
>(
    format: StreamingFormat,
    expected: E,
    actual: A,
    numeric: F,
    r: Result<CheckerVerdict, String>,
)
    requires
        call_ensures(
            streaming::check_streaming::<E, A, F>,
            (format, expected, actual, numeric),
            r,
        ),
    ensures
        r is Ok ==> fair(r->Ok_0),
        ({
            let (x, y) = (expected.remaining(), actual.remaining());
            let (e, a) = (decode_utf8(x), decode_utf8(y));
            &&& valid_utf8(x) && valid_utf8(y) && !expected.may_fail() && !actual.may_fail()
                ==> r is Ok
            &&& format is Exact && r is Ok ==> (r->Ok_0.verdict is Accepted <==> x == y)
            &&& !(valid_utf8(x) && valid_utf8(y)) && !(format is Exact) && r is Ok
                ==> r->Ok_0.verdict is WrongAnswer
            &&& valid_utf8(x) && valid_utf8(y) && r is Ok ==> {
                &&& format is Lines ==> (r->Ok_0.verdict is Accepted <==> util::trimmed_lines(e)
                    == util::trimmed_lines(a))
                &&& format is Tokens ==> (r->Ok_0.verdict is Accepted <==> all_alike(
                    false,
                    util::tokens_of(e),
                    util::tokens_of(a),
                ))
                &&& format is TokensCaseInsensitive ==> (r->Ok_0.verdict is Accepted <==> all_alike(
                    true,
                    util::tokens_of(e),
                    util::tokens_of(a),
                ))
            }
        }),
{
    let (x, y) = (expected.remaining(), actual.remaining());
    let (e, a) = (decode_utf8(x), decode_utf8(y));
    if r is Ok {
        let v = r->Ok_0;
        streams_are_judged_fairly(v, format, x, y, numeric);
        if valid_utf8(x) && valid_utf8(y) {
            if format is Lines {
                lines_are_accepted_where_equal(v, util::trimmed_lines(e), util::trimmed_lines(a));
            }
            if format is Tokens {
                tokens_are_accepted_where_alike(
                    v,
                    TokenMode::Exact,
                    util::tokens_of(e),
                    util::tokens_of(a),
                );
            }
            if format is TokensCaseInsensitive {
                tokens_are_accepted_where_alike(
                    v,
                    TokenMode::CaseInsensitive,
                    util::tokens_of(e),
                    util::tokens_of(a),
                );
            }
        }
    }
}

} // verus!
