//! Comparison word by word.

use vstd::prelude::*;

use crate::checkers::streaming::{tokens_match, TokenMode};
use crate::checkers::types::{accepted, wrong, CheckerParseInput, CheckerVerdict};
use crate::checkers::util::{token_count_msg, token_mismatch_msg, tokenize};
use crate::checkers::types;
use crate::checkers::util;
use crate::checkers::streaming;
use crate::text;

verus! {

/// The verdict on two lists of tokens: the counts first, then the first pair
/// that differs.
pub open spec fn tokens_in_memory(
    v: CheckerVerdict,
    mode: TokenMode,
    expected: Seq<Seq<char>>,
    actual: Seq<Seq<char>>,
) -> bool {
    let k = streaming::agreeing_tokens(mode, expected, actual);
    if expected.len() != actual.len() {
        types::says_wrong(v, util::token_count_text(expected.len(), actual.len()))
    } else if k < expected.len() {
        types::says_wrong(v, util::token_mismatch_text(k + 1, expected[k as int], actual[k as int]))
    } else {
        types::says_accepted(v)
    }
}

/// Compares the words of two texts.
pub fn check_mode(req: &CheckerParseInput, mode: TokenMode) -> (r: CheckerVerdict)
    ensures
        tokens_in_memory(r, mode, util::tokens_of(req.expected()), util::tokens_of(req.actual())),
{
    let expected = tokenize(req.expected_output.inline_text().as_str());
    let actual = tokenize(req.stdout.inline_text().as_str());
    let ghost e = text::views(expected@);
    let ghost a = text::views(actual@);
    if expected.len() != actual.len() {
        return wrong(token_count_msg(expected.len(), actual.len()));
    }
    let mut i: usize = 0;
    while i < expected.len()
        invariant
            i <= expected@.len() == actual@.len(),
            e == text::views(expected@),
            a == text::views(actual@),
            e == util::tokens_of(req.expected()),
            a == util::tokens_of(req.actual()),
            forall|j: int| 0 <= j < i ==> streaming::same_token(mode, #[trigger] e[j], a[j]),
        decreases expected@.len() - i,
    {
        assert(e[i as int] == expected@[i as int]@);
        assert(a[i as int] == actual@[i as int]@);
        if !tokens_match(expected[i].as_str(), actual[i].as_str(), mode) {
            proof {
                streaming::lemma_agreeing_skip(mode, e, a, i as nat);
            }
            return wrong(token_mismatch_msg(i + 1, expected[i].as_str(), actual[i].as_str()));
        }
        i += 1;
    }
    proof {
        streaming::lemma_agreeing_skip(mode, e, a, i as nat);
    }
    accepted()
}

/// Compares the words of two texts, white characters aside.
pub fn check(req: &CheckerParseInput) -> (r: Result<CheckerVerdict, String>)
    ensures
        r matches Ok(v) && tokens_in_memory(
            v,
            TokenMode::Exact,
            util::tokens_of(req.expected()),
            util::tokens_of(req.actual()),
        ),
{
    Ok(check_mode(req, TokenMode::Exact))
}

/// Reading two texts in step accepts exactly what comparing them whole
/// accepts.
pub proof fn tokens_in_step_accept_the_same(
    v: CheckerVerdict,
    w: CheckerVerdict,
    mode: TokenMode,
    expected: Seq<Seq<char>>,
    actual: Seq<Seq<char>>,
)
    requires
        streaming::tokens_verdict(v, mode, expected, actual),
        tokens_in_memory(w, mode, expected, actual),
    ensures
        v.verdict == w.verdict,
        v.verdict is Accepted <==> expected.len() == actual.len() && forall|i: int|
            0 <= i < expected.len() ==> streaming::same_token(mode, #[trigger] expected[i], actual[i]),
{
    lemma_agreeing_bound(mode, expected, actual);
}

/// The exact comparison accepts exactly where the tokens are the same.
pub proof fn exact_tokens_accept_equal_lists(
    v: CheckerVerdict,
    expected: Seq<Seq<char>>,
    actual: Seq<Seq<char>>,
)
    requires
        tokens_in_memory(v, TokenMode::Exact, expected, actual),
    ensures
        v.verdict is Accepted <==> expected == actual,
{
    lemma_agreeing_bound(TokenMode::Exact, expected, actual);
    if v.verdict is Accepted {
        assert(forall|i: int|
            0 <= i < expected.len() ==> streaming::same_token(
                TokenMode::Exact,
                #[trigger] expected[i],
                actual[i],
            ));
        assert(expected =~= actual);
    }
}

pub proof fn lemma_agreeing_bound(mode: TokenMode, e: Seq<Seq<char>>, a: Seq<Seq<char>>)
    ensures
        streaming::agreeing_tokens(mode, e, a) <= e.len(),
        streaming::agreeing_tokens(mode, e, a) <= a.len(),
        forall|i: int|
            0 <= i < streaming::agreeing_tokens(mode, e, a)
                ==> streaming::same_token(mode, #[trigger] e[i], a[i]),
        streaming::agreeing_tokens(mode, e, a) < e.len()
            && streaming::agreeing_tokens(mode, e, a) < a.len()
            ==> !streaming::same_token(
            mode,
            e[streaming::agreeing_tokens(mode, e, a) as int],
            a[streaming::agreeing_tokens(mode, e, a) as int],
        ),
    decreases e.len(),
{
    if e.len() > 0 && a.len() > 0 && streaming::same_token(mode, e[0], a[0]) {
        lemma_agreeing_bound(mode, e.drop_first(), a.drop_first());
        let n = streaming::agreeing_tokens(mode, e, a);
        assert forall|i: int| 0 <= i < n implies streaming::same_token(mode, #[trigger] e[i], a[i]) by {
            if i > 0 {
                assert(streaming::same_token(mode, e.drop_first()[i - 1], a.drop_first()[i - 1]));
            }
        }
    }
}

} // verus!
