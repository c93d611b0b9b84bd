//! Comparison line by line.

use vstd::prelude::*;

use crate::checkers::types::{accepted, wrong, CheckerParseInput, CheckerVerdict};
use crate::checkers::util::{line_count_msg, line_mismatch_msg, split_lines_trimmed};
use crate::text::str_eq;
use crate::checkers::types;
use crate::checkers::util;
use crate::checkers::streaming;
use crate::text;

verus! {

/// The verdict on two lists of lines: the counts first, then the first line
/// that differs.
pub open spec fn lines_in_memory(
    v: CheckerVerdict,
    expected: Seq<Seq<char>>,
    actual: Seq<Seq<char>>,
) -> bool {
    let k = streaming::equal_lines(expected, actual);
    if expected.len() != actual.len() {
        types::says_wrong(v, util::line_count_text(expected.len(), actual.len()))
    } else if k < expected.len() {
        types::says_wrong(v, util::line_mismatch_text(k + 1, expected[k as int], actual[k as int]))
    } else {
        types::says_accepted(v)
    }
}

/// Compares line by line. White characters at the end of a line, and empty
/// lines at the end of the text, do not count.
pub fn check(req: &CheckerParseInput) -> (r: Result<CheckerVerdict, String>)
    ensures
        r matches Ok(v) && lines_in_memory(
            v,
            util::trimmed_lines(req.expected()),
            util::trimmed_lines(req.actual()),
        ),
{
    let expected = split_lines_trimmed(req.expected_output.inline_text().as_str());
    let actual = split_lines_trimmed(req.stdout.inline_text().as_str());
    let ghost e = text::views(expected@);
    let ghost a = text::views(actual@);
    if expected.len() != actual.len() {
        return Ok(wrong(line_count_msg(expected.len(), actual.len())));
    }
    let mut i: usize = 0;
    while i < expected.len()
        invariant
            i <= expected@.len() == actual@.len(),
            e == text::views(expected@),
            a == text::views(actual@),
            e == util::trimmed_lines(req.expected()),
            a == util::trimmed_lines(req.actual()),
            forall|j: int| 0 <= j < i ==> #[trigger] e[j] == a[j],
        decreases expected@.len() - i,
    {
        assert(e[i as int] == expected@[i as int]@);
        assert(a[i as int] == actual@[i as int]@);
        if !str_eq(expected[i].as_str(), actual[i].as_str()) {
            proof {
                streaming::lemma_equal_lines_skip(e, a, i as nat);
            }
            return Ok(
                wrong(line_mismatch_msg(i + 1, expected[i].as_str(), actual[i].as_str())),
            );
        }
        i += 1;
    }
    proof {
        streaming::lemma_equal_lines_skip(e, a, i as nat);
    }
    Ok(accepted())
}

/// Reading two texts in step accepts exactly what comparing them whole
/// accepts.
pub proof fn lines_in_step_accept_the_same(
    v: CheckerVerdict,
    w: CheckerVerdict,
    expected: Seq<Seq<char>>,
    actual: Seq<Seq<char>>,
)
    requires
        streaming::lines_verdict(v, expected, actual),
        lines_in_memory(w, expected, actual),
    ensures
        v.verdict == w.verdict,
        v.verdict is Accepted <==> expected == actual,
{
    lemma_equal_lines_bound(expected, actual);
    if streaming::equal_lines(expected, actual) == expected.len() && expected.len() == actual.len() {
        assert(expected =~= actual);
    }
}

proof fn lemma_equal_lines_bound(e: Seq<Seq<char>>, a: Seq<Seq<char>>)
    ensures
        streaming::equal_lines(e, a) <= e.len(),
        streaming::equal_lines(e, a) <= a.len(),
        forall|i: int| 0 <= i < streaming::equal_lines(e, a) ==> #[trigger] e[i] == a[i],
        e == a ==> streaming::equal_lines(e, a) == e.len(),
    decreases e.len(),
{
    if e.len() > 0 && a.len() > 0 && e[0] == a[0] {
        lemma_equal_lines_bound(e.drop_first(), a.drop_first());
        assert forall|i: int| 0 <= i < streaming::equal_lines(e, a) implies #[trigger] e[i] == a[i] by {
            if i > 0 {
                assert(e.drop_first()[i - 1] == a.drop_first()[i - 1]);
            }
        }
    }
}

} // verus!
