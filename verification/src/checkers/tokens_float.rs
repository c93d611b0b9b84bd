//! Comparison word by word, numbers by value.

use vstd::prelude::*;

use crate::checkers::streaming::{token_mismatch_verdict, NumericPair};
use crate::checkers::types::{accepted, wrong, CheckerParseInput, CheckerVerdict};
use crate::checkers::util::{token_count_msg, tokenize};
use crate::checkers::types;
use crate::checkers::util;
use crate::checkers::streaming;
use crate::text;

verus! {

/// The verdict on two lists of tokens, given what a numeric comparison found
/// of the leading pairs: the counts first, then the first complaint.
pub open spec fn numeric_in_memory(
    v: CheckerVerdict,
    expected: Seq<Seq<char>>,
    actual: Seq<Seq<char>>,
    founds: Seq<NumericPair>,
) -> bool {
    if expected.len() != actual.len() {
        types::says_wrong(v, util::token_count_text(expected.len(), actual.len()))
    } else {
        streaming::numeric_verdict(v, expected, actual, founds)
    }
}

/// Compares the words of two texts; `numeric` compares two words as numbers.
pub fn check<F: Fn(&str, &str) -> NumericPair>(req: &CheckerParseInput, numeric: F) -> (r: Result<
    CheckerVerdict,
    String,
>)
    requires
        forall|x: &str, y: &str| #[trigger] call_requires(numeric, (x, y)),
    ensures
        r matches Ok(v) && ({
            let e = util::tokens_of(req.expected());
            let a = util::tokens_of(req.actual());
            exists|founds: Seq<NumericPair>| #[trigger]
                streaming::can_find_all(numeric, e, a, founds) && numeric_in_memory(v, e, a, founds)
        }),
{
    let expected = tokenize(req.expected_output.inline_text().as_str());
    let actual = tokenize(req.stdout.inline_text().as_str());
    let ghost e = text::views(expected@);
    let ghost a = text::views(actual@);
    assert(e == util::tokens_of(req.expected()));
    assert(a == util::tokens_of(req.actual()));
    let ghost mut founds: Seq<NumericPair> = Seq::empty();
    if expected.len() != actual.len() {
        let v = wrong(token_count_msg(expected.len(), actual.len()));
        proof {
            assert(streaming::can_find_all(numeric, e, a, founds)
                && numeric_in_memory(v, e, a, founds));
        }
        return Ok(v);
    }
    let mut i: usize = 0;
    while i < expected.len()
        invariant
            i <= expected@.len() == actual@.len(),
            e == text::views(expected@),
            a == text::views(actual@),
            e == util::tokens_of(req.expected()),
            a == util::tokens_of(req.actual()),
            founds.len() == i,
            streaming::can_find_all(numeric, e, a, founds),
            streaming::no_complaint_before(e, a, founds, i as int),
            forall|x: &str, y: &str| #[trigger] call_requires(numeric, (x, y)),
        decreases expected@.len() - i,
    {
        let ghost prior = founds;
        let ghost k = i as int;
        assert(e[k] == expected@[k]@);
        assert(a[k] == actual@[k]@);
        let found = numeric(expected[i].as_str(), actual[i].as_str());
        proof {
            founds = founds.push(found);
            assert(streaming::can_find(numeric, e[k], a[k], found));
            assert forall|j: int| 0 <= j < founds.len() implies streaming::can_find(
                numeric,
                e[j],
                a[j],
                #[trigger] founds[j],
            ) by {
                if j < k {
                    assert(founds[j] == prior[j]);
                }
            }
            assert forall|j: int| 0 <= j < k implies streaming::numeric_complaint(
                (j + 1) as nat,
                e[j],
                a[j],
                #[trigger] founds[j],
            ) is None by {
                assert(founds[j] == prior[j]);
            }
        }
        match token_mismatch_verdict(i + 1, expected[i].as_str(), actual[i].as_str(), &found) {
            Some(v) => {
                proof {
                    assert(streaming::can_find_all(numeric, e, a, founds) && numeric_in_memory(
                        v,
                        e,
                        a,
                        founds,
                    ));
                }
                return Ok(v);
            },
            None => {},
        }
        i += 1;
    }
    let v = accepted();
    proof {
        assert(streaming::can_find_all(numeric, e, a, founds) && numeric_in_memory(v, e, a, founds));
    }
    Ok(v)
}

} // verus!
