//! Comparison of lines regardless of their order.

use vstd::prelude::*;

use crate::checkers::types::{accepted, wrong, CheckerParseInput, CheckerVerdict};
use crate::checkers::unordered::{first_surplus, occurrences};
use crate::checkers::util::{line_count_msg, split_lines_trimmed, truncate};
use crate::text::decimal;
use crate::checkers::types;
use crate::checkers::util;
use crate::text;

verus! {

pub open spec fn occurrence_text(line: Seq<char>, expected: nat, actual: nat) -> Seq<char> {
    "Line '"@ + util::truncated(line, 100) + "': expected "@ + text::decimal_digits(expected)
        + " occurrences, got "@ + text::decimal_digits(actual)
}

/// The verdict on two lists whose order does not count. Where the lists have
/// the same length and differ, it names a line that occurs a different number
/// of times.
pub open spec fn unordered_verdict(
    v: CheckerVerdict,
    expected: Seq<Seq<char>>,
    actual: Seq<Seq<char>>,
) -> bool {
    if expected.len() != actual.len() {
        types::says_wrong(v, util::line_count_text(expected.len(), actual.len()))
    } else if expected.to_multiset() == actual.to_multiset() {
        types::says_accepted(v)
    } else {
        exists|i: int| #![trigger expected[i]]
            0 <= i < expected.len() && expected.to_multiset().count(expected[i])
                != actual.to_multiset().count(expected[i]) && types::says_wrong(
                v,
                occurrence_text(
                    expected[i],
                    expected.to_multiset().count(expected[i]),
                    actual.to_multiset().count(expected[i]),
                ),
            )
    }
}

/// Accepts the expected lines in any order.
pub fn check(req: &CheckerParseInput) -> (r: Result<CheckerVerdict, String>)
    ensures
        r matches Ok(v) && unordered_verdict(
            v,
            util::trimmed_lines(req.expected()),
            util::trimmed_lines(req.actual()),
        ),
{
    let expected = split_lines_trimmed(req.expected_output.inline_text().as_str());
    let actual = split_lines_trimmed(req.stdout.inline_text().as_str());
    let ghost e = text::views(expected@);
    let ghost a = text::views(actual@);
    if expected.len() != actual.len() {
        return Ok(wrong(line_count_msg(expected.len(), actual.len())));
    }
    match first_surplus(&expected, &actual) {
        None => Ok(accepted()),
        Some(i) => {
            let want: usize = occurrences(&expected, expected[i].as_str());
            let have: usize = occurrences(&actual, expected[i].as_str());
            let mut out = "Line '".to_owned();
            out.append(truncate(expected[i].as_str(), 100).as_str());
            out.append("': expected ");
            out.append(decimal(want as u64).as_str());
            out.append(" occurrences, got ");
            out.append(decimal(have as u64).as_str());
            assert(e[i as int] == expected@[i as int]@);
            assert(out@ == occurrence_text(e[i as int], want as nat, have as nat));
            Ok(wrong(out))
        },
    }
}

} // verus!
