//! Byte-exact comparison.

use vstd::prelude::*;

use crate::checkers::types::{accepted, wrong, CheckerParseInput, CheckerVerdict};
use crate::checkers::util::diff_preview;
use crate::text::str_eq;
use crate::checkers::types;
use crate::checkers::util;

verus! {

/// Accepts an output that is the expected one, character for character.
pub fn check(req: &CheckerParseInput) -> (r: Result<CheckerVerdict, String>)
    ensures
        r matches Ok(v) && (if req.actual() == req.expected() {
            types::says_accepted(v)
        } else {
            types::says_wrong(v, util::diff_preview_text(req.expected(), req.actual(), 200))
        }),
{
    let actual = req.stdout.inline_text();
    let expected = req.expected_output.inline_text();
    if str_eq(actual.as_str(), expected.as_str()) {
        Ok(accepted())
    } else {
        Ok(wrong(diff_preview(expected.as_str(), actual.as_str(), 200)))
    }
}

} // verus!
