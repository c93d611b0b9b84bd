//! No comparison.

use vstd::prelude::*;

use crate::checkers::types::{accepted, CheckerParseInput, CheckerVerdict};
use crate::checkers::types;

verus! {

/// Accepts every output: for cases that only show what the program prints.
pub fn check(_req: &CheckerParseInput) -> (r: Result<CheckerVerdict, String>)
    ensures
        r matches Ok(v) && types::says_accepted(v),
{
    Ok(accepted())
}

} // verus!
