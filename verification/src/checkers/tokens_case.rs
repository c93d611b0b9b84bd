//! Comparison word by word, upper and lower case alike.

use vstd::prelude::*;

use crate::checkers::streaming::TokenMode;
use crate::checkers::tokens::check_mode;
use crate::checkers::types::{CheckerParseInput, CheckerVerdict};
use crate::checkers::tokens;
use crate::checkers::util;

verus! {

/// Compares the words of two texts in lower case; a message shows them as
/// they were written.
pub fn check(req: &CheckerParseInput) -> (r: Result<CheckerVerdict, String>)
    ensures
        r matches Ok(v) && tokens::tokens_in_memory(
            v,
            TokenMode::CaseInsensitive,
            util::tokens_of(req.expected()),
            util::tokens_of(req.actual()),
        ),
{
    Ok(check_mode(req, TokenMode::CaseInsensitive))
}

} // verus!
