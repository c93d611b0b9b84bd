//! The states of a print job.

use vstd::prelude::*;

use crate::text::str_eq;

verus! {

pub const PENDING_APPROVAL: &'static str = "pending_approval";

pub const PENDING: &'static str = "pending";

pub const CLAIMED: &'static str = "claimed";

pub const PRINTING: &'static str = "printing";

pub const DONE: &'static str = "done";

pub const FAILED: &'static str = "failed";

pub const CANCELED: &'static str = "canceled";

/// What a station may report.
pub const STATION_SETTABLE: [&'static str; 3] = [PRINTING, DONE, FAILED];

pub open spec fn valid(s: Seq<char>) -> bool {
    ||| s == PENDING_APPROVAL@
    ||| s == PENDING@
    ||| s == CLAIMED@
    ||| s == PRINTING@
    ||| s == DONE@
    ||| s == FAILED@
    ||| s == CANCELED@
}

pub fn is_valid(s: &str) -> (r: bool)
    ensures
        r == valid(s@),
{
    str_eq(s, PENDING_APPROVAL) || str_eq(s, PENDING) || str_eq(s, CLAIMED) || str_eq(s, PRINTING)
        || str_eq(s, DONE) || str_eq(s, FAILED) || str_eq(s, CANCELED)
}

/// What a station may report.
pub open spec fn settable(s: Seq<char>) -> bool {
    s == PRINTING@ || s == DONE@ || s == FAILED@
}

pub fn is_settable(s: &str) -> (r: bool)
    ensures
        r == settable(s@),
{
    str_eq(s, PRINTING) || str_eq(s, DONE) || str_eq(s, FAILED)
}

/// A station reports states only, and never puts a job back into the queue.
pub proof fn stations_report_valid_states(s: Seq<char>)
    requires
        settable(s),
    ensures
        valid(s),
        s != PENDING@,
        s != PENDING_APPROVAL@,
        s != CLAIMED@,
        s != CANCELED@,
{
    reveal_strlit("pending_approval");
    reveal_strlit("pending");
    reveal_strlit("claimed");
    reveal_strlit("printing");
    reveal_strlit("done");
    reveal_strlit("failed");
    reveal_strlit("canceled");
    assert(PRINTING@.len() == 8 && PENDING@.len() == 7 && DONE@.len() == 4 && FAILED@.len() == 6);
    assert(PENDING_APPROVAL@.len() == 16 && CLAIMED@.len() == 7 && CANCELED@.len() == 8);
    assert(PRINTING@[0] == 'p' && CANCELED@[0] == 'c');
}

} // verus!
