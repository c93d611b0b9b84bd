//! What a run or a comparison came to.

use vstd::prelude::*;

verus! {

/// The outcome of one test case, or of a whole submission.
#[derive(Debug, Clone, Copy, PartialEq, Eq, Structural)]
pub enum Verdict {
    Accepted,
    WrongAnswer,
    TimeLimitExceeded,
    MemoryLimitExceeded,
    RuntimeError,
    CompileError,
    SystemError,
    Skipped,
    Cancelled,
}

impl Verdict {
    /// Whether the case was never judged.
    pub open spec fn not_judged(self) -> bool {
        self is Skipped || self is Cancelled
    }

    pub fn is_accepted(&self) -> (r: bool)
        ensures
            r == (self is Accepted),
    {
        *self == Verdict::Accepted
    }

    pub fn is_skipped_or_cancelled(&self) -> (r: bool)
        ensures
            r == self.not_judged(),
    {
        *self == Verdict::Skipped || *self == Verdict::Cancelled
    }
}

} // verus!
