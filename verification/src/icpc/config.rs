//! Contest settings, the scoreboard freeze, and penalties.

use vstd::prelude::*;

use crate::text::str_eq;

verus! {

/// The settings of a contest.
#[derive(Debug, Clone, Copy, PartialEq, Eq, Structural)]
pub struct ContestConfig {
    /// Minutes of penalty per wrong submission before the accepted one.
    pub penalty_minutes: i32,
    /// Whether compilation errors count as wrong submissions.
    pub count_compile_error: bool,
    /// Whether contestants see the verdict on each test case.
    pub show_test_details: bool,
    /// Whether contestants see all rows during the contest.
    pub public_standings: bool,
    /// Minutes before the end at which the scoreboard freezes; 0 for never.
    pub freeze_minutes: i32,
}

pub fn default_penalty_minutes() -> (r: i32)
    ensures
        r == 20,
{
    20
}

impl Default for ContestConfig {
    fn default() -> (r: Self)
        ensures
            r == (ContestConfig {
                penalty_minutes: 20,
                count_compile_error: false,
                show_test_details: false,
                public_standings: false,
                freeze_minutes: 0,
            }),
    {
        ContestConfig {
            penalty_minutes: default_penalty_minutes(),
            count_compile_error: false,
            show_test_details: false,
            public_standings: false,
            freeze_minutes: 0,
        }
    }
}

/// How the freeze shows to one viewer. A submission at or after
/// `freeze_start_ms` is frozen (`i64::MAX`: none is).
#[derive(Debug, Clone, Copy, PartialEq, Eq, Structural)]
pub struct FreezeView {
    pub freeze_start_ms: i64,
    pub frozen: bool,
    pub can_reveal: bool,
}

/// The elapsed time at which the window opens.
pub open spec fn window_start(freeze_minutes: int, duration_ms: int) -> int {
    if freeze_minutes > 0 {
        if duration_ms - freeze_minutes * 60_000 > 0 {
            duration_ms - freeze_minutes * 60_000
        } else {
            0
        }
    } else {
        i64::MAX as int
    }
}

/// The phases in which the window can be open.
pub open spec fn freezing_phase(phase: Seq<char>) -> bool {
    phase == "during"@ || phase == "after"@
}

/// Whether the window is open: a freeze is set, the contest has begun, the
/// window's start has passed, and nobody has revealed the board.
pub open spec fn window_open(
    freeze_minutes: int,
    phase: Seq<char>,
    revealed: bool,
    duration_ms: int,
    now_elapsed_ms: int,
) -> bool {
    &&& freeze_minutes > 0
    &&& !revealed
    &&& freezing_phase(phase)
    &&& now_elapsed_ms >= window_start(freeze_minutes, duration_ms)
}

/// The window of a contest of this length can be computed in milliseconds.
pub open spec fn window_fits(freeze_minutes: int, duration_ms: int) -> bool {
    freeze_minutes > 0 ==> duration_ms - freeze_minutes * 60_000 >= i64::MIN
}

pub fn freeze_window_start_ms(freeze_minutes: i32, duration_ms: i64) -> (r: i64)
    requires
        window_fits(freeze_minutes as int, duration_ms as int),
    ensures
        r == window_start(freeze_minutes as int, duration_ms as int),
{
    if freeze_minutes > 0 {
        let start: i64 = duration_ms - freeze_minutes as i64 * 60_000;
        if start > 0 {
            start
        } else {
            0
        }
    } else {
        i64::MAX
    }
}

pub fn freeze_window_open(
    freeze_minutes: i32,
    phase: &str,
    revealed: bool,
    duration_ms: i64,
    now_elapsed_ms: i64,
) -> (r: bool)
    requires
        window_fits(freeze_minutes as int, duration_ms as int),
    ensures
        r == window_open(
            freeze_minutes as int,
            phase@,
            revealed,
            duration_ms as int,
            now_elapsed_ms as int,
        ),
{
    let in_window_phase = str_eq(phase, "during") || str_eq(phase, "after");
    freeze_minutes > 0 && !revealed && in_window_phase && now_elapsed_ms >= freeze_window_start_ms(
        freeze_minutes,
        duration_ms,
    )
}

/// What a viewer sees: a contestant's view is split at the window's start, an
/// organizer's never is; an organizer may reveal while the window is open.
pub open spec fn view_of(
    freeze_minutes: int,
    phase: Seq<char>,
    can_view_all: bool,
    revealed: bool,
    duration_ms: int,
    now_elapsed_ms: int,
) -> FreezeView {
    let open = window_open(freeze_minutes, phase, revealed, duration_ms, now_elapsed_ms);
    FreezeView {
        freeze_start_ms: if open && !can_view_all {
            window_start(freeze_minutes, duration_ms) as i64
        } else {
            i64::MAX
        },
        frozen: open && !can_view_all,
        can_reveal: open && can_view_all,
    }
}

pub fn freeze_view(
    freeze_minutes: i32,
    phase: &str,
    can_view_all: bool,
    revealed: bool,
    duration_ms: i64,
    now_elapsed_ms: i64,
) -> (r: FreezeView)
    requires
        window_fits(freeze_minutes as int, duration_ms as int),
    ensures
        r == view_of(
            freeze_minutes as int,
            phase@,
            can_view_all,
            revealed,
            duration_ms as int,
            now_elapsed_ms as int,
        ),
{
    let start: i64 = freeze_window_start_ms(freeze_minutes, duration_ms);
    let open = freeze_window_open(freeze_minutes, phase, revealed, duration_ms, now_elapsed_ms);
    FreezeView {
        freeze_start_ms: if open && !can_view_all {
            start
        } else {
            i64::MAX
        },
        frozen: open && !can_view_all,
        can_reveal: open && can_view_all,
    }
}

/// An organizer's board is never frozen.
pub proof fn organizers_are_never_frozen(
    freeze_minutes: int,
    phase: Seq<char>,
    revealed: bool,
    duration_ms: int,
    now_elapsed_ms: int,
)
    ensures
        ({
            let v = view_of(freeze_minutes, phase, true, revealed, duration_ms, now_elapsed_ms);
            !v.frozen && v.freeze_start_ms == i64::MAX
        }),
{
}

/// Once revealed, before the contest, or without a freeze, nothing is frozen
/// and there is nothing to reveal.
pub proof fn no_freeze_outside_the_window(
    freeze_minutes: int,
    phase: Seq<char>,
    can_view_all: bool,
    revealed: bool,
    duration_ms: int,
    now_elapsed_ms: int,
)
    requires
        revealed || phase == "before"@ || freeze_minutes <= 0,
    ensures
        view_of(freeze_minutes, phase, can_view_all, revealed, duration_ms, now_elapsed_ms) == (
        FreezeView { freeze_start_ms: i64::MAX, frozen: false, can_reveal: false }),
{
    reveal_strlit("before");
    reveal_strlit("during");
    reveal_strlit("after");
    assert("before"@[0] == 'b' && "during"@[0] == 'd' && "after"@[0] == 'a');
}

/// Whoever can reveal is not frozen, and a reveal is on offer exactly while a
/// contestant would be frozen.
pub proof fn reveal_is_offered_while_frozen(
    freeze_minutes: int,
    phase: Seq<char>,
    revealed: bool,
    duration_ms: int,
    now_elapsed_ms: int,
)
    ensures
        view_of(freeze_minutes, phase, true, revealed, duration_ms, now_elapsed_ms).can_reveal
            == view_of(freeze_minutes, phase, false, revealed, duration_ms, now_elapsed_ms).frozen,
        !view_of(freeze_minutes, phase, false, revealed, duration_ms, now_elapsed_ms).can_reveal,
{
}

/// A frozen board stays frozen, through the end of the contest, until it is
/// revealed.
pub proof fn freeze_lasts_until_revealed(
    freeze_minutes: int,
    phase: Seq<char>,
    later_phase: Seq<char>,
    duration_ms: int,
    now_elapsed_ms: int,
    later_elapsed_ms: int,
)
    requires
        view_of(freeze_minutes, phase, false, false, duration_ms, now_elapsed_ms).frozen,
        freezing_phase(later_phase),
        now_elapsed_ms <= later_elapsed_ms,
    ensures
        view_of(freeze_minutes, later_phase, false, false, duration_ms, later_elapsed_ms) == view_of(
            freeze_minutes,
            phase,
            false,
            false,
            duration_ms,
            now_elapsed_ms,
        ),
{
}

// ---------------------------------------------------------------------------
// Penalties
// ---------------------------------------------------------------------------

/// How a contestant stands on a problem.
#[derive(Debug, Clone, Copy, PartialEq, Eq, Structural)]
pub struct ProblemState {
    /// Wrong submissions that count, before the accepted one.
    pub attempts: i32,
    pub solved: bool,
    /// Milliseconds from the start to the accepted submission.
    pub solve_time_ms: Option<i64>,
}

impl Default for ProblemState {
    fn default() -> (r: Self)
        ensures
            r == (ProblemState { attempts: 0, solved: false, solve_time_ms: None }),
    {
        ProblemState { attempts: 0, solved: false, solve_time_ms: None }
    }
}

impl ProblemState {
    /// The whole minutes from the start to the accepted submission.
    pub open spec fn solve_minutes(self) -> int {
        match self.solve_time_ms {
            Some(t) => t as int / 60_000,
            None => 0,
        }
    }

    /// The penalty on this problem: the minutes to the accepted submission and
    /// a fixed number for each wrong one; none where it is not solved.
    pub open spec fn penalty_spec(self, per_attempt: int) -> int {
        if self.solved {
            self.solve_minutes() + self.attempts * per_attempt
        } else {
            0
        }
    }

    /// The minutes as a wide number.
    pub fn solve_minutes_wide(&self) -> (r: i64)
        ensures
            r == self.solve_minutes(),
            -153722867280913 <= r <= 153722867280912,
    {
        let t: i64 = match self.solve_time_ms {
            Some(t) => t,
            None => 0,
        };
        match t.checked_div_euclid(60_000) {
            Some(q) => q,
            None => 0,
        }
    }

    /// The penalty as a number that always fits.
    pub fn penalty_wide(&self, penalty_per_attempt: i32) -> (r: i64)
        ensures
            r == self.penalty_spec(penalty_per_attempt as int),
            -0x4000_0000_0000_0000 - 153722867280913 <= r <= 0x4000_0000_0000_0000
                + 153722867280912,
    {
        if !self.solved {
            return 0;
        }
        let a: i64 = self.attempts as i64;
        let p: i64 = penalty_per_attempt as i64;
        assert(-0x4000_0000_0000_0000 <= a * p <= 0x4000_0000_0000_0000) by (nonlinear_arith)
            requires
                -0x8000_0000 <= a <= 0x7fff_ffff,
                -0x8000_0000 <= p <= 0x7fff_ffff,
        ;
        self.solve_minutes_wide() + a * p
    }

    /// Penalty in minutes for this problem, 0 where it is not solved.
    pub fn penalty_minutes(&self, penalty_per_attempt: i32) -> (r: i32)
        requires
            self.solved ==> i32::MIN <= self.solve_minutes() <= i32::MAX && i32::MIN
                <= self.attempts * penalty_per_attempt <= i32::MAX && i32::MIN
                <= self.penalty_spec(penalty_per_attempt as int) <= i32::MAX,
        ensures
            r == self.penalty_spec(penalty_per_attempt as int),
    {
        self.penalty_wide(penalty_per_attempt) as i32
    }
}

} // verus!
