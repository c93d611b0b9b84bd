//! A cap on the number of submissions to a problem.

use vstd::prelude::*;

use crate::http::{HttpError, HttpRequest};
use crate::sql::{Draft, Query, QueryBuilder, SqlView};
use crate::statement::{BinOp, Term, Upsert, Val};
use crate::text::{concat, decimal_i64};
use crate::http;
use crate::sql;
use crate::statement;
use crate::text;

verus! {

/// How long, in seconds, a claim counts that has not been confirmed.
pub const PENDING_GRACE_SECS: i64 = 30;

/// The statement that creates the table of claims.
pub const SCHEMA_SQL: &'static str = "CREATE TABLE IF NOT EXISTS submission_limit_claim (user_id           INTEGER NOT NULL, problem_id        INTEGER NOT NULL, contest_id        INTEGER NOT NULL DEFAULT 0, confirmed         INTEGER NOT NULL DEFAULT 0, pending           INTEGER NOT NULL DEFAULT 0, oldest_pending_at TIMESTAMPTZ, PRIMARY KEY (user_id, problem_id, contest_id))";

#[derive(Debug, Clone, Copy, PartialEq, Eq, Structural)]
pub struct LimitsConfig {
    pub max_submissions: Option<u32>,
}

/// The settings that hold for a problem.
#[derive(Debug, Clone, Copy, PartialEq, Eq, Structural)]
pub struct EffectiveLimits {
    pub is_enabled: bool,
    pub config: LimitsConfig,
}

/// The contest that a claim belongs to; zero stands for none.
pub open spec fn key_of(contest_id: Option<i32>) -> i32 {
    match contest_id {
        Some(c) => c,
        None => 0,
    }
}

pub fn contest_key(contest_id: Option<i32>) -> (r: i32)
    ensures
        r == key_of(contest_id),
{
    match contest_id {
        Some(c) => c,
        None => 0,
    }
}

/// The cap that holds; none where the settings are missing or switched off, or
/// where the cap is zero.
pub open spec fn cap_of(limits: Option<EffectiveLimits>) -> Option<u32> {
    match limits {
        Some(l) => match l.config.max_submissions {
            Some(max) => if l.is_enabled && max > 0 {
                Some(max)
            } else {
                None
            },
            None => None,
        },
        None => None,
    }
}

/// The cap that holds. A submission is claimed and confirmed only where there
/// is one.
pub fn effective_cap(limits: Option<EffectiveLimits>) -> (r: Option<u32>)
    ensures
        r == cap_of(limits),
{
    match limits {
        Some(l) => match l.config.max_submissions {
            Some(max) => if l.is_enabled && max > 0 {
                Some(max)
            } else {
                None
            },
            None => None,
        },
        None => None,
    }
}

// ---------------------------------------------------------------------------
// Claims
// ---------------------------------------------------------------------------

/// The claims of one contestant on one problem.
#[derive(Debug, Clone, Copy, PartialEq, Eq, Structural)]
pub struct ClaimRow {
    /// Submissions that were made.
    pub confirmed: u32,
    /// Claims on their way to one.
    pub pending: u32,
    /// When the oldest of these was made, in seconds.
    pub oldest_pending_at: Option<i64>,
}

/// Whether the claims on their way still count.
pub open spec fn live(oldest: Option<i64>, now: int) -> bool {
    oldest matches Some(t) && t > now - PENDING_GRACE_SECS
}

/// The slots that are taken.
pub open spec fn taken(row: Option<ClaimRow>, now: int) -> int {
    match row {
        Some(r) => r.confirmed + if live(r.oldest_pending_at, now) {
            r.pending as int
        } else {
            0
        },
        None => 0,
    }
}

/// The claims after one more: the first claim always wins, the others while
/// slots are left. Claims that no longer count are given up with it.
pub open spec fn claimed(row: Option<ClaimRow>, now: i64, max: u32) -> Option<ClaimRow> {
    match row {
        None => Some(
            ClaimRow { confirmed: 0, pending: 1, oldest_pending_at: Some(now) },
        ),
        Some(r) => if taken(row, now as int) < max {
            if live(r.oldest_pending_at, now as int) {
                Some(
                    ClaimRow {
                        confirmed: r.confirmed,
                        pending: (r.pending + 1) as u32,
                        oldest_pending_at: r.oldest_pending_at,
                    },
                )
            } else {
                Some(
                    ClaimRow {
                        confirmed: r.confirmed,
                        pending: 1,
                        oldest_pending_at: Some(now),
                    },
                )
            }
        } else {
            None
        },
    }
}

/// The claims after a submission was made: it counts, and one claim on its way
/// is released, if there is any.
pub open spec fn confirmed(row: Option<ClaimRow>) -> ClaimRow {
    match row {
        None => ClaimRow { confirmed: 1, pending: 0, oldest_pending_at: None },
        Some(r) => {
            let left = if r.pending > 0 {
                (r.pending - 1) as u32
            } else {
                0u32
            };
            ClaimRow {
                confirmed: (r.confirmed + 1) as u32,
                pending: left,
                oldest_pending_at: if left == 0 {
                    None
                } else {
                    r.oldest_pending_at
                },
            }
        },
    }
}

/// What the claiming statement does to the row of a contestant; `None` where
/// the cap is reached and the row stays as it is.
pub fn claim_row(row: Option<ClaimRow>, now: i64, max: u32) -> (r: Option<ClaimRow>)
    ensures
        r == claimed(row, now, max),
{
    match row {
        None => Some(ClaimRow { confirmed: 0, pending: 1, oldest_pending_at: Some(now) }),
        Some(c) => {
            let live = match c.oldest_pending_at {
                Some(t) => (t as i128) > now as i128 - PENDING_GRACE_SECS as i128,
                None => false,
            };
            let count: u64 = c.confirmed as u64 + if live {
                c.pending as u64
            } else {
                0
            };
            if count >= max as u64 {
                return None;
            }
            if live {
                Some(
                    ClaimRow {
                        confirmed: c.confirmed,
                        pending: c.pending + 1,
                        oldest_pending_at: c.oldest_pending_at,
                    },
                )
            } else {
                Some(
                    ClaimRow {
                        confirmed: c.confirmed,
                        pending: 1,
                        oldest_pending_at: Some(now),
                    },
                )
            }
        },
    }
}

/// What the confirming statement does to the row of a contestant.
pub fn confirm_row(row: Option<ClaimRow>) -> (r: ClaimRow)
    requires
        row matches Some(c) ==> c.confirmed < u32::MAX,
    ensures
        r == confirmed(row),
{
    match row {
        None => ClaimRow { confirmed: 1, pending: 0, oldest_pending_at: None },
        Some(c) => {
            let left: u32 = if c.pending > 0 {
                c.pending - 1
            } else {
                0
            };
            ClaimRow {
                confirmed: c.confirmed + 1,
                pending: left,
                oldest_pending_at: if left == 0 {
                    None
                } else {
                    c.oldest_pending_at
                },
            }
        },
    }
}

/// A claim takes one slot more, and never more slots than there are. It leaves
/// the submissions made as they are.
pub proof fn claims_respect_the_cap(row: Option<ClaimRow>, now: i64, max: u32)
    requires
        max >= 1,
    ensures
        claimed(row, now, max) matches Some(after) ==> taken(Some(after), now as int) == taken(
            row,
            now as int,
        ) + 1 <= max,
        claimed(row, now, max) is None <==> row is Some && taken(row, now as int) >= max,
        claimed(row, now, max) matches Some(after) ==> after.confirmed == (match row {
            Some(before) => before.confirmed,
            None => 0,
        }),
{
}

/// What is kept after a claim: the row as it was, where the claim is refused.
pub open spec fn after_claim(row: Option<ClaimRow>, now: i64, max: u32) -> Option<ClaimRow> {
    match claimed(row, now, max) {
        Some(after) => Some(after),
        None => row,
    }
}

/// Slots within the cap stay within it, through every claim and as time goes
/// by.
pub proof fn the_cap_is_kept(row: Option<ClaimRow>, now: i64, later: int, max: u32)
    requires
        max >= 1,
        taken(row, now as int) <= max,
        now <= later,
    ensures
        taken(after_claim(row, now, max), now as int) <= max,
        taken(after_claim(row, now, max), later) <= max,
{
}

/// How many of `n` claims win that come one after the other at one time.
pub open spec fn claims_won(row: Option<ClaimRow>, now: i64, max: u32, n: nat) -> nat
    decreases n,
{
    if n == 0 {
        0
    } else {
        let rest = claims_won(after_claim(row, now, max), now, max, (n - 1) as nat);
        if claimed(row, now, max) is Some {
            rest + 1
        } else {
            rest
        }
    }
}

/// Of the claims that race, as many win as slots are left: for the last slot
/// exactly one.
pub proof fn racing_claims_share_what_is_left(
    row: Option<ClaimRow>,
    now: i64,
    max: u32,
    n: nat,
)
    requires
        max >= 1,
    ensures
        claims_won(row, now, max, n) == (if taken(row, now as int) >= max {
            0
        } else if n <= max - taken(row, now as int) {
            n as int
        } else {
            max - taken(row, now as int)
        }),
    decreases n,
{
    if n > 0 {
        claims_respect_the_cap(row, now, max);
        racing_claims_share_what_is_left(
            after_claim(row, now, max),
            now,
            max,
            (n - 1) as nat,
        );
    }
}

/// A submission that was made always counts, whether its claim still did or
/// not; and the slots taken never fall below the submissions made.
pub proof fn made_submissions_count(row: Option<ClaimRow>, now: int)
    requires
        row matches Some(c) ==> c.confirmed < u32::MAX,
    ensures
        confirmed(row).confirmed == (match row {
            Some(c) => c.confirmed + 1,
            None => 1,
        }),
        taken(Some(confirmed(row)), now) >= confirmed(row).confirmed,
        taken(Some(confirmed(row)), now) <= taken(row, now) + 1,
{
}

/// To claim and then confirm takes exactly one slot.
pub proof fn a_confirmed_claim_takes_one_slot(row: Option<ClaimRow>, now: i64, max: u32)
    requires
        row matches Some(c) ==> c.confirmed < u32::MAX,
        claimed(row, now, max) is Some,
    ensures
        taken(Some(confirmed(claimed(row, now, max))), now as int) == taken(row, now as int) + 1,
{
}

/// Claims that are never confirmed are given back in time.
pub proof fn abandoned_claims_are_given_back(row: ClaimRow, now: int, t: i64)
    requires
        row.oldest_pending_at == Some(t),
        now >= t + PENDING_GRACE_SECS,
    ensures
        taken(Some(row), now) == row.confirmed,
{
}

// ---------------------------------------------------------------------------
// Statements
// ---------------------------------------------------------------------------

pub open spec fn row_column(name: Seq<char>) -> Term {
    Term::ColumnOf("submission_limit_claim"@, name)
}

/// So many seconds, bound under number `n`, before now.
pub open spec fn before_now(n: nat) -> Term {
    statement::bin(BinOp::Minus, Term::Now, Term::Seconds(Box::new(Term::Bound(n))))
}

/// The claims on their way no longer count.
pub open spec fn stale_term(n: nat) -> Term {
    statement::bin(
        BinOp::Or,
        Term::IsNull(Box::new(row_column("oldest_pending_at"@))),
        statement::bin(BinOp::AtMost, row_column("oldest_pending_at"@), before_now(n)),
    )
}

/// The slots that are taken.
pub open spec fn taken_term(oldest: Term, confirmed: Term, pending: Term, grace: Term) -> Term {
    statement::bin(
        BinOp::Plus,
        confirmed,
        Term::Case(
            Box::new(
                statement::bin(
                    BinOp::And,
                    Term::IsNotNull(Box::new(oldest)),
                    statement::bin(
                        BinOp::Above,
                        oldest,
                        statement::bin(BinOp::Minus, Term::Now, Term::Seconds(Box::new(grace))),
                    ),
                ),
            ),
            Box::new(pending),
            Box::new(Term::Number(0)),
        ),
    )
}

pub open spec fn claim_columns(confirmed: Term, pending: Term, oldest: Term, keys: Seq<Term>) -> Seq<
    (Seq<char>, Term),
> {
    seq![
        ("user_id"@, keys[0]),
        ("problem_id"@, keys[1]),
        ("contest_id"@, keys[2]),
        ("confirmed"@, confirmed),
        ("pending"@, pending),
        ("oldest_pending_at"@, oldest),
    ]
}

/// The statement that claims a slot.
pub open spec fn claim_upsert(user_id: i32, problem_id: i32, contest: i32, max: u32) -> Upsert {
    let grace = SqlView::Int(PENDING_GRACE_SECS as int);
    Upsert {
        table: "submission_limit_claim"@,
        held: seq![
            SqlView::Int(user_id as int),
            SqlView::Int(problem_id as int),
            SqlView::Int(contest as int),
            grace,
            grace,
            grace,
            SqlView::Int(max as int),
        ],
        cols: claim_columns(
            Term::Number(0),
            Term::Number(1),
            Term::Now,
            seq![Term::Bound(1), Term::Bound(2), Term::Bound(3)],
        ),
        keys: 3,
        sets: seq![
            (
                "pending"@,
                Term::Case(
                    Box::new(stale_term(4)),
                    Box::new(Term::Number(1)),
                    Box::new(statement::bin(BinOp::Plus, row_column("pending"@), Term::Number(1))),
                ),
            ),
            (
                "oldest_pending_at"@,
                Term::Case(
                    Box::new(stale_term(5)),
                    Box::new(Term::Now),
                    Box::new(row_column("oldest_pending_at"@)),
                ),
            ),
        ],
        guard: Some(claim_guard()),
    }
}

/// Slots are left.
pub open spec fn claim_guard() -> Term {
    statement::bin(
        BinOp::Less,
        statement::bin(
            BinOp::Plus,
            row_column("confirmed"@),
            Term::Group(
                Box::new(
                    Term::Case(
                        Box::new(
                            statement::bin(
                                BinOp::And,
                                Term::IsNotNull(Box::new(row_column("oldest_pending_at"@))),
                                statement::bin(
                                    BinOp::Above,
                                    row_column("oldest_pending_at"@),
                                    before_now(6),
                                ),
                            ),
                        ),
                        Box::new(row_column("pending"@)),
                        Box::new(Term::Number(0)),
                    ),
                ),
            ),
        ),
        Term::Bound(7),
    )
}

pub open spec fn claim_draft(user_id: i32, problem_id: i32, contest: i32, max: u32) -> Draft {
    claim_upsert(user_id, problem_id, contest, max).draft()
}

fn write_row_column(q: &mut QueryBuilder, name: &str)
    ensures
        final(q)@ == statement::write(row_column(name@), old(q)@),
{
    q.text("submission_limit_claim");
    q.text(".");
    q.text(name);
}

fn write_before_now(q: &mut QueryBuilder, placeholder: &str, Ghost(n): Ghost<nat>)
    requires
        placeholder@ == sql::placeholder(n),
    ensures
        final(q)@ == statement::write(before_now(n), old(q)@),
{
    q.text("NOW()");
    q.text(" - ");
    q.text("(");
    q.text(placeholder);
    q.text(" * INTERVAL '1 second')");
    proof {
        reveal_with_fuel(statement::write, 4);
    }
}

fn write_stale(q: &mut QueryBuilder, placeholder: &str, Ghost(n): Ghost<nat>)
    requires
        placeholder@ == sql::placeholder(n),
    ensures
        final(q)@ == statement::write(stale_term(n), old(q)@),
{
    write_row_column(q, "oldest_pending_at");
    q.text(" IS NULL");
    q.text(" OR ");
    write_row_column(q, "oldest_pending_at");
    q.text(" <= ");
    write_before_now(q, placeholder, Ghost(n));
    proof {
        reveal_with_fuel(statement::write, 3);
    }
}

/// Writes the columns of a row of claims.
fn write_claim_columns(
    q: &mut QueryBuilder,
    Ghost(cols): Ghost<Seq<(Seq<char>, Term)>>,
)
    requires
        cols.len() == 6,
        cols[0].0 == "user_id"@,
        cols[1].0 == "problem_id"@,
        cols[2].0 == "contest_id"@,
        cols[3].0 == "confirmed"@,
        cols[4].0 == "pending"@,
        cols[5].0 == "oldest_pending_at"@,
    ensures
        final(q)@ == statement::write_names(cols, 6, old(q)@),
{
    write_claim_keys(q, Ghost(cols));
    q.text(", ");
    q.text("confirmed");
    q.text(", ");
    q.text("pending");
    q.text(", ");
    q.text("oldest_pending_at");
    proof {
        reveal_with_fuel(statement::write_names, 4);
    }
}

fn write_claim_keys(q: &mut QueryBuilder, Ghost(cols): Ghost<Seq<(Seq<char>, Term)>>)
    requires
        cols.len() >= 3,
        cols[0].0 == "user_id"@,
        cols[1].0 == "problem_id"@,
        cols[2].0 == "contest_id"@,
    ensures
        final(q)@ == statement::write_names(cols, 3, old(q)@),
{
    q.text("user_id");
    q.text(", ");
    q.text("problem_id");
    q.text(", ");
    q.text("contest_id");
    proof {
        reveal_with_fuel(statement::write_names, 4);
    }
}

/// The statement that claims a slot. It changes a row where the claim is won.
pub fn try_claim(user_id: i32, problem_id: i32, contest_key: i32, max: u32) -> (r: Query)
    ensures
        sql::draft_of(r) == claim_draft(user_id, problem_id, contest_key, max),
{
    let ghost stmt = claim_upsert(user_id, problem_id, contest_key, max);
    let mut q = QueryBuilder::new();
    let user = q.hold_int(user_id as i64);
    let problem = q.hold_int(problem_id as i64);
    let contest = q.hold_int(contest_key as i64);
    let grace = q.hold_int(PENDING_GRACE_SECS);
    let grace_again = q.hold_int(PENDING_GRACE_SECS);
    let grace_last = q.hold_int(PENDING_GRACE_SECS);
    let cap = q.hold_int(max as i64);
    assert(q@ =~= Draft { sql: seq![], args: stmt.held });
    q.text("INSERT INTO ");
    q.text("submission_limit_claim");
    q.text(" (");
    write_claim_columns(&mut q, Ghost(stmt.cols));
    q.text(") VALUES (");
    let ghost named = q@;
    q.text(user.as_str());
    q.text(", ");
    q.text(problem.as_str());
    q.text(", ");
    q.text(contest.as_str());
    q.text(", ");
    q.text("0");
    q.text(", ");
    q.text("1");
    q.text(", ");
    q.text("NOW()");
    proof {
        reveal_with_fuel(statement::write_values, 7);
        lemma_small_digits();
        assert(q@ == statement::write_values(stmt.cols, 6, named));
    }
    q.text(") ON CONFLICT (");
    write_claim_keys(&mut q, Ghost(stmt.cols));
    q.text(") DO UPDATE SET ");
    let ghost keyed = q@;
    q.text("pending");
    q.text(" = ");
    let ghost first = q@;
    q.text("CASE WHEN ");
    write_stale(&mut q, grace.as_str(), Ghost(4));
    q.text(" THEN ");
    q.text("1");
    q.text(" ELSE ");
    write_row_column(&mut q, "pending");
    q.text(" + ");
    q.text("1");
    q.text(" END");
    proof {
        reveal_with_fuel(statement::write, 3);
        assert(q@ == statement::write(stmt.sets[0].1, first));
    }
    q.text(", ");
    q.text("oldest_pending_at");
    q.text(" = ");
    let ghost second = q@;
    q.text("CASE WHEN ");
    write_stale(&mut q, grace_again.as_str(), Ghost(5));
    q.text(" THEN ");
    q.text("NOW()");
    q.text(" ELSE ");
    write_row_column(&mut q, "oldest_pending_at");
    q.text(" END");
    proof {
        reveal_with_fuel(statement::write, 3);
        assert(q@ == statement::write(stmt.sets[1].1, second));
        reveal_with_fuel(statement::write_sets, 3);
        assert(q@ == statement::write_sets(stmt.sets, 2, keyed));
    }
    q.text(" WHERE ");
    let ghost last = q@;
    write_row_column(&mut q, "confirmed");
    q.text(" + ");
    q.text("(");
    q.text("CASE WHEN ");
    write_row_column(&mut q, "oldest_pending_at");
    q.text(" IS NOT NULL");
    q.text(" AND ");
    write_row_column(&mut q, "oldest_pending_at");
    q.text(" > ");
    write_before_now(&mut q, grace_last.as_str(), Ghost(6));
    q.text(" THEN ");
    write_row_column(&mut q, "pending");
    q.text(" ELSE ");
    q.text("0");
    q.text(" END");
    q.text(")");
    q.text(" < ");
    q.text(cap.as_str());
    proof {
        reveal_with_fuel(statement::write, 7);
        assert(q@ == statement::write(claim_guard(), last));
    }
    q.finish()
}

proof fn lemma_small_digits()
    ensures
        text::decimal_digits(0) == "0"@,
        text::decimal_digits(1) == "1"@,
{
    reveal_strlit("0");
    reveal_strlit("1");
    assert(text::decimal_digits(0) =~= "0"@);
    assert(text::decimal_digits(1) =~= "1"@);
}

/// A claim on its way less, where there is one.
pub open spec fn released_term() -> Term {
    Term::Greatest(
        Box::new(statement::bin(BinOp::Minus, row_column("pending"@), Term::Number(1))),
        Box::new(Term::Number(0)),
    )
}

/// The statement that confirms a claim.
pub open spec fn confirm_upsert(user_id: i32, problem_id: i32, contest: i32) -> Upsert {
    Upsert {
        table: "submission_limit_claim"@,
        held: seq![],
        cols: claim_columns(
            Term::Number(1),
            Term::Number(0),
            Term::Null,
            seq![
                Term::Arg(SqlView::Int(user_id as int)),
                Term::Arg(SqlView::Int(problem_id as int)),
                Term::Arg(SqlView::Int(contest as int)),
            ],
        ),
        keys: 3,
        sets: seq![
            (
                "confirmed"@,
                statement::bin(BinOp::Plus, row_column("confirmed"@), Term::Number(1)),
            ),
            ("pending"@, released_term()),
            (
                "oldest_pending_at"@,
                Term::Case(
                    Box::new(statement::bin(BinOp::Equal, released_term(), Term::Number(0))),
                    Box::new(Term::Null),
                    Box::new(row_column("oldest_pending_at"@)),
                ),
            ),
        ],
        guard: None,
    }
}

pub open spec fn confirm_draft(user_id: i32, problem_id: i32, contest: i32) -> Draft {
    confirm_upsert(user_id, problem_id, contest).draft()
}

fn write_released(q: &mut QueryBuilder)
    ensures
        final(q)@ == statement::write(released_term(), old(q)@),
{
    q.text("GREATEST(");
    write_row_column(q, "pending");
    q.text(" - ");
    q.text("1");
    q.text(", ");
    q.text("0");
    q.text(")");
    proof {
        lemma_small_digits();
        reveal_with_fuel(statement::write, 3);
    }
}

/// The statement that confirms a claim.
pub fn confirm_claim(user_id: i32, problem_id: i32, contest_key: i32) -> (r: Query)
    ensures
        sql::draft_of(r) == confirm_draft(user_id, problem_id, contest_key),
{
    let ghost stmt = confirm_upsert(user_id, problem_id, contest_key);
    let mut q = QueryBuilder::new();
    assert(q@ =~= Draft { sql: seq![], args: stmt.held });
    q.text("INSERT INTO ");
    q.text("submission_limit_claim");
    q.text(" (");
    write_claim_columns(&mut q, Ghost(stmt.cols));
    q.text(") VALUES (");
    let ghost named = q@;
    q.number(user_id as i64);
    q.text(", ");
    q.number(problem_id as i64);
    q.text(", ");
    q.number(contest_key as i64);
    q.text(", ");
    q.text("1");
    q.text(", ");
    q.text("0");
    q.text(", ");
    q.text("NULL");
    proof {
        reveal_with_fuel(statement::write_values, 7);
        lemma_small_digits();
        assert(q@ == statement::write_values(stmt.cols, 6, named));
    }
    q.text(") ON CONFLICT (");
    write_claim_keys(&mut q, Ghost(stmt.cols));
    q.text(") DO UPDATE SET ");
    let ghost keyed = q@;
    q.text("confirmed");
    q.text(" = ");
    let ghost first = q@;
    write_row_column(&mut q, "confirmed");
    q.text(" + ");
    q.text("1");
    proof {
        reveal_with_fuel(statement::write, 3);
        assert(q@ == statement::write(stmt.sets[0].1, first));
    }
    q.text(", ");
    q.text("pending");
    q.text(" = ");
    write_released(&mut q);
    q.text(", ");
    q.text("oldest_pending_at");
    q.text(" = ");
    let ghost third = q@;
    q.text("CASE WHEN ");
    write_released(&mut q);
    q.text(" = ");
    q.text("0");
    q.text(" THEN ");
    q.text("NULL");
    q.text(" ELSE ");
    write_row_column(&mut q, "oldest_pending_at");
    q.text(" END");
    proof {
        reveal_with_fuel(statement::write, 3);
        assert(q@ == statement::write(stmt.sets[2].1, third));
        reveal_with_fuel(statement::write_sets, 4);
        assert(q@ == statement::write_sets(stmt.sets, 3, keyed));
    }
    q.finish()
}

/// The rows of a contestant on a problem in a contest.
pub open spec fn own_row(user_id: i32, problem_id: i32, contest: i32) -> Term {
    statement::bin(
        BinOp::And,
        statement::bin(
            BinOp::And,
            statement::bin(
                BinOp::Equal,
                Term::Column("user_id"@),
                Term::Arg(SqlView::Int(user_id as int)),
            ),
            statement::bin(
                BinOp::Equal,
                Term::Column("problem_id"@),
                Term::Arg(SqlView::Int(problem_id as int)),
            ),
        ),
        statement::bin(
            BinOp::Equal,
            Term::Column("contest_id"@),
            Term::Arg(SqlView::Int(contest as int)),
        ),
    )
}

/// The slots that the row takes.
pub open spec fn count_term() -> Term {
    taken_term(
        Term::Column("oldest_pending_at"@),
        Term::Column("confirmed"@),
        Term::Column("pending"@),
        Term::Arg(SqlView::Int(PENDING_GRACE_SECS as int)),
    )
}

pub open spec fn count_draft(user_id: i32, problem_id: i32, contest: i32) -> Draft {
    statement::write(
        own_row(user_id, problem_id, contest),
        statement::write(count_term(), Draft::empty().text("SELECT ("@)).text(
            ")::bigint AS count FROM submission_limit_claim WHERE "@,
        ),
    )
}

/// The query for the number of slots taken.
pub fn active_count(user_id: i32, problem_id: i32, contest_key: i32) -> (r: Query)
    ensures
        sql::draft_of(r) == count_draft(user_id, problem_id, contest_key),
{
    let mut q = QueryBuilder::new();
    q.text("SELECT (");
    let ghost first = q@;
    q.text("confirmed");
    q.text(" + ");
    q.text("CASE WHEN ");
    q.text("oldest_pending_at");
    q.text(" IS NOT NULL");
    q.text(" AND ");
    q.text("oldest_pending_at");
    q.text(" > ");
    q.text("NOW()");
    q.text(" - ");
    q.text("(");
    q.number(PENDING_GRACE_SECS);
    q.text(" * INTERVAL '1 second')");
    q.text(" THEN ");
    q.text("pending");
    q.text(" ELSE ");
    q.text("0");
    q.text(" END");
    proof {
        lemma_small_digits();
        reveal_with_fuel(statement::write, 8);
        assert(q@ == statement::write(count_term(), first));
    }
    q.text(")::bigint AS count FROM submission_limit_claim WHERE ");
    let ghost second = q@;
    q.text("user_id");
    q.text(" = ");
    q.number(user_id as i64);
    q.text(" AND ");
    q.text("problem_id");
    q.text(" = ");
    q.number(problem_id as i64);
    q.text(" AND ");
    q.text("contest_id");
    q.text(" = ");
    q.number(contest_key as i64);
    proof {
        reveal_with_fuel(statement::write, 5);
        assert(q@ == statement::write(own_row(user_id, problem_id, contest_key), second));
    }
    q.finish()
}

// ---------------------------------------------------------------------------
// What the statements do
// ---------------------------------------------------------------------------

/// The key of a contestant's row.
pub open spec fn claim_key(user_id: i32, problem_id: i32, contest: i32) -> Seq<Val> {
    seq![Val::Int(user_id as int), Val::Int(problem_id as int), Val::Int(contest as int)]
}

/// A row of the table, by its columns.
pub open spec fn stored(user_id: i32, problem_id: i32, contest: i32, c: ClaimRow) -> Map<
    Seq<char>,
    Val,
> {
    map![
        "user_id"@ => Val::Int(user_id as int),
        "problem_id"@ => Val::Int(problem_id as int),
        "contest_id"@ => Val::Int(contest as int),
        "confirmed"@ => Val::Int(c.confirmed as int),
        "pending"@ => Val::Int(c.pending as int),
        "oldest_pending_at"@ => match c.oldest_pending_at {
            Some(t) => Val::Time(t as int),
            None => Val::Null,
        },
    ]
}

proof fn lemma_columns_differ()
    ensures
        "user_id"@ != "problem_id"@,
        "user_id"@ != "contest_id"@,
        "user_id"@ != "confirmed"@,
        "user_id"@ != "pending"@,
        "user_id"@ != "oldest_pending_at"@,
        "problem_id"@ != "contest_id"@,
        "problem_id"@ != "confirmed"@,
        "problem_id"@ != "pending"@,
        "problem_id"@ != "oldest_pending_at"@,
        "contest_id"@ != "confirmed"@,
        "contest_id"@ != "pending"@,
        "contest_id"@ != "oldest_pending_at"@,
        "confirmed"@ != "pending"@,
        "confirmed"@ != "oldest_pending_at"@,
        "pending"@ != "oldest_pending_at"@,
{
    reveal_strlit("user_id");
    reveal_strlit("problem_id");
    reveal_strlit("contest_id");
    reveal_strlit("confirmed");
    reveal_strlit("pending");
    reveal_strlit("oldest_pending_at");
    assert("user_id"@.len() == 7 && "user_id"@[0] == 'u');
    assert("pending"@.len() == 7 && "pending"@[0] == 'p');
    assert("problem_id"@.len() == 10 && "problem_id"@[0] == 'p');
    assert("contest_id"@.len() == 10 && "contest_id"@[0] == 'c');
    assert("confirmed"@.len() == 9);
    assert("oldest_pending_at"@.len() == 17);
}

/// What the database keeps of claims, when one of them is not of this contestant
/// on this problem in this contest, or is.
pub open spec fn only_changes(
    before: Map<Seq<Val>, Map<Seq<char>, Val>>,
    after: Map<Seq<Val>, Map<Seq<char>, Val>>,
    key: Seq<Val>,
) -> bool {
    forall|k: Seq<Val>| #![trigger after.contains_key(k)] #![trigger before.contains_key(k)]
        k != key ==> (after.contains_key(k) <==> before.contains_key(k)) && (before.contains_key(k)
            ==> after[k] == before[k])
}

/// The confirming statement counts the submission and releases one claim, in the
/// row of its contestant, problem and contest, and touches no other row.
pub proof fn confirming_counts_the_submission(
    rows: Map<Seq<Val>, Map<Seq<char>, Val>>,
    now: int,
    user_id: i32,
    problem_id: i32,
    contest: i32,
    row: ClaimRow,
)
    ensures
        ({
            let key = claim_key(user_id, problem_id, contest);
            let after = confirm_upsert(user_id, problem_id, contest).run(rows, now);
            &&& only_changes(rows, after, key)
            &&& after.contains_key(key)
            &&& !rows.contains_key(key) ==> after[key] == stored(
                user_id,
                problem_id,
                contest,
                ClaimRow { confirmed: 1, pending: 0, oldest_pending_at: None },
            )
            &&& rows.contains_key(key) && rows[key] == stored(user_id, problem_id, contest, row)
                && row.confirmed < u32::MAX ==> after[key] == stored(
                user_id,
                problem_id,
                contest,
                ClaimRow {
                    confirmed: (row.confirmed + 1) as u32,
                    pending: if row.pending > 0 {
                        (row.pending - 1) as u32
                    } else {
                        0
                    },
                    oldest_pending_at: if row.pending > 1 {
                        row.oldest_pending_at
                    } else {
                        None
                    },
                },
            )
        }),
{
    lemma_columns_differ();
    let stmt = confirm_upsert(user_id, problem_id, contest);
    let key = claim_key(user_id, problem_id, contest);
    let args = stmt.draft().args;
    assert(stmt.key(now) =~= key);
    reveal_with_fuel(statement::with_sets, 7);
    reveal_with_fuel(statement::eval, 5);
    let fresh = ClaimRow { confirmed: 1, pending: 0, oldest_pending_at: None };
    assert(stmt.added(now) =~= stored(user_id, problem_id, contest, fresh));
    let old = stored(user_id, problem_id, contest, row);
    let left: int = if row.pending > 0 {
        row.pending - 1
    } else {
        0
    };
    if row.confirmed < u32::MAX {
        assert(statement::column(old, "confirmed"@) == Val::Int(row.confirmed as int));
        assert(statement::column(old, "pending"@) == Val::Int(row.pending as int));
        assert(statement::eval(released_term(), old, now, args) == Val::Int(left));
        assert(statement::eval(stmt.sets[0].1, old, now, args) == Val::Int(row.confirmed + 1));
        let next = ClaimRow {
            confirmed: (row.confirmed + 1) as u32,
            pending: left as u32,
            oldest_pending_at: if row.pending > 1 {
                row.oldest_pending_at
            } else {
                None
            },
        };
        assert(statement::with_sets(old, stmt.sets, 3, now, args) =~= stored(
            user_id,
            problem_id,
            contest,
            next,
        ));
    }
}

/// What the confirming statement does to a row is what `confirm_row` gives.
pub proof fn the_confirming_statement_confirms(
    rows: Map<Seq<Val>, Map<Seq<char>, Val>>,
    now: int,
    user_id: i32,
    problem_id: i32,
    contest: i32,
    row: Option<ClaimRow>,
)
    requires
        row matches Some(c) ==> c.confirmed < u32::MAX,
        ({
            let key = claim_key(user_id, problem_id, contest);
            match row {
                Some(c) => rows.contains_key(key) && rows[key] == stored(
                    user_id,
                    problem_id,
                    contest,
                    c,
                ),
                None => !rows.contains_key(key),
            }
        }),
    ensures
        confirm_upsert(user_id, problem_id, contest).run(rows, now) == rows.insert(
            claim_key(user_id, problem_id, contest),
            stored(user_id, problem_id, contest, confirmed(row)),
        ),
{
    let key = claim_key(user_id, problem_id, contest);
    let after = confirm_upsert(user_id, problem_id, contest).run(rows, now);
    match row {
        Some(c) => {
            confirming_counts_the_submission(rows, now, user_id, problem_id, contest, c);
        },
        None => {
            let any = ClaimRow { confirmed: 0, pending: 0, oldest_pending_at: None };
            confirming_counts_the_submission(rows, now, user_id, problem_id, contest, any);
        },
    }
    assert(after =~= rows.insert(key, stored(user_id, problem_id, contest, confirmed(row))));
}

/// The claiming statement wins a slot exactly where the submissions made and the
/// claims that still count leave one, and then adds one claim to those that
/// count: in the row of its contestant, problem and contest, and in no other. It
/// leaves the submissions made as they are. Where it does not win, nothing
/// changes.
pub proof fn claiming_takes_a_slot_where_one_is_left(
    rows: Map<Seq<Val>, Map<Seq<char>, Val>>,
    now: i64,
    user_id: i32,
    problem_id: i32,
    contest: i32,
    max: u32,
    row: ClaimRow,
)
    requires
        row.pending < u32::MAX,
    ensures
        ({
            let key = claim_key(user_id, problem_id, contest);
            let stmt = claim_upsert(user_id, problem_id, contest, max);
            let after = stmt.run(rows, now as int);
            let counts = row.oldest_pending_at is Some && row.oldest_pending_at->0 > now - 30;
            let made: int = row.confirmed + if counts {
                row.pending as int
            } else {
                0
            };
            &&& only_changes(rows, after, key)
            &&& !rows.contains_key(key) ==> after.contains_key(key) && after[key] == stored(
                user_id,
                problem_id,
                contest,
                ClaimRow { confirmed: 0, pending: 1, oldest_pending_at: Some(now) },
            )
            &&& rows.contains_key(key) && rows[key] == stored(user_id, problem_id, contest, row)
                ==> (stmt.takes(rows[key], now as int) <==> made < max)
            &&& rows.contains_key(key) && rows[key] == stored(user_id, problem_id, contest, row)
                && made >= max ==> after == rows
            &&& rows.contains_key(key) && rows[key] == stored(user_id, problem_id, contest, row)
                && made < max ==> after.contains_key(key) && after[key] == stored(
                user_id,
                problem_id,
                contest,
                ClaimRow {
                    confirmed: row.confirmed,
                    pending: if counts {
                        (row.pending + 1) as u32
                    } else {
                        1
                    },
                    oldest_pending_at: if counts {
                        row.oldest_pending_at
                    } else {
                        Some(now)
                    },
                },
            )
        }),
{
    lemma_columns_differ();
    let stmt = claim_upsert(user_id, problem_id, contest, max);
    let key = claim_key(user_id, problem_id, contest);
    let args = stmt.draft().args;
    let t = now as int;
    lemma_claim_args(user_id, problem_id, contest, max);
    assert(args == stmt.held);
    reveal_with_fuel(statement::with_sets, 7);
    reveal_with_fuel(statement::eval, 8);
    assert(stmt.key(t) =~= key);
    let fresh = ClaimRow { confirmed: 0, pending: 1, oldest_pending_at: Some(now) };
    assert(stmt.added(t) =~= stored(user_id, problem_id, contest, fresh));
    let old = stored(user_id, problem_id, contest, row);
    assert(statement::column(old, "confirmed"@) == Val::Int(row.confirmed as int));
    assert(statement::column(old, "pending"@) == Val::Int(row.pending as int));
    let oldest = statement::column(old, "oldest_pending_at"@);
    let counts = row.oldest_pending_at is Some && row.oldest_pending_at->0 > now - 30;
    assert(statement::eval(before_now(4), old, t, args) == Val::Time(t - 30));
    assert(statement::eval(before_now(5), old, t, args) == Val::Time(t - 30));
    assert(statement::eval(before_now(6), old, t, args) == Val::Time(t - 30));
    assert(statement::eval(stale_term(4), old, t, args) == Val::Bool(!counts));
    assert(statement::eval(stale_term(5), old, t, args) == Val::Bool(!counts));
    let made: int = row.confirmed + if counts {
        row.pending as int
    } else {
        0
    };
    assert(statement::eval(claim_guard(), old, t, args) == Val::Bool(made < max));
    let next = ClaimRow {
        confirmed: row.confirmed,
        pending: if counts {
            (row.pending + 1) as u32
        } else {
            1
        },
        oldest_pending_at: if counts {
            row.oldest_pending_at
        } else {
            Some(now)
        },
    };
    assert(statement::with_sets(old, stmt.sets, 2, t, args) =~= stored(
        user_id,
        problem_id,
        contest,
        next,
    ));
}

proof fn lemma_claim_args(user_id: i32, problem_id: i32, contest: i32, max: u32)
    ensures
        claim_draft(user_id, problem_id, contest, max).args == claim_upsert(
            user_id,
            problem_id,
            contest,
            max,
        ).held,
{
    reveal_with_fuel(statement::binds, 10);
    let u = claim_upsert(user_id, problem_id, contest, max);
    assert(!statement::binds(stale_term(4)) && !statement::binds(stale_term(5)));
    assert(!statement::binds(u.sets[0].1) && !statement::binds(u.sets[1].1));
    assert(!statement::binds(claim_guard()));
    assert forall|i: int| 0 <= i < u.cols.len() implies !statement::binds(
        (#[trigger] u.cols[i]).1,
    ) by {
        assert(u.cols[0].1 == Term::Bound(1));
        assert(u.cols[1].1 == Term::Bound(2));
        assert(u.cols[2].1 == Term::Bound(3));
    }
    statement::lemma_held_values(u);
}

/// What the claiming statement does to a row is what `claim_row` gives.
pub proof fn the_claiming_statement_claims(
    rows: Map<Seq<Val>, Map<Seq<char>, Val>>,
    now: i64,
    user_id: i32,
    problem_id: i32,
    contest: i32,
    max: u32,
    row: Option<ClaimRow>,
)
    requires
        row matches Some(c) ==> c.pending < u32::MAX,
        ({
            let key = claim_key(user_id, problem_id, contest);
            match row {
                Some(c) => rows.contains_key(key) && rows[key] == stored(
                    user_id,
                    problem_id,
                    contest,
                    c,
                ),
                None => !rows.contains_key(key),
            }
        }),
    ensures
        claim_upsert(user_id, problem_id, contest, max).run(rows, now as int) == match claimed(
            row,
            now,
            max,
        ) {
            Some(after) => rows.insert(
                claim_key(user_id, problem_id, contest),
                stored(user_id, problem_id, contest, after),
            ),
            None => rows,
        },
{
    let key = claim_key(user_id, problem_id, contest);
    let after = claim_upsert(user_id, problem_id, contest, max).run(rows, now as int);
    let c = match row {
        Some(c) => c,
        None => ClaimRow { confirmed: 0, pending: 0, oldest_pending_at: None },
    };
    claiming_takes_a_slot_where_one_is_left(rows, now, user_id, problem_id, contest, max, c);
    match claimed(row, now, max) {
        Some(next) => {
            assert(after =~= rows.insert(key, stored(user_id, problem_id, contest, next)));
        },
        None => {},
    }
}

/// The query for the number of slots reads the row of its contestant, problem
/// and contest, and counts the submissions made and the claims that still count.
pub proof fn the_count_is_what_is_taken(
    now: i64,
    user_id: i32,
    problem_id: i32,
    contest: i32,
    other_user: i32,
    other_problem: i32,
    other_contest: i32,
    row: ClaimRow,
)
    ensures
        ({
            let r = stored(other_user, other_problem, other_contest, row);
            let args = count_draft(user_id, problem_id, contest).args;
            let counts = row.oldest_pending_at is Some && row.oldest_pending_at->0 > now - 30;
            &&& statement::holds(own_row(user_id, problem_id, contest), r, now as int, args) <==> {
                &&& other_user == user_id
                &&& other_problem == problem_id
                &&& other_contest == contest
            }
            &&& statement::eval(count_term(), r, now as int, args) == Val::Int(
                row.confirmed + if counts {
                    row.pending as int
                } else {
                    0
                },
            )
            &&& statement::eval(count_term(), r, now as int, args) == Val::Int(
                taken(Some(row), now as int),
            )
        }),
{
    lemma_columns_differ();
    reveal_with_fuel(statement::eval, 8);
    let r = stored(other_user, other_problem, other_contest, row);
    assert(statement::column(r, "user_id"@) == Val::Int(other_user as int));
    assert(statement::column(r, "problem_id"@) == Val::Int(other_problem as int));
    assert(statement::column(r, "contest_id"@) == Val::Int(other_contest as int));
    assert(statement::column(r, "confirmed"@) == Val::Int(row.confirmed as int));
    assert(statement::column(r, "pending"@) == Val::Int(row.pending as int));
    let oldest = statement::column(r, "oldest_pending_at"@);
}

/// The settings say which cap holds: the one that is set, where it is not zero
/// and the plugin is switched on; none where the settings could not be read.
pub proof fn a_cap_holds_where_it_is_set(limits: Option<EffectiveLimits>)
    ensures
        cap_of(limits) is Some <==> limits is Some && limits->0.is_enabled
            && limits->0.config.max_submissions is Some && limits->0.config.max_submissions->0 > 0,
        cap_of(limits) is Some ==> cap_of(limits) == limits->0.config.max_submissions,
{
}

/// Submissions outside a contest have a row of their own, which no contest with
/// a positive id shares.
pub proof fn every_contest_has_its_own_row(a: Option<i32>, b: Option<i32>)
    requires
        a matches Some(c) ==> c > 0,
        b matches Some(c) ==> c > 0,
    ensures
        key_of(a) == key_of(b) <==> a == b,
{
}

/// A submission passes exactly where no cap holds or its claim was won. A
/// rejection tells the slots taken and the cap.
pub proof fn rejections_tell_the_cap(
    limits: Option<EffectiveLimits>,
    claimed_rows: u64,
    count: u32,
    r: LimitAnswer,
)
    requires
        limit_answer(limits, claimed_rows, count, r),
    ensures
        r is Pass <==> cap_of(limits) is None || claimed_rows > 0,
        r matches LimitAnswer::Reject { message, status, submissions_made, max_submissions, .. }
            ==> {
            &&& Some(max_submissions) == cap_of(limits)
            &&& submissions_made == count
            &&& status == 429
            &&& exists|a: Seq<char>, b: Seq<char>, c: Seq<char>|
                message@ == #[trigger] (a + text::decimal_int(count as int) + b)
                    + text::decimal_int(max_submissions as int) + #[trigger] (c + Seq::empty())
        },
{
    match r {
        LimitAnswer::Reject { message, status, submissions_made, max_submissions, .. } => {
            let a = "Submission limit reached ("@;
            let b = "/"@;
            let c = ")"@;
            assert(c + Seq::empty() =~= c);
            assert(message@ =~= (a + text::decimal_int(count as int) + b) + text::decimal_int(
                max_submissions as int,
            ) + (c + Seq::empty()));
        },
        _ => {},
    }
}

/// What is told of a contestant's submissions: where a cap holds, those made and
/// those left come to the cap, unless more were made; without one nothing is
/// counted down.
pub proof fn what_is_made_and_left_comes_to_the_cap(limits: EffectiveLimits, count: u32)
    ensures
        ({
            let s = status_of(limits, count);
            &&& s.enabled == limits.is_enabled
            &&& s.unlimited <==> cap_of(Some(limits)) is None
            &&& s.remaining is Some <==> !s.unlimited
            &&& s.remaining matches Some(left) ==> {
                &&& Some(s.max_submissions) == cap_of(Some(limits))
                &&& s.submissions_made == count
                &&& count <= s.max_submissions ==> count + left == s.max_submissions
                &&& count > s.max_submissions ==> left == 0
            }
        }),
{
}

// ---------------------------------------------------------------------------
// Answers
// ---------------------------------------------------------------------------

/// The answer to a submission.
#[derive(Debug, Clone, PartialEq, Eq)]
pub enum LimitAnswer {
    Pass,
    Reject {
        code: String,
        message: String,
        status: u16,
        submissions_made: u32,
        max_submissions: u32,
    },
}

/// The statement that claims a slot for a submission; none where no cap holds.
pub fn claim_of(
    limits: Option<EffectiveLimits>,
    user_id: i32,
    problem_id: i32,
    contest_id: Option<i32>,
) -> (r: Option<Query>)
    ensures
        match cap_of(limits) {
            Some(max) => r matches Some(q) && sql::draft_of(q) == claim_draft(
                user_id,
                problem_id,
                key_of(contest_id),
                max,
            ),
            None => r is None,
        },
{
    match effective_cap(limits) {
        Some(max) => Some(try_claim(user_id, problem_id, contest_key(contest_id), max)),
        None => None,
    }
}

/// The answer to a submission: it passes where no cap holds or its claim was
/// won, and is rejected where the cap is reached.
pub open spec fn limit_answer(
    limits: Option<EffectiveLimits>,
    claimed_rows: u64,
    count: u32,
    r: LimitAnswer,
) -> bool {
    match cap_of(limits) {
        None => r is Pass,
        Some(max) => if claimed_rows > 0 {
            r is Pass
        } else {
            r matches LimitAnswer::Reject {
                code,
                message,
                status,
                submissions_made,
                max_submissions,
            } && {
                &&& code@ == "SUBMISSION_LIMIT_EXCEEDED"@
                &&& message@ == "Submission limit reached ("@ + text::decimal_int(count as int)
                    + "/"@ + text::decimal_int(max as int) + ")"@
                &&& status == 429
                &&& submissions_made == count
                &&& max_submissions == max
            }
        },
    }
}

/// Answers a submission. `claimed_rows` is how many rows the claim changed,
/// `count` how many slots are taken.
pub fn check_limit(limits: Option<EffectiveLimits>, claimed_rows: u64, count: u32) -> (r:
    LimitAnswer)
    ensures
        limit_answer(limits, claimed_rows, count, r),
{
    let max: u32 = match effective_cap(limits) {
        Some(max) => max,
        None => {
            return LimitAnswer::Pass;
        },
    };
    if claimed_rows > 0 {
        return LimitAnswer::Pass;
    }
    let mut message = concat("Submission limit reached (", decimal_i64(count as i64).as_str());
    message.append("/");
    message.append(decimal_i64(max as i64).as_str());
    message.append(")");
    LimitAnswer::Reject {
        code: "SUBMISSION_LIMIT_EXCEEDED".to_owned(),
        message,
        status: 429,
        submissions_made: count,
        max_submissions: max,
    }
}

/// The statement that confirms the claim of a submission that was made; none
/// where no cap holds, as nothing was claimed then.
pub fn on_submission_created(
    limits: Option<EffectiveLimits>,
    user_id: i32,
    problem_id: i32,
    contest_id: Option<i32>,
) -> (r: Option<Query>)
    ensures
        match cap_of(limits) {
            Some(_) => r matches Some(q) && sql::draft_of(q) == confirm_draft(
                user_id,
                problem_id,
                key_of(contest_id),
            ),
            None => r is None,
        },
{
    match effective_cap(limits) {
        Some(_) => Some(confirm_claim(user_id, problem_id, contest_key(contest_id))),
        None => None,
    }
}

/// How many submissions a contestant has left.
#[derive(Debug, Clone, Copy, PartialEq, Eq, Structural)]
pub struct LimitStatus {
    pub enabled: bool,
    pub submissions_made: u32,
    pub max_submissions: u32,
    pub remaining: Option<u32>,
    pub unlimited: bool,
}

/// The state of a contestant's submissions. Without a cap nothing remains to
/// be counted.
pub open spec fn status_of(limits: EffectiveLimits, count: u32) -> LimitStatus {
    let max = match limits.config.max_submissions {
        Some(m) => m,
        None => 0u32,
    };
    if limits.is_enabled {
        LimitStatus {
            enabled: true,
            submissions_made: count,
            max_submissions: max,
            remaining: if max == 0 {
                None
            } else if count >= max {
                Some(0u32)
            } else {
                Some((max - count) as u32)
            },
            unlimited: max == 0,
        }
    } else {
        LimitStatus {
            enabled: false,
            submissions_made: 0,
            max_submissions: 0,
            remaining: None,
            unlimited: true,
        }
    }
}

pub fn limit_status(limits: EffectiveLimits, count: u32) -> (r: LimitStatus)
    ensures
        r == status_of(limits, count),
{
    if !limits.is_enabled {
        return LimitStatus {
            enabled: false,
            submissions_made: 0,
            max_submissions: 0,
            remaining: None,
            unlimited: true,
        };
    }
    let max: u32 = match limits.config.max_submissions {
        Some(m) => m,
        None => 0,
    };
    LimitStatus {
        enabled: true,
        submissions_made: count,
        max_submissions: max,
        remaining: if max == 0 {
            None
        } else if count >= max {
            Some(0)
        } else {
            Some(max - count)
        },
        unlimited: max == 0,
    }
}

/// The contest that a request for the state names.
pub open spec fn status_contest(req: HttpRequest) -> Option<int> {
    http::int_at(req.params@, "contest_id"@, i32::MIN as int, i32::MAX as int)
}

/// Answers a request for the state of the sender's submissions. `problem` is
/// the problem as it was read; where a contest is named, `access` says whether
/// the sender may see the problem in it.
pub fn get_limit_status(
    req: &HttpRequest,
    problem: Result<i32, HttpError>,
    access: Result<(), HttpError>,
    limits: EffectiveLimits,
    count: u32,
) -> (r: Result<LimitStatus, HttpError>)
    ensures
        match req.auth {
            None => r matches Err(e) && http::error_is(e, 401, "Authentication required"@),
            Some(_) => match problem {
                Err(e) => r == Err::<LimitStatus, HttpError>(e),
                Ok(_) => if status_contest(*req) is Some && access is Err {
                    r == Err::<LimitStatus, HttpError>(access->Err_0)
                } else {
                    r == Ok::<LimitStatus, HttpError>(status_of(limits, count))
                },
            },
        },
{
    match req.require_login() {
        Ok(_) => {},
        Err(e) => {
            return Err(e);
        },
    }
    match problem {
        Ok(_) => {},
        Err(e) => {
            return Err(e);
        },
    }
    if req.path_i32("contest_id").is_ok() {
        match access {
            Ok(_) => {},
            Err(e) => {
                return Err(e);
            },
        }
    }
    Ok(limit_status(limits, count))
}

/// Whoever is told that submissions remain passes with the next one, and
/// whoever is told that none remains is rejected.
pub proof fn what_remains_can_be_claimed(
    limits: EffectiveLimits,
    row: ClaimRow,
    now: i64,
    count: u32,
    max: u32,
)
    requires
        cap_of(Some(limits)) == Some(max),
        taken(Some(row), now as int) == count,
    ensures
        status_of(limits, count).remaining matches Some(left) && (left > 0 <==> claimed(
            Some(row),
            now,
            max,
        ) is Some),
{
}

/// Where a cap holds, a submission that was made is confirmed in the row of its contestant,
/// problem and contest: one submission more counts there, one claim less is on its way, and
/// no other row changes. Where none holds, nothing is written.
pub proof fn a_submission_that_was_made_is_confirmed(
    limits: Option<EffectiveLimits>,
    user_id: i32,
    problem_id: i32,
    contest_id: Option<i32>,
    r: Option<Query>,
    rows: Map<Seq<Val>, Map<Seq<char>, Val>>,
    now: int,
    row: Option<ClaimRow>,
)
    requires
        call_ensures(on_submission_created, (limits, user_id, problem_id, contest_id), r),
        row matches Some(c) ==> c.confirmed < u32::MAX,
        ({
            let key = claim_key(user_id, problem_id, key_of(contest_id));
            match row {
                Some(c) => rows.contains_key(key) && rows[key] == stored(
                    user_id,
                    problem_id,
                    key_of(contest_id),
                    c,
                ),
                None => !rows.contains_key(key),
            }
        }),
    ensures
        r is Some <==> cap_of(limits) is Some,
        r is Some ==> exists|u: Upsert|
            {
                &&& #[trigger] u.draft() == sql::draft_of(r->0)
                &&& u.run(rows, now) == rows.insert(
                    claim_key(user_id, problem_id, key_of(contest_id)),
                    stored(user_id, problem_id, key_of(contest_id), confirmed(row)),
                )
            },
{
    let contest = key_of(contest_id);
    the_confirming_statement_confirms(rows, now, user_id, problem_id, contest, row);
    if r is Some {
        assert(confirm_upsert(user_id, problem_id, contest).draft() == sql::draft_of(r->0));
    }
}

/// What the query of `confirm_claim` does is to confirm, and that of `try_claim` to claim.
pub proof fn claims_and_confirmations_do_what_they_say(
    user_id: i32,
    problem_id: i32,
    contest: i32,
    max: u32,
    claim: Query,
    confirm: Query,
    count: Query,
)
    requires
        call_ensures(try_claim, (user_id, problem_id, contest, max), claim),
        call_ensures(confirm_claim, (user_id, problem_id, contest), confirm),
        call_ensures(active_count, (user_id, problem_id, contest), count),
    ensures
        sql::draft_of(claim) == claim_upsert(user_id, problem_id, contest, max).draft(),
        sql::draft_of(confirm) == confirm_upsert(user_id, problem_id, contest).draft(),
        sql::draft_of(count) == count_draft(user_id, problem_id, contest),
{
}

/// A claim is tried for exactly where a cap holds, with that cap.
pub proof fn a_claim_is_tried_for_where_a_cap_holds(
    limits: Option<EffectiveLimits>,
    user_id: i32,
    problem_id: i32,
    contest_id: Option<i32>,
    r: Option<Query>,
)
    requires
        call_ensures(claim_of, (limits, user_id, problem_id, contest_id), r),
    ensures
        r is Some <==> cap_of(limits) is Some,
        r is Some ==> sql::draft_of(r->0) == claim_upsert(
            user_id,
            problem_id,
            key_of(contest_id),
            cap_of(limits)->0,
        ).draft(),
        contest_id is Some ==> key_of(contest_id) == contest_id->0,
        contest_id is None ==> key_of(contest_id) == 0,
{
}

/// The status is told to who is signed in, of a problem that can be read, and within a
/// contest only to who may enter it.
pub proof fn the_status_is_told_to_who_may_see_it(
    req: &HttpRequest,
    problem: Result<i32, HttpError>,
    access: Result<(), HttpError>,
    limits: EffectiveLimits,
    count: u32,
    r: Result<LimitStatus, HttpError>,
)
    requires
        call_ensures(get_limit_status, (req, problem, access, limits, count), r),
    ensures
        ({
            let contest = http::int_at(req.params@, "contest_id"@, i32::MIN as int, i32::MAX as int);
            &&& r is Ok <==> req.auth is Some && problem is Ok && (contest is Some ==> access is Ok)
            &&& r is Ok ==> r->Ok_0 == status_of(limits, count)
            &&& req.auth is None ==> r is Err && r->Err_0.status == 401
            &&& req.auth is Some && problem is Err ==> r is Err && r->Err_0 == problem->Err_0
            &&& req.auth is Some && problem is Ok && contest is Some && access is Err ==> r is Err
                && r->Err_0 == access->Err_0
        }),
{
}

/// A submission passes where no cap holds or its claim was won, and is told the slots taken
/// and the cap where not.
pub proof fn a_lost_claim_is_rejected(
    limits: Option<EffectiveLimits>,
    claimed_rows: u64,
    count: u32,
    r: LimitAnswer,
)
    requires
        call_ensures(check_limit, (limits, claimed_rows, count), r),
    ensures
        r is Pass <==> cap_of(limits) is None || claimed_rows > 0,
        r is Reject ==> r->status == 429 && r->submissions_made == count && Some(
            r->max_submissions,
        ) == cap_of(limits),
{
    rejections_tell_the_cap(limits, claimed_rows, count, r);
}

/// A claim on a row wins where a slot is left, takes one, and leaves the submissions made;
/// confirming it takes none more and counts one submission more.
pub proof fn a_won_claim_takes_one_slot(
    row: Option<ClaimRow>,
    now: i64,
    max: u32,
    won: Option<ClaimRow>,
    done: ClaimRow,
)
    requires
        max >= 1,
        call_ensures(claim_row, (row, now, max), won),
        won is Some ==> call_ensures(confirm_row, (won,), done),
    ensures
        won is Some <==> row is None || taken(row, now as int) < max,
        won is Some ==> taken(won, now as int) == taken(row, now as int) + 1,
        won is Some && won->0.confirmed < u32::MAX ==> {
            &&& done.confirmed == won->0.confirmed + 1
            &&& taken(Some(done), now as int) == taken(won, now as int)
        },
{
    claims_respect_the_cap(row, now, max);
    if won is Some && won->0.confirmed < u32::MAX {
        made_submissions_count(won, now as int);
        a_confirmed_claim_takes_one_slot(row, now, max);
    }
}

} // verus!
