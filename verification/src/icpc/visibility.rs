//! Which submissions of others a viewer may see judged.

use vstd::prelude::*;

use crate::icpc::config::{freeze_window_open, freeze_window_start_ms, ContestConfig};
use crate::sql::{bind_ids, Params, Query};
use crate::text::{copy_list, push_text, str_eq};
use crate::ids::{insert_sorted, sorted_ids};
use crate::visibility::{
    allow_all, holds, submission_ids, QueryResource, VisibilityQueryInput, WireDecision,
};
use crate::icpc::config;
use crate::sql;
use crate::text;
use crate::ids;
use crate::visibility;

verus! {

/// Whether the outcome of someone else's submission is hidden: until the end
/// where the standings are private, and in the freeze where it was made in the
/// window.
pub open spec fn hides(
    public_standings: bool,
    freeze_minutes: int,
    phase: Seq<char>,
    revealed: bool,
    duration_ms: int,
    now_elapsed_ms: int,
    submission_elapsed_ms: int,
) -> bool {
    ||| (phase == "before"@ || phase == "during"@) && !public_standings
    ||| config::window_open(freeze_minutes, phase, revealed, duration_ms, now_elapsed_ms)
        && submission_elapsed_ms >= config::window_start(freeze_minutes, duration_ms)
}

pub fn must_hide_other_submission(
    public_standings: bool,
    freeze_minutes: i32,
    phase: &str,
    revealed: bool,
    duration_ms: i64,
    now_elapsed_ms: i64,
    submission_elapsed_ms: i64,
) -> (r: bool)
    requires
        config::window_fits(freeze_minutes as int, duration_ms as int),
    ensures
        r == hides(
            public_standings,
            freeze_minutes as int,
            phase@,
            revealed,
            duration_ms as int,
            now_elapsed_ms as int,
            submission_elapsed_ms as int,
        ),
{
    if (str_eq(phase, "before") || str_eq(phase, "during")) && !public_standings {
        return true;
    }
    freeze_window_open(freeze_minutes, phase, revealed, duration_ms, now_elapsed_ms)
        && submission_elapsed_ms >= freeze_window_start_ms(freeze_minutes, duration_ms)
}

/// The fields that show how a submission was judged, in a list and in detail.
pub open spec fn result_fields() -> Seq<Seq<char>> {
    seq![
        "verdict"@,
        "score"@,
        "time_used"@,
        "memory_used"@,
        "result.verdict"@,
        "result.score"@,
        "result.time_used"@,
        "result.memory_used"@,
        "result.compile_output"@,
        "result.error_message"@,
        "result.test_case_results"@,
    ]
}

pub fn hidden_result_mask_fields() -> (r: Vec<String>)
    ensures
        text::views(r@) == result_fields(),
{
    let mut out: Vec<String> = Vec::new();
    push_text(&mut out, "verdict");
    push_text(&mut out, "score");
    push_text(&mut out, "time_used");
    push_text(&mut out, "memory_used");
    push_text(&mut out, "result.verdict");
    push_text(&mut out, "result.score");
    push_text(&mut out, "result.time_used");
    push_text(&mut out, "result.memory_used");
    push_text(&mut out, "result.compile_output");
    push_text(&mut out, "result.error_message");
    push_text(&mut out, "result.test_case_results");
    assert(text::views(out@) =~= result_fields());
    out
}

/// What is known of a submission and its contest. Times are in milliseconds
/// from the start.
#[derive(Debug, Clone, PartialEq, Eq)]
pub struct SubmissionFreezeRow {
    pub submission_id: i32,
    pub user_id: i32,
    pub contest_type: Option<String>,
    pub phase: String,
    pub duration_ms: i64,
    pub now_elapsed_ms: i64,
    pub submission_elapsed_ms: i64,
}

impl SubmissionFreezeRow {
    pub open spec fn is_icpc(self) -> bool {
        self.contest_type matches Some(t) && t@ == "icpc"@
    }
}

/// A contest's settings, and whether its board has been revealed.
#[derive(Debug, Clone, Copy, PartialEq, Eq, Structural)]
pub struct ContestFacts {
    pub contest_id: i32,
    pub config: ContestConfig,
    pub revealed: bool,
}

/// The row of a submission: the last one of its id.
pub open spec fn row_of(rows: Seq<SubmissionFreezeRow>, id: i32) -> Option<SubmissionFreezeRow>
    decreases rows.len(),
{
    if rows.len() == 0 {
        None
    } else if rows.last().submission_id == id {
        Some(rows.last())
    } else {
        row_of(rows.drop_last(), id)
    }
}

fn find_row(rows: &Vec<SubmissionFreezeRow>, id: i32) -> (r: Option<usize>)
    ensures
        match r {
            Some(i) => i < rows@.len() && row_of(rows@, id) == Some(rows@[i as int]),
            None => row_of(rows@, id) is None,
        },
{
    let mut n: usize = rows.len();
    assert(rows@.take(n as int) =~= rows@);
    while n > 0
        invariant
            n <= rows@.len(),
            row_of(rows@.take(n as int), id) == row_of(rows@, id),
        decreases n,
    {
        assert(rows@.take(n as int).last() == rows@[n as int - 1]);
        if rows[n - 1].submission_id == id {
            return Some(n - 1);
        }
        assert(rows@.take(n as int).drop_last() =~= rows@.take(n as int - 1));
        n -= 1;
    }
    None
}

/// The facts of a contest: the last ones of its id, else the default settings
/// and a board that has not been revealed.
pub open spec fn facts_of(facts: Seq<ContestFacts>, contest_id: i32) -> ContestFacts
    decreases facts.len(),
{
    if facts.len() == 0 {
        ContestFacts {
            contest_id,
            config: ContestConfig {
                penalty_minutes: 20,
                count_compile_error: false,
                show_test_details: false,
                public_standings: false,
                freeze_minutes: 0,
            },
            revealed: false,
        }
    } else if facts.last().contest_id == contest_id {
        facts.last()
    } else {
        facts_of(facts.drop_last(), contest_id)
    }
}

fn find_facts(facts: &Vec<ContestFacts>, contest_id: i32) -> (r: ContestFacts)
    ensures
        r == facts_of(facts@, contest_id),
        facts@.contains(r) || r.config.freeze_minutes == 0,
{
    let mut n: usize = facts.len();
    assert(facts@.take(n as int) =~= facts@);
    while n > 0
        invariant
            n <= facts@.len(),
            facts_of(facts@.take(n as int), contest_id) == facts_of(facts@, contest_id),
        decreases n,
    {
        assert(facts@.take(n as int).last() == facts@[n as int - 1]);
        if facts[n - 1].contest_id == contest_id {
            return facts[n - 1];
        }
        assert(facts@.take(n as int).drop_last() =~= facts@.take(n as int - 1));
        n -= 1;
    }
    ContestFacts { contest_id, config: ContestConfig::default(), revealed: false }
}

/// Whether the viewer is kept from the outcome of this resource.
pub open spec fn withheld(
    resource: QueryResource,
    rows: Seq<SubmissionFreezeRow>,
    facts: Seq<ContestFacts>,
    viewer: Option<i32>,
) -> bool {
    match visibility::submission_of(resource) {
        None => false,
        Some(id) => match row_of(rows, id) {
            // Nothing is known of the submission.
            None => true,
            Some(row) => {
                &&& row.is_icpc()
                &&& viewer != Some(row.user_id)
                &&& resource.contest_id matches Some(contest_id) && ({
                    let f = facts_of(facts, contest_id);
                    hides(
                        f.config.public_standings,
                        f.config.freeze_minutes as int,
                        row.phase@,
                        f.revealed,
                        row.duration_ms as int,
                        row.now_elapsed_ms as int,
                        row.submission_elapsed_ms as int,
                    )
                })
            },
        },
    }
}

/// The decision on each resource: the outcome is blanked where it is withheld.
pub open spec fn decisions_are(
    decisions: Seq<WireDecision>,
    req: VisibilityQueryInput,
    view_all: Seq<char>,
    rows: Seq<SubmissionFreezeRow>,
    facts: Seq<ContestFacts>,
) -> bool {
    &&& decisions.len() == req.resources@.len()
    &&& forall|i: int|
        0 <= i < decisions.len() ==> visibility::blanks(
            #[trigger] decisions[i],
            if !text::views(req.subject.permissions@).contains(view_all) && withheld(
                req.resources@[i],
                rows,
                facts,
                req.subject.user_id,
            ) {
                Some(result_fields())
            } else {
                None
            },
        )
}

pub open spec fn freeze_rows_text(placeholders: Seq<char>) -> Seq<char> {
    "SELECT s.id AS submission_id, s.user_id, c.contest_type, CASE WHEN NOW() < c.start_time THEN 'before' WHEN NOW() > c.end_time THEN 'after' ELSE 'during' END AS phase, EXTRACT(EPOCH FROM (c.end_time - c.start_time)) * 1000 AS duration_ms, EXTRACT(EPOCH FROM (NOW() - c.start_time)) * 1000 AS now_elapsed_ms, EXTRACT(EPOCH FROM (s.created_at - c.start_time)) * 1000 AS submission_elapsed_ms FROM submission s JOIN contest c ON c.id = s.contest_id WHERE s.id IN ("@
        + placeholders + ")"@
}

/// The one query about all submissions of a request, or `None` where none is
/// needed.
pub fn freeze_rows_query(req: &VisibilityQueryInput, view_all: &str) -> (r: Option<Query>)
    ensures
        match r {
            None => text::views(req.subject.permissions@).contains(view_all@) || forall|i: int|
                0 <= i < req.resources@.len() ==> visibility::submission_of(
                    #[trigger] req.resources@[i],
                ) is None,
            Some(q) => {
                &&& !text::views(req.subject.permissions@).contains(view_all@)
                &&& exists|ids: Seq<i32>|
                    {
                        &&& #[trigger] ids::increasing(ids)
                        &&& ids.len() > 0
                        &&& forall|y: i32| #[trigger]
                            ids.contains(y) <==> visibility::submissions_of(req.resources@).contains(Some(y))
                        &&& sql::query_is(
                            q,
                            freeze_rows_text(sql::placeholders(0, ids.len())),
                            sql::int_views(ids),
                        )
                    }
            },
        },
{
    if holds(&req.subject, view_all) {
        return None;
    }
    let by_index = submission_ids(&req.resources);
    let ids = sorted_ids(&by_index);
    if ids.len() == 0 {
        proof {
            assert forall|i: int| 0 <= i < req.resources@.len() implies visibility::submission_of(
                #[trigger] req.resources@[i],
            ) is None by {
                match visibility::submission_of(req.resources@[i]) {
                    Some(y) => {
                        assert(visibility::submissions_of(req.resources@)[i] == Some(y));
                        assert(ids@.contains(y));
                    },
                    None => {},
                }
            }
        }
        return None;
    }
    let mut p = Params::new();
    let list = bind_ids(&mut p, &ids);
    let mut sql = "SELECT s.id AS submission_id, s.user_id, c.contest_type, CASE WHEN NOW() < c.start_time THEN 'before' WHEN NOW() > c.end_time THEN 'after' ELSE 'during' END AS phase, EXTRACT(EPOCH FROM (c.end_time - c.start_time)) * 1000 AS duration_ms, EXTRACT(EPOCH FROM (NOW() - c.start_time)) * 1000 AS now_elapsed_ms, EXTRACT(EPOCH FROM (s.created_at - c.start_time)) * 1000 AS submission_elapsed_ms FROM submission s JOIN contest c ON c.id = s.contest_id WHERE s.id IN (".to_owned();
    sql.append(list.as_str());
    sql.append(")");
    assert(p.values() =~= sql::int_views(ids@));
    let q = Query { sql, args: p.args };
    assert(ids::increasing(ids@));
    Some(q)
}

/// A contest that one of the submissions belongs to, as the resource says.
pub open spec fn names_contest(
    resource: QueryResource,
    rows: Seq<SubmissionFreezeRow>,
    contest_id: i32,
) -> bool {
    &&& visibility::submission_of(resource) matches Some(id)
    &&& row_of(rows, id) matches Some(row)
    &&& row.is_icpc()
    &&& resource.contest_id == Some(contest_id)
}

/// The contests whose settings the decisions need, sorted, each once.
#[verifier::loop_isolation(false)]
pub fn contests_needed(resources: &Vec<QueryResource>, rows: &Vec<SubmissionFreezeRow>) -> (r: Vec<
    i32,
>)
    ensures
        ids::increasing(r@),
        forall|c: i32| #[trigger]
            r@.contains(c) <==> exists|i: int|
                0 <= i < resources@.len() && names_contest(#[trigger] resources@[i], rows@, c),
{
    let ids = submission_ids(resources);
    let mut out: Vec<i32> = Vec::new();
    let mut i: usize = 0;
    while i < resources.len()
        invariant
            i <= resources@.len(),
            ids::increasing(out@),
            forall|c: i32| #[trigger]
                out@.contains(c) <==> exists|k: int|
                    0 <= k < i && names_contest(#[trigger] resources@[k], rows@, c),
        decreases resources@.len() - i,
    {
        let ghost before = out@;
        assert(ids@[i as int] == visibility::submission_of(resources@[i as int]));
        match ids[i] {
            Some(id) => {
                match find_row(rows, id) {
                    Some(at) => {
                        let icpc = match &rows[at].contest_type {
                            Some(t) => str_eq(t.as_str(), "icpc"),
                            None => false,
                        };
                        if icpc {
                            match resources[i].contest_id {
                                Some(c) => {
                                    insert_sorted(&mut out, c);
                                    assert(names_contest(resources@[i as int], rows@, c));
                                },
                                None => {},
                            }
                        }
                    },
                    None => {},
                }
            },
            None => {},
        }
        proof {
            assert forall|c: i32| #[trigger] out@.contains(c) <==> exists|k: int|
                0 <= k < i + 1 && names_contest(#[trigger] resources@[k], rows@, c) by {
                assert(before.contains(c) <==> exists|k: int|
                    0 <= k < i && names_contest(#[trigger] resources@[k], rows@, c));
                if exists|k: int|
                    0 <= k < i + 1 && names_contest(#[trigger] resources@[k], rows@, c) {
                    let k = choose|k: int|
                        0 <= k < i + 1 && names_contest(#[trigger] resources@[k], rows@, c);
                    if k < i {
                        assert(before.contains(c));
                    }
                }
            }
        }
        i += 1;
    }
    out
}

/// Decides what the viewer may see.
#[verifier::loop_isolation(false)]
pub fn decide_visibility_decisions(
    req: &VisibilityQueryInput,
    view_all: &str,
    rows: &Vec<SubmissionFreezeRow>,
    facts: &Vec<ContestFacts>,
) -> (r: Vec<WireDecision>)
    requires
        forall|i: int, j: int|
            0 <= i < rows@.len() && 0 <= j < facts@.len() ==> config::window_fits(
                (#[trigger] facts@[j]).config.freeze_minutes as int,
                (#[trigger] rows@[i]).duration_ms as int,
            ),
    ensures
        decisions_are(r@, *req, view_all@, rows@, facts@),
{
    if holds(&req.subject, view_all) {
        return allow_all(req.resources.len());
    }
    let ids = submission_ids(&req.resources);
    let mask = hidden_result_mask_fields();
    let mut out: Vec<WireDecision> = Vec::new();
    let mut i: usize = 0;
    while i < req.resources.len()
        invariant
            i <= req.resources@.len(),
            out@.len() == i,
            forall|k: int|
                0 <= k < i ==> visibility::blanks(
                    #[trigger] out@[k],
                    if withheld(req.resources@[k], rows@, facts@, req.subject.user_id) {
                        Some(result_fields())
                    } else {
                        None
                    },
                ),
        decreases req.resources@.len() - i,
    {
        assert(ids@[i as int] == visibility::submission_of(req.resources@[i as int]));
        let hide = match ids[i] {
            None => false,
            Some(id) => match find_row(rows, id) {
                None => true,
                Some(at) => {
                    let row = &rows[at];
                    let icpc = match &row.contest_type {
                        Some(t) => str_eq(t.as_str(), "icpc"),
                        None => false,
                    };
                    let own = match req.subject.user_id {
                        Some(u) => u == row.user_id,
                        None => false,
                    };
                    if !icpc || own {
                        false
                    } else {
                        match req.resources[i].contest_id {
                            None => false,
                            Some(contest_id) => {
                                let f = find_facts(facts, contest_id);
                                must_hide_other_submission(
                                    f.config.public_standings,
                                    f.config.freeze_minutes,
                                    row.phase.as_str(),
                                    f.revealed,
                                    row.duration_ms,
                                    row.now_elapsed_ms,
                                    row.submission_elapsed_ms,
                                )
                            },
                        }
                    }
                },
            },
        };
        assert(hide == withheld(req.resources@[i as int], rows@, facts@, req.subject.user_id));
        if hide {
            out.push(WireDecision::Redact { fields: copy_list(&mask) });
        } else {
            out.push(WireDecision::Allow {  });
        }
        i += 1;
    }
    out
}

/// A viewer's own submission is never withheld, frozen or not.
pub proof fn own_submissions_are_shown(
    resource: QueryResource,
    rows: Seq<SubmissionFreezeRow>,
    facts: Seq<ContestFacts>,
    id: i32,
    row: SubmissionFreezeRow,
)
    requires
        visibility::submission_of(resource) == Some(id),
        row_of(rows, id) == Some(row),
    ensures
        !withheld(resource, rows, facts, Some(row.user_id)),
{
}

/// Contests of another type, and whatever is no submission of a contest, are
/// left to others.
pub proof fn only_icpc_submissions_are_withheld(
    resource: QueryResource,
    rows: Seq<SubmissionFreezeRow>,
    facts: Seq<ContestFacts>,
    viewer: Option<i32>,
)
    requires
        withheld(resource, rows, facts, viewer),
    ensures
        resource.kind@ == "submission"@,
        resource.contest_id is Some,
        visibility::submission_of(resource) matches Some(id) && (row_of(rows, id) matches Some(row)
            ==> row.is_icpc()),
{
}

} // verus!
