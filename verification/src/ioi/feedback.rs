//! What a viewer may see of a judged submission.

use vstd::prelude::*;

use crate::ids::{has_id, insert_sorted, sorted_ids};
use crate::ioi::config::{ContestConfig, FeedbackLevel};
use crate::ioi::scoreboard::full_scoreboard_visible_for_phase;
use crate::ioi::tokens::{token_key, TokenState};
use crate::sql::{bind_ids, Params, Query};
use crate::text::{push_text, str_eq};
use crate::visibility::{
    allow_all, holds, submission_ids, QueryResource, VisibilityQueryInput, WireDecision,
};
use crate::ids;
use crate::ioi::config;
use crate::ioi::scoreboard;
use crate::ioi::tokens;
use crate::sql;
use crate::text;
use crate::visibility;

verus! {

/// The fields of each test case's result.
pub open spec fn case_fields() -> Seq<Seq<char>> {
    seq![
        "result.test_case_results.*.verdict"@,
        "result.test_case_results.*.score"@,
        "result.test_case_results.*.time_used"@,
        "result.test_case_results.*.memory_used"@,
        "result.test_case_results.*.input"@,
        "result.test_case_results.*.expected_output"@,
        "result.test_case_results.*.stdout"@,
        "result.test_case_results.*.stderr"@,
        "result.test_case_results.*.checker_output"@,
    ]
}

pub fn per_test_case_mask_fields() -> (r: Vec<String>)
    ensures
        text::views(r@) == case_fields(),
{
    let mut out: Vec<String> = Vec::new();
    push_text(&mut out, "result.test_case_results.*.verdict");
    push_text(&mut out, "result.test_case_results.*.score");
    push_text(&mut out, "result.test_case_results.*.time_used");
    push_text(&mut out, "result.test_case_results.*.memory_used");
    push_text(&mut out, "result.test_case_results.*.input");
    push_text(&mut out, "result.test_case_results.*.expected_output");
    push_text(&mut out, "result.test_case_results.*.stdout");
    push_text(&mut out, "result.test_case_results.*.stderr");
    push_text(&mut out, "result.test_case_results.*.checker_output");
    assert(text::views(out@) =~= case_fields());
    out
}

/// Everything that shows how a submission was judged, in a list and in detail.
pub open spec fn outcome_fields() -> Seq<Seq<char>> {
    seq![
        "verdict"@,
        "score"@,
        "time_used"@,
        "memory_used"@,
        "result.verdict"@,
        "result.score"@,
        "result.time_used"@,
        "result.memory_used"@,
        "result.compile_output"@,
        "result.error_message"@,
        "result.test_case_results"@,
    ]
}

pub fn none_level_mask_fields() -> (r: Vec<String>)
    ensures
        text::views(r@) == outcome_fields(),
{
    let mut out: Vec<String> = Vec::new();
    push_text(&mut out, "verdict");
    push_text(&mut out, "score");
    push_text(&mut out, "time_used");
    push_text(&mut out, "memory_used");
    push_text(&mut out, "result.verdict");
    push_text(&mut out, "result.score");
    push_text(&mut out, "result.time_used");
    push_text(&mut out, "result.memory_used");
    push_text(&mut out, "result.compile_output");
    push_text(&mut out, "result.error_message");
    push_text(&mut out, "result.test_case_results");
    assert(text::views(out@) =~= outcome_fields());
    out
}

/// What a level of feedback blanks. Full feedback blanks nothing.
pub open spec fn mask_of(level: FeedbackLevel) -> Option<Seq<Seq<char>>> {
    match level {
        FeedbackLevel::Full => None,
        FeedbackLevel::SubtaskScores => Some(case_fields()),
        FeedbackLevel::TotalOnly => Some(case_fields()),
        FeedbackLevel::Nothing => Some(outcome_fields()),
    }
}

pub fn mask_for_level(level: FeedbackLevel) -> (r: WireDecision)
    ensures
        visibility::blanks(r, mask_of(level)),
{
    match level {
        FeedbackLevel::Full => WireDecision::Allow {  },
        FeedbackLevel::SubtaskScores => WireDecision::Redact {
            fields: per_test_case_mask_fields(),
        },
        FeedbackLevel::TotalOnly => WireDecision::Redact { fields: per_test_case_mask_fields() },
        FeedbackLevel::Nothing => WireDecision::Redact { fields: none_level_mask_fields() },
    }
}

/// What is known of a submission and its contest.
#[derive(Debug, Clone, PartialEq, Eq)]
pub struct SubmissionVisibilityRow {
    pub submission_id: i32,
    pub user_id: i32,
    pub contest_type: Option<String>,
    pub phase: String,
}

impl SubmissionVisibilityRow {
    pub open spec fn is_ioi(self) -> bool {
        self.contest_type matches Some(t) && t@ == "ioi"@
    }
}

/// A contest's settings, and the viewer's tokens in it.
#[derive(Debug, Clone, PartialEq, Eq)]
pub struct ContestView {
    pub contest_id: i32,
    pub config: ContestConfig,
    pub tokens: Option<TokenState>,
}

/// The row of a submission: the last one of its id.
pub open spec fn row_of(rows: Seq<SubmissionVisibilityRow>, id: i32) -> Option<
    SubmissionVisibilityRow,
>
    decreases rows.len(),
{
    if rows.len() == 0 {
        None
    } else if rows.last().submission_id == id {
        Some(rows.last())
    } else {
        row_of(rows.drop_last(), id)
    }
}

fn find_row(rows: &Vec<SubmissionVisibilityRow>, id: i32) -> (r: Option<usize>)
    ensures
        match r {
            Some(i) => i < rows@.len() && row_of(rows@, id) == Some(rows@[i as int]),
            None => row_of(rows@, id) is None,
        },
{
    let mut n: usize = rows.len();
    assert(rows@.take(n as int) =~= rows@);
    while n > 0
        invariant
            n <= rows@.len(),
            row_of(rows@.take(n as int), id) == row_of(rows@, id),
        decreases n,
    {
        assert(rows@.take(n as int).last() == rows@[n as int - 1]);
        if rows[n - 1].submission_id == id {
            return Some(n - 1);
        }
        assert(rows@.take(n as int).drop_last() =~= rows@.take(n as int - 1));
        n -= 1;
    }
    None
}

/// What is known of a contest: the last of its id.
pub open spec fn view_of(views: Seq<ContestView>, contest_id: i32) -> Option<ContestView>
    decreases views.len(),
{
    if views.len() == 0 {
        None
    } else if views.last().contest_id == contest_id {
        Some(views.last())
    } else {
        view_of(views.drop_last(), contest_id)
    }
}

fn find_view(contests: &Vec<ContestView>, contest_id: i32) -> (r: Option<usize>)
    ensures
        match r {
            Some(i) => i < contests@.len() && view_of(contests@, contest_id) == Some(
                contests@[i as int],
            ),
            None => view_of(contests@, contest_id) is None,
        },
{
    let mut n: usize = contests.len();
    assert(contests@.take(n as int) =~= contests@);
    while n > 0
        invariant
            n <= contests@.len(),
            view_of(contests@.take(n as int), contest_id) == view_of(contests@, contest_id),
        decreases n,
    {
        assert(contests@.take(n as int).last() == contests@[n as int - 1]);
        if contests[n - 1].contest_id == contest_id {
            return Some(n - 1);
        }
        assert(contests@.take(n as int).drop_last() =~= contests@.take(n as int - 1));
        n -= 1;
    }
    None
}

pub open spec fn config_in(contests: Seq<ContestView>, contest_id: i32) -> ContestConfig {
    match view_of(contests, contest_id) {
        Some(v) => v.config,
        None => config::default_settings(),
    }
}

/// Whether the viewer has spent a token on the submission.
pub open spec fn tokened_in(contests: Seq<ContestView>, contest_id: i32, id: i32) -> bool {
    view_of(contests, contest_id) matches Some(v) && (v.tokens matches Some(state)
        && state.tokened_submission_ids@.contains(id))
}

/// What is blanked of one resource. The owner sees as much as the level of
/// feedback allows, and everything where a token was spent; others see no more
/// than that, and nothing while the scoreboard is closed to them.
pub open spec fn blanked(
    resource: QueryResource,
    rows: Seq<SubmissionVisibilityRow>,
    contests: Seq<ContestView>,
    viewer: Option<i32>,
) -> Option<Seq<Seq<char>>> {
    match visibility::submission_of(resource) {
        None => None,
        Some(id) => match row_of(rows, id) {
            // Nothing is known of the submission.
            None => Some(outcome_fields()),
            Some(row) => match resource.contest_id {
                None => None,
                Some(contest_id) => {
                    let config = config_in(contests, contest_id);
                    if !row.is_ioi() {
                        None
                    } else if viewer == Some(row.user_id) {
                        if tokened_in(contests, contest_id, id) {
                            None
                        } else {
                            mask_of(config.feedback_level)
                        }
                    } else if !scoreboard::board_shown(row.phase@, false, config.scoreboard_visibility) {
                        Some(outcome_fields())
                    } else {
                        mask_of(config.feedback_level)
                    }
                },
            },
        },
    }
}

pub open spec fn decisions_are(
    decisions: Seq<WireDecision>,
    req: VisibilityQueryInput,
    view_all: Seq<char>,
    rows: Seq<SubmissionVisibilityRow>,
    contests: Seq<ContestView>,
) -> bool {
    &&& decisions.len() == req.resources@.len()
    &&& forall|i: int|
        0 <= i < decisions.len() ==> visibility::blanks(
            #[trigger] decisions[i],
            if text::views(req.subject.permissions@).contains(view_all) {
                None
            } else {
                blanked(req.resources@[i], rows, contests, req.subject.user_id)
            },
        )
}

pub open spec fn rows_text(placeholders: Seq<char>) -> Seq<char> {
    "SELECT s.id AS submission_id, s.user_id, c.contest_type, CASE WHEN NOW() < c.start_time THEN 'before' WHEN NOW() > c.end_time THEN 'after' ELSE 'during' END AS phase FROM submission s JOIN contest c ON c.id = s.contest_id WHERE s.id IN ("@
        + placeholders + ")"@
}

/// The one query about all submissions of a request, or `None` where none is
/// needed.
pub fn visibility_rows_query(req: &VisibilityQueryInput, view_all: &str) -> (r: Option<Query>)
    ensures
        match r {
            None => text::views(req.subject.permissions@).contains(view_all@) || forall|i: int|
                0 <= i < req.resources@.len() ==> visibility::submission_of(
                    #[trigger] req.resources@[i],
                ) is None,
            Some(q) => {
                &&& !text::views(req.subject.permissions@).contains(view_all@)
                &&& exists|ids: Seq<i32>|
                    {
                        &&& #[trigger] ids::increasing(ids)
                        &&& ids.len() > 0
                        &&& forall|y: i32| #[trigger]
                            ids.contains(y) <==> visibility::submissions_of(req.resources@).contains(Some(y))
                        &&& sql::query_is(q, rows_text(sql::placeholders(0, ids.len())), sql::int_views(ids))
                    }
            },
        },
{
    if holds(&req.subject, view_all) {
        return None;
    }
    let by_index = submission_ids(&req.resources);
    let list = sorted_ids(&by_index);
    if list.len() == 0 {
        proof {
            assert forall|i: int| 0 <= i < req.resources@.len() implies visibility::submission_of(
                #[trigger] req.resources@[i],
            ) is None by {
                match visibility::submission_of(req.resources@[i]) {
                    Some(y) => {
                        assert(visibility::submissions_of(req.resources@)[i] == Some(y));
                        assert(list@.contains(y));
                    },
                    None => {},
                }
            }
        }
        return None;
    }
    let mut p = Params::new();
    let holders = bind_ids(&mut p, &list);
    let mut sql = "SELECT s.id AS submission_id, s.user_id, c.contest_type, CASE WHEN NOW() < c.start_time THEN 'before' WHEN NOW() > c.end_time THEN 'after' ELSE 'during' END AS phase FROM submission s JOIN contest c ON c.id = s.contest_id WHERE s.id IN (".to_owned();
    sql.append(holders.as_str());
    sql.append(")");
    assert(p.values() =~= sql::int_views(list@));
    let q = Query { sql, args: p.args };
    assert(ids::increasing(list@));
    Some(q)
}

/// A contest that one of the submissions belongs to, as the resource says.
pub open spec fn names_contest(
    resource: QueryResource,
    rows: Seq<SubmissionVisibilityRow>,
    contest_id: i32,
) -> bool {
    &&& visibility::submission_of(resource) matches Some(id)
    &&& row_of(rows, id) matches Some(row)
    &&& row.is_ioi()
    &&& resource.contest_id == Some(contest_id)
}

fn row_is_ioi(row: &SubmissionVisibilityRow) -> (r: bool)
    ensures
        r == row.is_ioi(),
{
    match &row.contest_type {
        Some(t) => str_eq(t.as_str(), "ioi"),
        None => false,
    }
}

/// The contests whose settings the decisions need, sorted, each once.
#[verifier::loop_isolation(false)]
pub fn contests_needed(
    resources: &Vec<QueryResource>,
    rows: &Vec<SubmissionVisibilityRow>,
) -> (r: Vec<i32>)
    ensures
        ids::increasing(r@),
        forall|c: i32| #[trigger]
            r@.contains(c) <==> exists|i: int|
                0 <= i < resources@.len() && names_contest(#[trigger] resources@[i], rows@, c),
{
    let subs = submission_ids(resources);
    let mut out: Vec<i32> = Vec::new();
    let mut i: usize = 0;
    while i < resources.len()
        invariant
            i <= resources@.len(),
            ids::increasing(out@),
            forall|c: i32| #[trigger]
                out@.contains(c) <==> exists|k: int|
                    0 <= k < i && names_contest(#[trigger] resources@[k], rows@, c),
        decreases resources@.len() - i,
    {
        let ghost before = out@;
        assert(subs@[i as int] == visibility::submission_of(resources@[i as int]));
        match subs[i] {
            Some(id) => {
                match find_row(rows, id) {
                    Some(at) => {
                        if row_is_ioi(&rows[at]) {
                            match resources[i].contest_id {
                                Some(c) => {
                                    insert_sorted(&mut out, c);
                                    assert(names_contest(resources@[i as int], rows@, c));
                                },
                                None => {},
                            }
                        }
                    },
                    None => {},
                }
            },
            None => {},
        }
        proof {
            assert forall|c: i32| #[trigger] out@.contains(c) <==> exists|k: int|
                0 <= k < i + 1 && names_contest(#[trigger] resources@[k], rows@, c) by {
                assert(before.contains(c) <==> exists|k: int|
                    0 <= k < i && names_contest(#[trigger] resources@[k], rows@, c));
                if exists|k: int|
                    0 <= k < i + 1 && names_contest(#[trigger] resources@[k], rows@, c) {
                    let k = choose|k: int|
                        0 <= k < i + 1 && names_contest(#[trigger] resources@[k], rows@, c);
                    if k < i {
                        assert(before.contains(c));
                    }
                }
            }
        }
        i += 1;
    }
    out
}

/// Where the viewer's tokens in these contests are stored; nowhere for a
/// viewer who is not known.
pub fn viewer_token_keys(viewer: Option<i32>, contest_ids: &Vec<i32>) -> (r: Vec<String>)
    ensures
        text::views(r@) == (match viewer {
            Some(u) => contest_ids@.map_values(|c: i32| tokens::token_key_of(c, u)),
            None => Seq::<Seq<char>>::empty(),
        }),
{
    let mut out: Vec<String> = Vec::new();
    match viewer {
        None => {
            assert(text::views(out@) =~= Seq::<Seq<char>>::empty());
        },
        Some(u) => {
            let ghost all = contest_ids@.map_values(|c: i32| tokens::token_key_of(c, u));
            assert(text::views(out@) =~= all.take(0));
            let mut i: usize = 0;
            while i < contest_ids.len()
                invariant
                    i <= contest_ids@.len(),
                    all == contest_ids@.map_values(|c: i32| tokens::token_key_of(c, u)),
                    text::views(out@) == all.take(i as int),
                decreases contest_ids@.len() - i,
            {
                let ghost before = out@;
                let key = token_key(contest_ids[i], u);
                let ghost k = key;
                out.push(key);
                proof {
                    crate::text::lemma_views_push(before, k);
                    assert(all.take(i as int + 1) =~= all.take(i as int).push(all[i as int]));
                }
                i += 1;
            }
            assert(all.take(i as int) =~= all);
        },
    }
    out
}

/// Decides what the viewer may see of one resource.
pub fn decide_one(
    resource: &QueryResource,
    id: Option<i32>,
    rows: &Vec<SubmissionVisibilityRow>,
    contests: &Vec<ContestView>,
    viewer: Option<i32>,
) -> (r: WireDecision)
    requires
        id == visibility::submission_of(*resource),
    ensures
        visibility::blanks(r, blanked(*resource, rows@, contests@, viewer)),
{
    let id: i32 = match id {
        None => {
            return WireDecision::Allow {  };
        },
        Some(id) => id,
    };
    let at: usize = match find_row(rows, id) {
        None => {
            return mask_for_level(FeedbackLevel::Nothing);
        },
        Some(at) => at,
    };
    let row = &rows[at];
    if !row_is_ioi(row) {
        return WireDecision::Allow {  };
    }
    let contest_id: i32 = match resource.contest_id {
        None => {
            return WireDecision::Allow {  };
        },
        Some(c) => c,
    };
    let found = find_view(contests, contest_id);
    let config = match found {
        Some(v) => contests[v].config,
        None => ContestConfig::default(),
    };
    let own = match viewer {
        Some(u) => u == row.user_id,
        None => false,
    };
    if own {
        let tokened = match found {
            Some(v) => match &contests[v].tokens {
                Some(state) => has_id(&state.tokened_submission_ids, id),
                None => false,
            },
            None => false,
        };
        if tokened {
            return WireDecision::Allow {  };
        }
        return mask_for_level(config.feedback_level);
    }
    if !full_scoreboard_visible_for_phase(row.phase.as_str(), false, config.scoreboard_visibility) {
        return mask_for_level(FeedbackLevel::Nothing);
    }
    mask_for_level(config.feedback_level)
}

/// Decides what the viewer may see.
pub fn decide_visibility_decisions(
    req: &VisibilityQueryInput,
    view_all: &str,
    rows: &Vec<SubmissionVisibilityRow>,
    contests: &Vec<ContestView>,
) -> (r: Vec<WireDecision>)
    ensures
        decisions_are(r@, *req, view_all@, rows@, contests@),
{
    if holds(&req.subject, view_all) {
        return allow_all(req.resources.len());
    }
    let subs = submission_ids(&req.resources);
    let mut out: Vec<WireDecision> = Vec::new();
    let mut i: usize = 0;
    while i < req.resources.len()
        invariant
            i <= req.resources@.len(),
            subs@ == visibility::submissions_of(req.resources@),
            out@.len() == i,
            forall|k: int|
                0 <= k < i ==> visibility::blanks(
                    #[trigger] out@[k],
                    blanked(req.resources@[k], rows@, contests@, req.subject.user_id),
                ),
        decreases req.resources@.len() - i,
    {
        assert(subs@[i as int] == visibility::submission_of(req.resources@[i as int]));
        out.push(decide_one(&req.resources[i], subs[i], rows, contests, req.subject.user_id));
        i += 1;
    }
    out
}

/// A token shows the owner everything, whatever the level of feedback.
pub proof fn tokens_unlock_feedback(
    resource: QueryResource,
    rows: Seq<SubmissionVisibilityRow>,
    contests: Seq<ContestView>,
    id: i32,
    row: SubmissionVisibilityRow,
    contest_id: i32,
)
    requires
        visibility::submission_of(resource) == Some(id),
        row_of(rows, id) == Some(row),
        resource.contest_id == Some(contest_id),
        tokened_in(contests, contest_id, id),
    ensures
        blanked(resource, rows, contests, Some(row.user_id)) is None,
{
}

/// Nobody sees more of another's submission than its owner without a token.
pub proof fn others_see_no_more_than_the_owner(
    resource: QueryResource,
    rows: Seq<SubmissionVisibilityRow>,
    contests: Seq<ContestView>,
    id: i32,
    row: SubmissionVisibilityRow,
    contest_id: i32,
    viewer: Option<i32>,
)
    requires
        visibility::submission_of(resource) == Some(id),
        row_of(rows, id) == Some(row),
        row.is_ioi(),
        resource.contest_id == Some(contest_id),
        viewer != Some(row.user_id),
        !tokened_in(contests, contest_id, id),
    ensures
        blanked(resource, rows, contests, viewer) == blanked(
            resource,
            rows,
            contests,
            Some(row.user_id),
        ) || blanked(resource, rows, contests, viewer) == Some(outcome_fields()),
{
}

/// While the scoreboard is closed, the submissions of others show nothing.
pub proof fn a_closed_board_hides_the_others(
    resource: QueryResource,
    rows: Seq<SubmissionVisibilityRow>,
    contests: Seq<ContestView>,
    id: i32,
    row: SubmissionVisibilityRow,
    contest_id: i32,
    viewer: Option<i32>,
)
    requires
        visibility::submission_of(resource) == Some(id),
        row_of(rows, id) == Some(row),
        row.is_ioi(),
        resource.contest_id == Some(contest_id),
        viewer != Some(row.user_id),
        !scoreboard::board_shown(row.phase@, false, config_in(contests, contest_id).scoreboard_visibility),
    ensures
        blanked(resource, rows, contests, viewer) == Some(outcome_fields()),
{
}

} // verus!
