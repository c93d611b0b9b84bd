//! The cap on submissions.

use broccoli_plugins::http::{HttpAuth, HttpError, HttpRequest};
use broccoli_plugins::limit::{
    active_count, check_limit, claim_of, claim_row, confirm_row, contest_key, effective_cap,
    get_limit_status, limit_status, on_submission_created, ClaimRow, EffectiveLimits, LimitAnswer,
    LimitStatus, LimitsConfig, PENDING_GRACE_SECS, SCHEMA_SQL,
};
use broccoli_plugins::sql::SqlValue;
use broccoli_plugins::textmap::TextMap;

fn limits(is_enabled: bool, max_submissions: Option<u32>) -> EffectiveLimits {
    EffectiveLimits {
        is_enabled,
        config: LimitsConfig { max_submissions },
    }
}

fn row(confirmed: u32, pending: u32, oldest_pending_at: Option<i64>) -> ClaimRow {
    ClaimRow {
        confirmed,
        pending,
        oldest_pending_at,
    }
}

#[test]
fn no_cap_means_no_claim() {
    for l in [
        None,
        Some(limits(false, Some(3))),
        Some(limits(true, None)),
        Some(limits(true, Some(0))),
    ] {
        assert_eq!(effective_cap(l), None);
        assert!(claim_of(l, 1, 2, None).is_none());
        assert!(on_submission_created(l, 1, 2, None).is_none());
        assert_eq!(check_limit(l, 0, 9), LimitAnswer::Pass);
    }
    assert_eq!(effective_cap(Some(limits(true, Some(3)))), Some(3));
}

#[test]
fn claims_are_kept_by_user_problem_and_contest() {
    let l = Some(limits(true, Some(3)));
    let q = claim_of(l, 1, 2, Some(7)).unwrap();
    let n = |v| SqlValue::Int(v);
    assert_eq!(q.args, vec![n(1), n(2), n(7), n(30), n(30), n(30), n(3)]);
    assert!(q.sql.contains("VALUES ($1, $2, $3, 0, 1, NOW())"));
    assert!(q.sql.ends_with("THEN submission_limit_claim.pending ELSE 0 END) < $7"));
    let q = on_submission_created(l, 1, 2, None).unwrap();
    assert_eq!(q.args, vec![n(1), n(2), n(0)]);
    assert!(q.sql.contains("VALUES ($1, $2, $3, 1, 0, NULL)"));
    let q = active_count(1, 2, contest_key(None));
    assert_eq!(q.args, vec![n(30), n(1), n(2), n(0)]);
    assert!(SCHEMA_SQL.contains("PRIMARY KEY (user_id, problem_id, contest_id)"));
}

#[test]
fn the_last_slot_is_taken_once() {
    let mut state = None;
    for _ in 0..3 {
        state = claim_row(state, 100, 3);
    }
    assert_eq!(state, Some(row(0, 3, Some(100))));
    assert_eq!(claim_row(state, 100, 3), None);
}

#[test]
fn abandoned_claims_free_their_slots() {
    let state = Some(row(1, 2, Some(100)));
    assert_eq!(claim_row(state, 100 + PENDING_GRACE_SECS - 1, 3), None);
    assert_eq!(
        claim_row(state, 100 + PENDING_GRACE_SECS, 3),
        Some(row(1, 1, Some(130)))
    );
}

#[test]
fn made_submissions_always_count() {
    assert_eq!(confirm_row(None), row(1, 0, None));
    assert_eq!(confirm_row(Some(row(1, 0, None))), row(2, 0, None));
    assert_eq!(confirm_row(Some(row(1, 1, Some(5)))), row(2, 0, None));
    assert_eq!(confirm_row(Some(row(1, 2, Some(5)))), row(2, 1, Some(5)));
}

#[test]
fn a_claim_and_its_confirmation_take_one_slot() {
    let after = confirm_row(claim_row(Some(row(1, 1, Some(90))), 100, 5));
    // One slot more than the two that were taken.
    assert_eq!(after, row(2, 1, Some(90)));
}

#[test]
fn a_full_cap_rejects() {
    let l = Some(limits(true, Some(3)));
    assert_eq!(check_limit(l, 1, 0), LimitAnswer::Pass);
    assert_eq!(
        check_limit(l, 0, 3),
        LimitAnswer::Reject {
            code: "SUBMISSION_LIMIT_EXCEEDED".into(),
            message: "Submission limit reached (3/3)".into(),
            status: 429,
            submissions_made: 3,
            max_submissions: 3,
        }
    );
}

fn request(contest_id: Option<&str>) -> HttpRequest {
    let mut params = TextMap::new();
    if let Some(c) = contest_id {
        params.insert("contest_id", c.to_string());
    }
    HttpRequest {
        params,
        query: TextMap::new(),
        headers: TextMap::new(),
        auth: Some(HttpAuth {
            user_id: 1,
            username: "alice".into(),
            permissions: vec![],
        }),
    }
}

#[test]
fn the_state_shows_what_remains() {
    let off = LimitStatus {
        enabled: false,
        submissions_made: 0,
        max_submissions: 0,
        remaining: None,
        unlimited: true,
    };
    assert_eq!(limit_status(limits(false, Some(3)), 2), off);
    let unlimited = LimitStatus {
        enabled: true,
        submissions_made: 2,
        max_submissions: 0,
        remaining: None,
        unlimited: true,
    };
    assert_eq!(limit_status(limits(true, None), 2), unlimited);
    let capped = |made, remaining| LimitStatus {
        enabled: true,
        submissions_made: made,
        max_submissions: 3,
        remaining: Some(remaining),
        unlimited: false,
    };
    assert_eq!(limit_status(limits(true, Some(3)), 2), capped(2, 1));
    assert_eq!(limit_status(limits(true, Some(3)), 4), capped(4, 0));
    // What is said to remain can be claimed.
    assert!(claim_row(Some(row(2, 0, None)), 0, 3).is_some());
    assert!(claim_row(Some(row(4, 0, None)), 0, 3).is_none());
}

#[test]
fn the_state_is_for_those_who_may_see_it() {
    let l = limits(true, Some(3));
    let denied = || Err(HttpError::new(403, "no"));
    let ask = |req: &HttpRequest, problem, access| get_limit_status(req, problem, access, l, 1);
    let mut nobody = request(None);
    nobody.auth = None;
    assert_eq!(
        ask(&nobody, Ok(5), Ok(())),
        Err(HttpError::new(401, "Authentication required"))
    );
    let unread = Err(HttpError::new(400, "problem"));
    assert_eq!(
        ask(&request(None), unread, Ok(())),
        Err(HttpError::new(400, "problem"))
    );
    assert_eq!(
        ask(&request(Some("7")), Ok(5), denied()),
        Err(HttpError::new(403, "no"))
    );
    assert_eq!(
        ask(&request(None), Ok(5), denied()).unwrap().remaining,
        Some(2)
    );
}

#[test]
fn racing_claims_share_what_is_left() {
    // Two of five slots are left.
    let mut state = Some(row(2, 1, Some(95)));
    let mut won = 0;
    for _ in 0..6 {
        match claim_row(state, 100, 5) {
            Some(after) => {
                won += 1;
                state = Some(after);
            }
            None => assert_eq!(state, Some(row(2, 3, Some(95)))),
        }
    }
    assert_eq!(won, 2);
    assert_eq!(state, Some(row(2, 3, Some(95))));
}
