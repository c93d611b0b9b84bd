//! The print service.

use broccoli_plugins::checkers::types::SourceFile;
use broccoli_plugins::http::{HttpAuth, HttpError, HttpRequest};
use broccoli_plugins::print::auth::{
    authenticate_station, constant_time_eq, extract_token, token_in, StationAuth,
};
use broccoli_plugins::print::config::PrintConfig;
use broccoli_plugins::print::handlers::{
    admin_filters, change_answer, check_document, problem_label, sanitize_filename, total_pages,
    JobChange, PrintPlan, SubmissionRow,
};
use broccoli_plugins::print::jobs::{
    approve_job, cancel_job, claim_job, count_admin_jobs, fetch_problem_label, fetch_submission,
    insert_job, insert_jobs, list_admin_jobs, pin_job, reprint_job, set_status, sort_column,
    sort_direction, JobFilters, NewJob, ProblemLabelRow,
};
use broccoli_plugins::print::models::{
    estimate_pages, estimate_pages_with, problem_letter, ArbitraryJobRequest, ClaimRequest,
    HeartbeatRequest, StatusRequest, MAX_SOURCE_CHARS,
};
use broccoli_plugins::print::routes::{
    found_job, handle_admin_approve, handle_admin_cancel, handle_admin_get_job,
    handle_admin_list_jobs, handle_admin_pin, handle_admin_reprint, handle_admin_stations,
    handle_my_jobs, handle_print_arbitrary, handle_print_submission, handle_station_claim,
    handle_station_heartbeat, handle_station_jobs, handle_station_status, Body,
};
use broccoli_plugins::print::schema::STATEMENTS;
use broccoli_plugins::print::stations::{heartbeat, list_stations};
use broccoli_plugins::print::status;
use broccoli_plugins::sql::{Query, SqlValue};
use broccoli_plugins::textmap::TextMap;

fn request() -> HttpRequest {
    HttpRequest {
        params: TextMap::new(),
        query: TextMap::new(),
        headers: TextMap::new(),
        auth: None,
    }
}

fn with_user(mut req: HttpRequest, user_id: i32) -> HttpRequest {
    req.auth = Some(HttpAuth {
        user_id,
        username: format!("user{user_id}"),
        permissions: vec![],
    });
    req
}

fn config_with(tokens: &[&str]) -> PrintConfig {
    PrintConfig {
        station_tokens: tokens.iter().map(|t| t.to_string()).collect(),
        ..PrintConfig::default()
    }
}

fn text(s: &str) -> SqlValue {
    SqlValue::Text(s.to_string())
}

// --- stations that show a token -------------------------------------------

fn req_with_auth(value: Option<&str>, contest_id: Option<&str>) -> HttpRequest {
    let mut req = request();
    if let Some(v) = value {
        req.headers.insert("authorization", v.to_string());
    }
    if let Some(c) = contest_id {
        req.query.insert("contest_id", c.to_string());
    }
    req
}

#[test]
fn extracts_print_station_token() {
    let req = req_with_auth(Some("PrintStation secret-123"), None);
    assert_eq!(extract_token(&req).as_deref(), Some("secret-123"));
}

#[test]
fn ignores_bearer_tokens() {
    let req = req_with_auth(Some("Bearer jwt.here"), None);
    assert_eq!(extract_token(&req), None);
}

#[test]
fn global_token_grants_unrestricted_access() {
    let req = req_with_auth(Some("PrintStation G"), None);
    let auth = authenticate_station(&req, &config_with(&["G"]), &config_with(&[])).unwrap();
    assert_eq!(auth.contest_filter, None);
}

#[test]
fn contest_token_is_restricted_to_that_contest() {
    let req = req_with_auth(Some("PrintStation C7"), Some("7"));
    let auth = authenticate_station(&req, &config_with(&[]), &config_with(&["C7"])).unwrap();
    assert_eq!(auth.contest_filter, Some(7));
}

#[test]
fn constant_time_eq_matches_only_identical_bytes() {
    assert!(constant_time_eq(b"secret", b"secret"));
    assert!(!constant_time_eq(b"secret", b"secreX"));
    assert!(!constant_time_eq(b"secret", b"secre")); // length mismatch
    assert!(constant_time_eq(b"", b""));
}

#[test]
fn token_in_finds_match_anywhere_in_list() {
    let allowed = vec!["a".to_string(), "b".to_string(), "c".to_string()];
    assert!(token_in("a", &allowed));
    assert!(token_in("c", &allowed));
    assert!(!token_in("d", &allowed));
    assert!(!token_in("", &allowed));
}

#[test]
fn unknown_token_is_rejected() {
    let req = req_with_auth(Some("PrintStation nope"), Some("7"));
    let err = authenticate_station(&req, &config_with(&["G"]), &config_with(&[])).unwrap_err();
    assert_eq!(err.status, 403);
}

#[test]
fn missing_token_is_unauthorized() {
    let req = req_with_auth(None, None);
    let err = authenticate_station(&req, &config_with(&[]), &config_with(&[])).unwrap_err();
    assert_eq!(err.status, 401);
}

#[test]
fn contest_tokens_need_their_contest() {
    let contest = config_with(&["C7"]);
    let req = req_with_auth(Some("PrintStation C7"), None);
    assert_eq!(
        authenticate_station(&req, &config_with(&[]), &contest),
        Err(HttpError::new(403, "Invalid print-station token"))
    );
    let req = req_with_auth(Some("PrintStation   "), Some("7"));
    assert_eq!(
        authenticate_station(&req, &config_with(&["G"]), &contest),
        Err(HttpError::new(401, "Missing print-station token"))
    );
    let req = req_with_auth(Some("PrintStation  C7 "), Some("7"));
    assert_eq!(
        authenticate_station(&req, &config_with(&[]), &contest),
        Ok(StationAuth {
            contest_filter: Some(7),
        })
    );
}

// --- settings -------------------------------------------------------------

#[test]
fn defaults_enable_printing_without_approval() {
    let cfg = PrintConfig::default();
    assert!(cfg.enabled);
    assert!(!cfg.require_approval);
    assert_eq!(cfg.max_pages, 10);
    assert!(cfg.station_tokens.is_empty());
}

// --- requests -------------------------------------------------------------

#[test]
fn sanitize_filename_strips_paths_and_defaults() {
    assert_eq!(sanitize_filename("../../etc/passwd", "x.txt"), "passwd");
    assert_eq!(sanitize_filename("a\\b\\main.cpp", "x.txt"), "main.cpp");
    assert_eq!(sanitize_filename("   ", "print.txt"), "print.txt");
    assert_eq!(sanitize_filename("ok.py", "x.txt"), "ok.py");
}

#[test]
fn printed_names_hold_nothing_odd() {
    assert_eq!(sanitize_filename("..a\tb..", "x"), "ab");
    assert_eq!(sanitize_filename("a/..", "x"), "x");
    assert_eq!(sanitize_filename(&"n".repeat(300), "x").len(), 200);
}

#[test]
fn my_jobs_requires_login() {
    let err = handle_my_jobs(&request()).unwrap_err();
    assert_eq!(err.status, 401);
}

#[test]
fn my_jobs_returns_data_for_logged_in_user() {
    let mut req = with_user(request(), 10);
    let q = handle_my_jobs(&req).unwrap();
    assert!(q.sql.contains("WHERE user_id = $1 ORDER BY created_at DESC LIMIT 200"));
    assert_eq!(q.args, vec![SqlValue::Int(10)]);
    req.query.insert("contest_id", "3".to_string());
    let q = handle_my_jobs(&req).unwrap();
    assert!(q.sql.contains("WHERE user_id = $1 AND contest_id = $2"));
    assert_eq!(q.args, vec![SqlValue::Int(10), SqlValue::Int(3)]);
}

fn document(filename: &str, language: Option<&str>, source: &str) -> ArbitraryJobRequest {
    ArbitraryJobRequest {
        contest_id: None,
        problem_id: None,
        filename: filename.into(),
        language: language.map(String::from),
        source: source.into(),
    }
}

#[test]
fn arbitrary_print_rejects_empty_source() {
    let req = with_user(request(), 10);
    let body = Body::Given(document("a.txt", None, "   "));
    let err = handle_print_arbitrary(&req, body, Ok(()), &PrintConfig::default(), &None)
        .unwrap_err();
    assert_eq!(err.status, 400);
}

#[test]
fn arbitrary_print_inserts_job() {
    let req = with_user(request(), 10);
    let body = Body::Given(document("scratch.py", Some("python3"), "print(1)\n"));
    let job = handle_print_arbitrary(&req, body, Ok(()), &PrintConfig::default(), &None).unwrap();
    assert!(insert_job(&job).sql.contains("INSERT INTO print_job"));
    assert_eq!(job.user_id, 10);
    assert_eq!(job.username, "user10");
    assert_eq!(job.display_name.as_deref(), Some("user10"));
    assert_eq!(job.language, "python3");
    assert_eq!(job.filename, "scratch.py");
    assert_eq!(job.pages_est, 1);
    assert_eq!(job.status, status::PENDING);
    assert_eq!(job.submission_id, None);
}

#[test]
fn documents_are_checked_in_order() {
    let config = PrintConfig::default();
    let print = |req: &HttpRequest, body, access, config: &PrintConfig| {
        handle_print_arbitrary(req, body, access, config, &None)
    };
    let fine = || Body::Given(document("a", None, "x"));
    assert_eq!(
        print(&request(), fine(), Ok(()), &config),
        Err(HttpError::new(401, "Authentication required"))
    );
    let req = with_user(request(), 10);
    assert_eq!(
        print(&req, Body::Missing, Ok(()), &config),
        Err(HttpError::new(400, "Missing request body"))
    );
    let why = "missing field `source`".to_string();
    assert_eq!(
        print(&req, Body::Unreadable { why }, Ok(()), &config),
        Err(HttpError::new(
            400,
            "Invalid request body: missing field `source`"
        ))
    );
    assert_eq!(
        check_document(&"x".repeat(MAX_SOURCE_CHARS + 1)),
        Err(HttpError::new(413, "Document is too large to print"))
    );
    assert_eq!(check_document(&"x".repeat(MAX_SOURCE_CHARS)), Ok(()));
    // Access counts in a contest only.
    let refused = || Err(HttpError::new(403, "not yours"));
    assert!(print(&req, fine(), refused(), &config).is_ok());
    let mut inside = document("a", None, "x");
    inside.contest_id = Some(3);
    assert_eq!(
        print(&req, Body::Given(inside), refused(), &config),
        Err(HttpError::new(403, "not yours"))
    );
    let off = PrintConfig {
        enabled: false,
        ..PrintConfig::default()
    };
    assert_eq!(
        print(&req, fine(), Ok(()), &off),
        Err(HttpError::new(403, "Printing is disabled for this contest"))
    );
    let long = Body::Given(document("a", None, &"x\n".repeat(54 * 10 + 1)));
    assert_eq!(
        print(&req, long, Ok(()), &config),
        Err(HttpError::new(
            413,
            "Too long to print (11 pages, limit 10)"
        ))
    );
}

#[test]
fn documents_of_a_problem_are_labelled() {
    let req = with_user(request(), 10);
    let label = Some(ProblemLabelRow {
        label: " ".into(),
        position: 2,
    });
    let approve = PrintConfig {
        require_approval: true,
        ..PrintConfig::default()
    };
    let mut body = document("../x", Some("  "), "x");
    body.problem_id = Some(5);
    let job =
        handle_print_arbitrary(&req, Body::Given(body.clone()), Ok(()), &approve, &label).unwrap();
    assert_eq!(job.problem_label, None);
    body.contest_id = Some(3);
    let job = handle_print_arbitrary(&req, Body::Given(body), Ok(()), &approve, &label).unwrap();
    assert_eq!(job.problem_label.as_deref(), Some("C"));
    assert_eq!(job.contest_id, Some(3));
    assert_eq!(job.language, "text");
    assert_eq!(job.filename, "x");
    assert_eq!(job.status, status::PENDING_APPROVAL);
}

fn submission_request(user_id: i32) -> HttpRequest {
    let mut req = with_user(request(), user_id);
    req.params.insert("contest_id", "1".to_string());
    req.params.insert("submission_id", "42".to_string());
    req
}

fn submission(files: &[(&str, &str)]) -> Option<SubmissionRow> {
    Some(SubmissionRow {
        files: files
            .iter()
            .map(|(name, content)| SourceFile {
                filename: name.to_string(),
                content: content.to_string(),
            })
            .collect(),
        language: "cpp".into(),
        user_id: 10,
        username: "alice".into(),
        contest_id: Some(1),
        problem_id: 5,
    })
}

fn print(
    req: &HttpRequest,
    config: &PrintConfig,
    sub: &Option<SubmissionRow>,
) -> Result<PrintPlan, HttpError> {
    let label = Some(ProblemLabelRow {
        label: "P1".into(),
        position: 0,
    });
    handle_print_submission(req, Ok(()), config, sub, &label)
}

#[test]
fn submissions_are_printed_whole() {
    let sub = submission(&[("a.cpp", "int a;"), ("dir/b.h", "int b;")]);
    let plan = print(&submission_request(10), &PrintConfig::default(), &sub).unwrap();
    assert_eq!(plan.pages, 2);
    assert_eq!(plan.status, status::PENDING);
    let printed: Vec<&str> = plan.jobs.iter().map(|j| j.source.as_str()).collect();
    assert_eq!(printed, vec!["int a;", "int b;"]);
    assert_eq!(plan.jobs[1].filename, "b.h");
    assert_eq!(plan.jobs[1].contest_id, Some(1));
    assert_eq!(plan.jobs[1].submission_id, Some(42));
    assert_eq!(plan.jobs[1].user_id, 10);
    assert_eq!(plan.jobs[1].username, "alice");
    assert_eq!(plan.jobs[1].problem_label.as_deref(), Some("P1"));
    assert_eq!(plan.jobs[1].language, "cpp");
    assert_eq!(plan.jobs[1].pages_est, 1);
}

#[test]
fn submissions_are_refused_in_order() {
    let config = PrintConfig::default();
    let sub = submission(&[("a.cpp", "int a;")]);
    assert_eq!(
        print(&with_user(request(), 10), &config, &sub),
        Err(HttpError::new(400, "Invalid contest_id"))
    );
    let mut req = with_user(request(), 10);
    req.params.insert("contest_id", "1".to_string());
    req.params.insert("submission_id", "x".to_string());
    assert_eq!(
        print(&req, &config, &sub),
        Err(HttpError::new(400, "Invalid submission_id"))
    );
    let mut nobody = submission_request(10);
    nobody.auth = None;
    assert_eq!(
        print(&nobody, &config, &sub),
        Err(HttpError::new(401, "Authentication required"))
    );
    let req = submission_request(10);
    let denied = Err(HttpError::new(404, "Contest not found"));
    assert_eq!(
        handle_print_submission(&req, denied, &config, &sub, &None),
        Err(HttpError::new(404, "Contest not found"))
    );
    let off = PrintConfig {
        enabled: false,
        ..PrintConfig::default()
    };
    assert_eq!(
        print(&req, &off, &None),
        Err(HttpError::new(403, "Printing is disabled for this contest"))
    );
    assert_eq!(
        print(&req, &config, &None),
        Err(HttpError::new(404, "Submission not found"))
    );
    let mut elsewhere = sub.clone();
    elsewhere.as_mut().unwrap().contest_id = Some(2);
    assert_eq!(
        print(&req, &config, &elsewhere),
        Err(HttpError::new(404, "Submission not found"))
    );
    assert_eq!(
        print(&req, &config, &submission(&[])),
        Err(HttpError::new(400, "Submission has no files to print"))
    );
    let long = submission(&[("ok", "x"), ("long", &"x\n".repeat(541)), ("y", "y")]);
    assert_eq!(
        print(&req, &config, &long),
        Err(HttpError::new(413, "long is too long (11 pages, limit 10)"))
    );
    let large = submission(&[("big", &"x".repeat(MAX_SOURCE_CHARS + 1))]);
    assert_eq!(
        print(&req, &config, &large),
        Err(HttpError::new(413, "big is too large to print"))
    );
}

#[test]
fn contestants_print_only_their_own() {
    let config = PrintConfig::default();
    let sub = submission(&[("a.cpp", "int a;")]);
    let mut req = submission_request(11);
    assert_eq!(
        print(&req, &config, &sub),
        Err(HttpError::new(
            403,
            "You can only print your own submissions"
        ))
    );
    for permission in ["contest:manage", "submission:view_all"] {
        req.auth.as_mut().unwrap().permissions = vec![permission.to_string()];
        assert_eq!(print(&req, &config, &sub).unwrap().jobs[0].user_id, 10);
    }
}

#[test]
fn station_endpoints_require_token() {
    let none = config_with(&[]);
    let err = handle_station_jobs(&request(), &none, &none).unwrap_err();
    assert_eq!(err.status, 401);
}

fn station_request() -> HttpRequest {
    let mut req = req_with_auth(Some("PrintStation G"), None);
    req.params.insert("id", "5".to_string());
    req
}

fn report(status: &str) -> Body<StatusRequest> {
    Body::Given(StatusRequest {
        status: status.into(),
        pages: None,
        error: None,
    })
}

#[test]
fn station_status_rejects_invalid_status() {
    let err = handle_station_status(
        &station_request(),
        &config_with(&["G"]),
        &config_with(&[]),
        report("pending"),
    )
    .unwrap_err();
    assert_eq!(err.status, 400);
}

#[test]
fn station_claim_conflict_when_not_updated() {
    let claim = Body::Given(ClaimRequest {
        station: "s1".into(),
        printer: Some("main".into()),
    });
    let query = handle_station_claim(
        &station_request(),
        &config_with(&["G"]),
        &config_with(&[]),
        claim,
    )
    .unwrap();
    assert!(query.sql.contains("status = 'claimed'"));
    // The claim updates nothing.
    let err = change_answer(JobChange::Claim, 0).unwrap_err();
    assert_eq!(err.status, 409);
}

#[test]
fn stations_work_on_the_jobs_they_see() {
    let (site, contest) = (config_with(&["G"]), config_with(&["C7"]));
    let mut req = req_with_auth(Some("PrintStation C7"), Some("7"));
    req.query.insert("limit", "500".to_string());
    req.query.insert("location", "Room A".to_string());
    let q = handle_station_jobs(&req, &site, &contest).unwrap();
    assert!(q.sql.ends_with(
        "WHERE status = $1 AND contest_id = $2 AND (location IS NULL OR location = $3) ORDER BY created_at ASC LIMIT $4"
    ));
    assert_eq!(
        q.args,
        vec![
            text("pending"),
            SqlValue::Int(7),
            text("Room A"),
            SqlValue::Int(100)
        ]
    );
    let q = handle_station_jobs(&station_request(), &site, &contest).unwrap();
    assert_eq!(q.args, vec![text("pending"), SqlValue::Int(20)]);

    assert_eq!(
        handle_station_status(&req, &site, &contest, report("done")).unwrap_err(),
        HttpError::new(400, "Invalid id")
    );
    req.params.insert("id", "5".to_string());
    let q = handle_station_status(&req, &site, &contest, report("done")).unwrap();
    assert!(q.sql.ends_with("WHERE id = $2 AND contest_id = $3"));
    assert_eq!(
        handle_station_status(&req, &site, &contest, Body::Missing).unwrap_err(),
        HttpError::new(400, "Missing request body")
    );
    let beat = || {
        Body::Given(HeartbeatRequest {
            station: "s".into(),
            printers: vec![],
            location: None,
            version: None,
            queue_seen: None,
        })
    };
    assert!(handle_station_heartbeat(&req, &site, &contest, beat()).is_ok());
    assert_eq!(
        handle_station_heartbeat(&request(), &site, &contest, beat())
            .unwrap_err()
            .status,
        401
    );
}

#[test]
fn changes_that_reach_no_job_are_refused() {
    let refusals = [
        (JobChange::Approve, 409, "Job is not awaiting approval"),
        (JobChange::Reprint, 404, "Job not found"),
        (JobChange::Cancel, 409, "Job cannot be canceled"),
        (JobChange::Pin, 404, "Job not found"),
        (
            JobChange::Claim,
            409,
            "Job already claimed or not available",
        ),
        (JobChange::Report, 404, "Job not found"),
    ];
    for (change, code, message) in refusals {
        assert_eq!(change_answer(change, 1), Ok(()));
        assert_eq!(change_answer(change, 0), Err(HttpError::new(code, message)));
    }
    assert_eq!(found_job(Some(3)), Ok(3));
    assert_eq!(
        found_job::<i32>(None),
        Err(HttpError::new(404, "Job not found"))
    );
}

#[test]
fn staff_requests_name_a_job() {
    let named = station_request();
    let unnamed = request();
    let routes: [fn(&HttpRequest) -> Result<Query, HttpError>; 4] = [
        handle_admin_approve,
        handle_admin_reprint,
        handle_admin_cancel,
        handle_admin_get_job,
    ];
    for route in routes {
        assert_eq!(route(&named).unwrap().args, vec![SqlValue::Int(5)]);
        assert_eq!(
            route(&unnamed).unwrap_err(),
            HttpError::new(400, "Invalid id")
        );
    }
    let q = handle_admin_pin(&named, Body::Given(Some("main".into()))).unwrap();
    assert_eq!(q.args, vec![text("main"), SqlValue::Int(5)]);
    assert_eq!(
        handle_admin_pin(&named, Body::Missing).unwrap_err(),
        HttpError::new(400, "Missing request body")
    );
    assert!(handle_admin_stations().sql.contains("FROM print_station"));
}

// --- jobs -----------------------------------------------------------------

fn new_job() -> NewJob {
    NewJob {
        contest_id: Some(1),
        user_id: 10,
        username: "alice".into(),
        display_name: None,
        problem_label: Some("A".into()),
        submission_id: Some(42),
        language: "cpp".into(),
        filename: "main.cpp".into(),
        source: "int main(){}".into(),
        pages_est: 1,
        status: status::PENDING.into(),
    }
}

#[test]
fn insert_uses_print_job_table() {
    let exec = insert_job(&new_job());
    assert!(exec.sql.contains("INSERT INTO print_job"));
    assert!(exec.sql.contains("$1"));
    assert!(exec.sql.contains("NULL"));
    assert_eq!(exec.args.len(), 10);
}

#[test]
fn insert_jobs_empty_is_noop() {
    assert_eq!(insert_jobs(&vec![]).len(), 0);
}

#[test]
fn insert_jobs_runs_in_a_transaction() {
    let statements = insert_jobs(&vec![new_job(), new_job()]);
    assert_eq!(statements.len(), 2);
}

#[test]
fn claim_returns_true_when_one_row_updated() {
    assert!(change_answer(JobChange::Claim, 1).is_ok());
    let sql = claim_job(7, "st-1", &Some("main".into()), None).sql;
    assert!(sql.contains("status = 'claimed'"));
    assert!(sql.contains("status = 'pending'"));
}

#[test]
fn claim_returns_false_when_already_taken() {
    claim_job(7, "st-1", &None, None);
    assert!(change_answer(JobChange::Claim, 0).is_err());
}

#[test]
fn claim_with_contest_filter_scopes_update() {
    let sql = claim_job(7, "st-1", &None, Some(3)).sql;
    assert!(sql.contains("contest_id ="));
}

#[test]
fn done_status_sets_printed_at() {
    let sql = set_status(7, status::DONE, Some(2), &None, None).sql;
    assert!(sql.contains("printed_at = NOW()"));
    assert!(sql.contains("pages ="));
}

#[test]
fn printing_status_does_not_set_printed_at() {
    let sql = set_status(7, status::PRINTING, None, &None, None).sql;
    assert!(!sql.contains("printed_at"));
}

fn filters() -> JobFilters {
    JobFilters {
        status: Some("pending".into()),
        contest_id: Some(1),
        station: None,
        printer: None,
        search: Some("a".into()),
        page: 1,
        per_page: 20,
        sort_by: "created_at".into(),
        sort_order: "desc".into(),
    }
}

#[test]
fn admin_list_runs_count_then_page() {
    let count = count_admin_jobs(&filters());
    let page = list_admin_jobs(&filters());
    assert!(count.sql.contains("COUNT(*)"));
    assert!(page.sql.contains("ILIKE"));
    assert!(page.sql.contains("LIMIT"));
}

#[test]
fn approve_targets_pending_approval() {
    assert!(change_answer(JobChange::Approve, 1).is_ok());
    let sql = approve_job(5).sql;
    assert!(sql.contains("status = 'pending'"));
    assert!(sql.contains("status = 'pending_approval'"));
}

#[test]
fn reprint_clears_claim_fields() {
    let sql = reprint_job(5).sql;
    assert!(sql.contains("claimed_by = NULL"));
    assert!(sql.contains("error = NULL"));
}

#[test]
fn pages_are_counted_under_the_same_conditions() {
    let count = count_admin_jobs(&filters());
    let page = list_admin_jobs(&filters());
    let conditions = count.sql.split_once("print_job ").unwrap().1;
    assert!(conditions.starts_with("WHERE "));
    assert!(page.sql.contains(conditions));
    assert_eq!(page.args[..count.args.len()], count.args[..]);
    assert_eq!(
        page.args[count.args.len()..],
        [SqlValue::Int(20), SqlValue::Int(0)]
    );
}

#[test]
fn staff_filters_come_from_the_query() {
    let mut req = request();
    let f = admin_filters(&req);
    assert_eq!((f.page, f.per_page), (1, 25));
    assert_eq!(f.sort_by, "created_at");
    assert_eq!(f.sort_order, "desc");
    req.query.insert("page", "0".to_string());
    req.query.insert("per_page", "999".to_string());
    req.query.insert("q", "bob".to_string());
    let f = admin_filters(&req);
    assert_eq!((f.page, f.per_page), (1, 200));
    assert_eq!(f.search.as_deref(), Some("bob"));
    req.query.insert("search", "alice".to_string());
    req.query.insert("page", "3".to_string());
    let page = handle_admin_list_jobs(&req);
    assert_eq!(page.filters.search.as_deref(), Some("alice"));
    assert_eq!(page.rows.args.last(), Some(&SqlValue::Int(400)));
    assert_eq!(total_pages(0, 25), 1);
    assert_eq!(total_pages(25, 25), 1);
    assert_eq!(total_pages(26, 25), 2);
}

#[test]
fn lists_are_sorted_by_known_columns_only() {
    assert_eq!(sort_column("username"), "username");
    assert_eq!(sort_column("id; DROP TABLE print_job"), "created_at");
    assert_eq!(sort_direction("ASC"), "ASC");
    assert_eq!(sort_direction("sideways"), "DESC");
}

#[test]
fn rows_are_looked_up_by_id() {
    assert_eq!(fetch_submission(42).args, vec![SqlValue::Int(42)]);
    assert_eq!(
        fetch_problem_label(1, 5).args,
        vec![SqlValue::Int(1), SqlValue::Int(5)]
    );
    assert!(cancel_job(5).sql.ends_with("AND status <> 'done'"));
    let anywhere = pin_job(5, &Some(String::new()));
    assert!(anywhere.sql.contains("target_printer = NULL"));
    assert_eq!(anywhere.args, vec![SqlValue::Int(5)]);
    assert!(STATEMENTS[0].contains("CREATE TABLE IF NOT EXISTS print_job"));
}

// --- pages and labels -----------------------------------------------------

#[test]
fn empty_source_is_one_page() {
    assert_eq!(estimate_pages(""), 1);
    assert_eq!(estimate_pages("\n\n\n"), 1);
}

#[test]
fn short_listing_is_one_page() {
    let src = "int main() {\n    return 0;\n}\n";
    assert_eq!(estimate_pages(src), 1);
}

#[test]
fn long_lines_wrap_into_more_visual_lines() {
    let line = "x".repeat(270);
    assert_eq!(estimate_pages_with(&line, 90, 54), 1);
    let many = vec![line.as_str(); 54].join("\n");
    assert_eq!(estimate_pages_with(&many, 90, 54), 3);
}

#[test]
fn pagination_rounds_up() {
    let src = vec!["line"; 55].join("\n");
    assert_eq!(estimate_pages_with(&src, 90, 54), 2);
}

#[test]
fn no_document_has_more_pages_than_characters() {
    assert_eq!(estimate_pages_with("ab\nc", 1, 1), 3);
    assert_eq!(estimate_pages_with("ab\nc", 0, 0), 3);
}

#[test]
fn problem_letters() {
    assert_eq!(problem_letter(0), "A");
    assert_eq!(problem_letter(25), "Z");
    assert_eq!(problem_letter(26), "AA");
    assert_eq!(problem_letter(27), "AB");
}

#[test]
fn labels_win_over_letters() {
    let row = |label: &str, position| {
        problem_label(&Some(ProblemLabelRow {
            label: label.into(),
            position,
        }))
    };
    assert_eq!(row("X1", 3).as_deref(), Some("X1"));
    assert_eq!(row("", 3).as_deref(), Some("D"));
    assert_eq!(row("", -3).as_deref(), Some("A"));
    assert_eq!(problem_label(&None), None);
}

#[test]
fn status_validation() {
    assert!(status::is_valid(status::PENDING));
    assert!(status::is_valid(status::DONE));
    assert!(!status::is_valid("bogus"));
    assert!(status::STATION_SETTABLE.contains(&status::PRINTING));
    assert!(!status::STATION_SETTABLE.contains(&status::PENDING));
}

#[test]
fn settable_states_are_valid() {
    for s in status::STATION_SETTABLE {
        assert!(status::is_settable(s) && status::is_valid(s));
    }
    assert!(!status::is_settable(status::CLAIMED));
}

// --- stations -------------------------------------------------------------

#[test]
fn heartbeat_upserts_station() {
    let req = HeartbeatRequest {
        station: "room-a".into(),
        printers: vec!["main".into(), "overflow".into()],
        location: Some("Room A".into()),
        version: Some("0.1.0".into()),
        queue_seen: Some(3),
    };
    let q = heartbeat(&req);
    assert!(q.sql.contains("INSERT INTO print_station"));
    assert!(q.sql.contains("ON CONFLICT (name) DO UPDATE"));
    assert!(q.sql.contains("::jsonb"));
}

#[test]
fn printers_are_reported_as_a_json_list() {
    let req = HeartbeatRequest {
        station: "s".into(),
        printers: vec!["a\"b".into(), "c\n".into()],
        location: None,
        version: None,
        queue_seen: None,
    };
    let q = heartbeat(&req);
    assert_eq!(q.args, vec![text("s"), text(r#"["a\"b","c\n"]"#)]);
}

#[test]
fn list_stations_computes_online() {
    let q = list_stations();
    assert!(q
        .sql
        .contains("(NOW() - last_seen) < INTERVAL '45 seconds' AS online"));
    assert!(q.args.is_empty());
}

#[test]
fn every_word_letters_one_position() {
    let mut seen = std::collections::HashSet::new();
    for n in 0..(26 + 26 * 26 + 3) {
        let word = problem_letter(n);
        assert!(word.chars().all(|c| c.is_ascii_uppercase()));
        assert!(seen.insert(word));
    }
    // All words of one and of two letters, and the first of three.
    assert!(seen.contains("ZZ") && seen.contains("QX") && seen.contains("AAC"));
    assert_eq!(problem_letter(701), "ZZ");
    assert_eq!(problem_letter(702), "AAA");
}
