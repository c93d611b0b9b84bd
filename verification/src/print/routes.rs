//! The routes of the print service: what a request makes it ask of the
//! database, and what it answers.

use vstd::prelude::*;

use crate::http::{HttpError, HttpRequest};
use crate::print::auth::authenticate_station;
use crate::print::config::PrintConfig;
use crate::print::handlers::{
    admin_filters, arbitrary_job, authorize_submission, check_document, check_pages, check_report,
    is_staff, plan_submission, read_print_submission, station_limit, PrintPlan, PrintSubmission,
    SubmissionRow,
};
use crate::print::jobs::{
    approve_job, cancel_job, claim_job, count_admin_jobs, fetch_job_source, list_admin_jobs,
    list_my_jobs, list_station_jobs, pin_job, reprint_job, set_status, JobFilters, NewJob,
    ProblemLabelRow,
};
use crate::print::models::{ArbitraryJobRequest, ClaimRequest, HeartbeatRequest, StatusRequest};
use crate::print::stations;
use crate::sql::{Draft, Query};
use crate::text::concat;
use crate::http;
use crate::print::auth;
use crate::print::handlers;
use crate::print::jobs;
use crate::print::status;
use crate::sql;
use crate::text;

verus! {

/// The body of a request, as it was read.
#[derive(Debug, Clone, PartialEq, Eq)]
pub enum Body<T> {
    Missing,
    Unreadable { why: String },
    Given(T),
}

/// What is answered where there is no body of the right form.
pub open spec fn body_refusal<T>(body: Body<T>, e: HttpError) -> bool {
    match body {
        Body::Missing => http::error_is(e, 400, "Missing request body"@),
        Body::Unreadable { why } => http::error_is(e, 400, "Invalid request body: "@ + why@),
        Body::Given(_) => false,
    }
}

pub fn parse_body<T>(body: Body<T>) -> (r: Result<T, HttpError>)
    ensures
        match body {
            Body::Given(t) => r == Ok::<T, HttpError>(t),
            _ => r matches Err(e) && body_refusal(body, e),
        },
{
    match body {
        Body::Missing => Err(HttpError::new(400, "Missing request body")),
        Body::Unreadable { why } => Err(
            HttpError::new(400, concat("Invalid request body: ", why.as_str()).as_str()),
        ),
        Body::Given(t) => Ok(t),
    }
}

// ---------------------------------------------------------------------------
// Contestants
// ---------------------------------------------------------------------------

/// The answer to a request to print a submission.
pub open spec fn submission_answer(
    req: HttpRequest,
    access: Result<(), HttpError>,
    config: PrintConfig,
    sub: Option<SubmissionRow>,
    label: Option<ProblemLabelRow>,
    r: Result<PrintPlan, HttpError>,
) -> bool {
    let contest = http::int_at(req.params@, "contest_id"@, i32::MIN as int, i32::MAX as int);
    let submission = http::int_at(req.params@, "submission_id"@, i32::MIN as int, i32::MAX as int);
    if contest is None {
        r matches Err(e) && http::error_is(e, 400, "Invalid "@ + "contest_id"@)
    } else if submission is None {
        r matches Err(e) && http::error_is(e, 400, "Invalid "@ + "submission_id"@)
    } else {
        match req.auth {
            None => r matches Err(e) && http::error_is(e, 401, "Authentication required"@),
            Some(a) => {
                let who = PrintSubmission {
                    contest_id: contest->0 as i32,
                    submission_id: submission->0 as i32,
                    user_id: a.user_id,
                };
                match access {
                    Err(e) => r == Err::<PrintPlan, HttpError>(e),
                    Ok(_) => match r {
                        Ok(_) => {
                            &&& handlers::authorizes(who, handlers::staff(req), config, sub, Ok(()))
                            &&& handlers::plans(who, config, sub->0, label, r)
                        },
                        Err(e) => {
                            ||| handlers::authorizes(
                                who,
                                handlers::staff(req),
                                config,
                                sub,
                                Err(e),
                            )
                            ||| handlers::authorizes(
                                who,
                                handlers::staff(req),
                                config,
                                sub,
                                Ok(()),
                            ) && handlers::plans(who, config, sub->0, label, r)
                        },
                    },
                }
            },
        }
    }
}

/// Prints a submission. `access` says whether the sender may enter the contest;
/// `config` holds the contest's settings, `sub` and `label` what is stored of
/// the submission and its problem.
pub fn handle_print_submission(
    req: &HttpRequest,
    access: Result<(), HttpError>,
    config: &PrintConfig,
    sub: &Option<SubmissionRow>,
    label: &Option<ProblemLabelRow>,
) -> (r: Result<PrintPlan, HttpError>)
    ensures
        submission_answer(*req, access, *config, *sub, *label, r),
{
    let who = match read_print_submission(req) {
        Ok(who) => who,
        Err(e) => {
            return Err(e);
        },
    };
    match access {
        Ok(_) => {},
        Err(e) => {
            return Err(e);
        },
    }
    match authorize_submission(who, is_staff(req), config, sub) {
        Ok(_) => {},
        Err(e) => {
            return Err(e);
        },
    }
    match sub {
        Some(s) => plan_submission(who, config, s, label),
        None => Err(HttpError::new(404, "Submission not found")),
    }
}

/// Whoever is not staff prints their own submissions only.
pub proof fn contestants_print_their_own(
    req: HttpRequest,
    access: Result<(), HttpError>,
    config: PrintConfig,
    sub: Option<SubmissionRow>,
    label: Option<ProblemLabelRow>,
    plan: PrintPlan,
)
    requires
        submission_answer(req, access, config, sub, label, Ok(plan)),
        !handlers::staff(req),
    ensures
        config.enabled,
        access is Ok,
        req.auth is Some && sub is Some && sub->0.user_id == req.auth->0.user_id,
        forall|i: int|
            0 <= i < plan.jobs@.len() ==> (#[trigger] plan.jobs@[i]).user_id
                == req.auth->0.user_id,
{
}

/// The problem that labels a printed document: one of the contest.
pub open spec fn document_label(
    body: ArbitraryJobRequest,
    label: Option<ProblemLabelRow>,
) -> Option<ProblemLabelRow> {
    if body.contest_id is Some && body.problem_id is Some {
        label
    } else {
        None
    }
}

/// The answer to a request to print a document.
pub open spec fn document_answer(
    req: HttpRequest,
    body: Body<ArbitraryJobRequest>,
    access: Result<(), HttpError>,
    config: PrintConfig,
    label: Option<ProblemLabelRow>,
    r: Result<NewJob, HttpError>,
) -> bool {
    match req.auth {
        None => r matches Err(e) && http::error_is(e, 401, "Authentication required"@),
        Some(a) => match body {
            Body::Given(b) => if !handlers::takes_document(b.source@, Ok(())) {
                r matches Err(e) && handlers::takes_document(b.source@, Err(e))
            } else if b.contest_id is Some && access is Err {
                r == Err::<NewJob, HttpError>(access->Err_0)
            } else if !handlers::counts_pages(
                config,
                b.source@,
                Ok(handlers::pages_of(b.source@)),
            ) {
                r matches Err(e) && handlers::counts_pages(config, b.source@, Err(e))
            } else {
                r matches Ok(job) && handlers::document_job(
                    job,
                    config,
                    a.user_id,
                    a.username@,
                    b,
                    document_label(b, label),
                    handlers::pages_of(b.source@),
                )
            },
            _ => r matches Err(e) && body_refusal(body, e),
        },
    }
}

/// Prints a document. Where it belongs to a contest, `access` says whether the
/// sender may enter that contest and `config` holds its settings; elsewhere
/// `config` holds those of the site.
pub fn handle_print_arbitrary(
    req: &HttpRequest,
    body: Body<ArbitraryJobRequest>,
    access: Result<(), HttpError>,
    config: &PrintConfig,
    label: &Option<ProblemLabelRow>,
) -> (r: Result<NewJob, HttpError>)
    ensures
        document_answer(*req, body, access, *config, *label, r),
{
    let user_id: i32 = match req.require_login() {
        Ok(v) => v,
        Err(e) => {
            return Err(e);
        },
    };
    let body = match parse_body(body) {
        Ok(b) => b,
        Err(e) => {
            return Err(e);
        },
    };
    match check_document(body.source.as_str()) {
        Ok(_) => {},
        Err(e) => {
            return Err(e);
        },
    }
    if body.contest_id.is_some() {
        match access {
            Ok(_) => {},
            Err(e) => {
                return Err(e);
            },
        }
    }
    let pages: i32 = match check_pages(config, body.source.as_str()) {
        Ok(n) => n,
        Err(e) => {
            return Err(e);
        },
    };
    let username = req.caller_username();
    if body.contest_id.is_some() && body.problem_id.is_some() {
        Ok(arbitrary_job(config, user_id, username.as_str(), &body, label, pages))
    } else {
        Ok(arbitrary_job(config, user_id, username.as_str(), &body, &None, pages))
    }
}

/// The contest that a list is narrowed to.
pub open spec fn queried_contest(req: HttpRequest) -> Option<i32> {
    match http::int_at(req.query@, "contest_id"@, i32::MIN as int, i32::MAX as int) {
        Some(v) => Some(v as i32),
        None => None,
    }
}

/// The query for the sender's own jobs.
pub fn handle_my_jobs(req: &HttpRequest) -> (r: Result<Query, HttpError>)
    ensures
        match req.auth {
            Some(a) => r matches Ok(q) && sql::draft_of(q) == jobs::my_jobs_draft(
                a.user_id,
                queried_contest(*req),
            ),
            None => r matches Err(e) && http::error_is(e, 401, "Authentication required"@),
        },
{
    match req.require_login() {
        Ok(user_id) => Ok(list_my_jobs(user_id, req.query_i32("contest_id"))),
        Err(e) => Err(e),
    }
}

// ---------------------------------------------------------------------------
// Staff
// ---------------------------------------------------------------------------

/// A page of jobs: its filters, and the queries for the number of jobs and for
/// the page.
#[derive(Debug)]
pub struct JobPage {
    pub filters: JobFilters,
    pub count: Query,
    pub rows: Query,
}

/// The page of jobs that the staff asks for.
pub fn handle_admin_list_jobs(req: &HttpRequest) -> (r: JobPage)
    requires
        (handlers::page_of(*req) - 1) * handlers::per_page_of(*req) <= i64::MAX,
    ensures
        handlers::filters_are(*req, r.filters),
        sql::draft_of(r.count) == jobs::admin_count_draft(r.filters),
        sql::draft_of(r.rows) == jobs::admin_page_draft(r.filters),
{
    let filters = admin_filters(req);
    let count = count_admin_jobs(&filters);
    let rows = list_admin_jobs(&filters);
    JobPage { filters, count, rows }
}

/// The job that a request is about.
pub open spec fn job_of(req: HttpRequest) -> Option<int> {
    http::int_at(req.params@, "id"@, i64::MIN as int, i64::MAX as int)
}

/// A statement about the job of a request; a request that names none is
/// refused.
pub open spec fn about_job(
    req: HttpRequest,
    draft: spec_fn(i64) -> Draft,
    r: Result<Query, HttpError>,
) -> bool {
    match job_of(req) {
        Some(id) => r matches Ok(q) && sql::draft_of(q) == draft(id as i64),
        None => r matches Err(e) && http::error_is(e, 400, "Invalid "@ + "id"@),
    }
}

pub fn handle_admin_approve(req: &HttpRequest) -> (r: Result<Query, HttpError>)
    ensures
        about_job(*req, |id: i64| jobs::approve_draft(id), r),
{
    match req.path_i64("id") {
        Ok(id) => Ok(approve_job(id)),
        Err(e) => Err(e),
    }
}

pub fn handle_admin_reprint(req: &HttpRequest) -> (r: Result<Query, HttpError>)
    ensures
        about_job(*req, |id: i64| jobs::reprint_draft(id), r),
{
    match req.path_i64("id") {
        Ok(id) => Ok(reprint_job(id)),
        Err(e) => Err(e),
    }
}

pub fn handle_admin_cancel(req: &HttpRequest) -> (r: Result<Query, HttpError>)
    ensures
        about_job(*req, |id: i64| jobs::cancel_draft(id), r),
{
    match req.path_i64("id") {
        Ok(id) => Ok(cancel_job(id)),
        Err(e) => Err(e),
    }
}

/// Sends a job to the printer that the body names, or to any.
pub fn handle_admin_pin(req: &HttpRequest, body: Body<Option<String>>) -> (r: Result<
    Query,
    HttpError,
>)
    ensures
        match job_of(*req) {
            Some(id) => match body {
                Body::Given(printer) => r matches Ok(q) && sql::draft_of(q) == jobs::pin_draft(
                    id as i64,
                    printer,
                ),
                _ => r matches Err(e) && body_refusal(body, e),
            },
            None => r matches Err(e) && http::error_is(e, 400, "Invalid "@ + "id"@),
        },
{
    let id: i64 = match req.path_i64("id") {
        Ok(v) => v,
        Err(e) => {
            return Err(e);
        },
    };
    match parse_body(body) {
        Ok(printer) => Ok(pin_job(id, &printer)),
        Err(e) => Err(e),
    }
}

pub fn handle_admin_get_job(req: &HttpRequest) -> (r: Result<Query, HttpError>)
    ensures
        about_job(*req, |id: i64| jobs::job_source_draft(id), r),
{
    match req.path_i64("id") {
        Ok(id) => Ok(fetch_job_source(id)),
        Err(e) => Err(e),
    }
}

/// The job that was found; one that was not is refused.
pub fn found_job<T>(row: Option<T>) -> (r: Result<T, HttpError>)
    ensures
        match row {
            Some(t) => r == Ok::<T, HttpError>(t),
            None => r matches Err(e) && http::error_is(e, 404, "Job not found"@),
        },
{
    match row {
        Some(t) => Ok(t),
        None => Err(HttpError::new(404, "Job not found")),
    }
}

pub fn handle_admin_stations() -> (r: Query)
    ensures
        sql::draft_of(r) == stations::stations_draft(),
{
    stations::list_stations()
}

// ---------------------------------------------------------------------------
// Stations
// ---------------------------------------------------------------------------

/// A station is admitted, with this view of the jobs, or refused.
pub open spec fn station_admitted(
    req: HttpRequest,
    global: PrintConfig,
    contest: PrintConfig,
    r: Result<auth::StationAuth, HttpError>,
) -> bool {
    auth::admits(
        auth::token_of(http::text_at(req.headers@, "authorization"@)),
        text::views(global.station_tokens@),
        queried_contest(req),
        text::views(contest.station_tokens@),
        r,
    )
}

/// A station that shows no token that opens anything.
pub open spec fn station_refused(
    req: HttpRequest,
    global: PrintConfig,
    contest: PrintConfig,
) -> bool {
    match auth::token_of(http::text_at(req.headers@, "authorization"@)) {
        Some(t) => !text::views(global.station_tokens@).contains(t) && !(queried_contest(
            req,
        ) is Some && text::views(contest.station_tokens@).contains(t)),
        None => true,
    }
}

/// The jobs that an admitted station sees: those of one contest, or all.
pub open spec fn station_view(req: HttpRequest, global: PrintConfig) -> Option<i32> {
    match auth::token_of(http::text_at(req.headers@, "authorization"@)) {
        Some(t) => if text::views(global.station_tokens@).contains(t) {
            None
        } else {
            queried_contest(req)
        },
        None => None,
    }
}

/// Takes in a station's report.
pub fn handle_station_heartbeat(
    req: &HttpRequest,
    global: &PrintConfig,
    contest: &PrintConfig,
    body: Body<HeartbeatRequest>,
) -> (r: Result<Query, HttpError>)
    ensures
        if station_refused(*req, *global, *contest) {
            r matches Err(e) && station_admitted(*req, *global, *contest, Err(e))
        } else {
            match body {
                Body::Given(b) => r matches Ok(q) && sql::draft_of(q)
                    == stations::report_draft(b),
                _ => r matches Err(e) && body_refusal(body, e),
            }
        },
{
    match authenticate_station(req, global, contest) {
        Ok(_) => {},
        Err(e) => {
            return Err(e);
        },
    }
    match parse_body(body) {
        Ok(b) => Ok(stations::heartbeat(&b)),
        Err(e) => Err(e),
    }
}

/// The query for the jobs that a station may claim.
pub fn handle_station_jobs(
    req: &HttpRequest,
    global: &PrintConfig,
    contest: &PrintConfig,
) -> (r: Result<Query, HttpError>)
    ensures
        if station_refused(*req, *global, *contest) {
            r matches Err(e) && station_admitted(*req, *global, *contest, Err(e))
        } else {
            r matches Ok(q) && sql::draft_of(q) == jobs::station_jobs_draft(
                station_view(*req, *global),
                http::text_at(req.query@, "location"@),
                handlers::limit_of(*req),
            )
        },
{
    let who = match authenticate_station(req, global, contest) {
        Ok(a) => a,
        Err(e) => {
            return Err(e);
        },
    };
    let location = req.query_text("location");
    Ok(list_station_jobs(who.contest_filter, &location, station_limit(req)))
}

/// Claims a job for a station.
pub fn handle_station_claim(
    req: &HttpRequest,
    global: &PrintConfig,
    contest: &PrintConfig,
    body: Body<ClaimRequest>,
) -> (r: Result<Query, HttpError>)
    ensures
        if station_refused(*req, *global, *contest) {
            r matches Err(e) && station_admitted(*req, *global, *contest, Err(e))
        } else {
            match job_of(*req) {
                Some(id) => match body {
                    Body::Given(b) => r matches Ok(q) && sql::draft_of(q) == jobs::claim_draft(
                        id as i64,
                        b.station@,
                        b.printer,
                        station_view(*req, *global),
                    ),
                    _ => r matches Err(e) && body_refusal(body, e),
                },
                None => r matches Err(e) && http::error_is(e, 400, "Invalid "@ + "id"@),
            }
        },
{
    let who = match authenticate_station(req, global, contest) {
        Ok(a) => a,
        Err(e) => {
            return Err(e);
        },
    };
    let id: i64 = match req.path_i64("id") {
        Ok(v) => v,
        Err(e) => {
            return Err(e);
        },
    };
    match parse_body(body) {
        Ok(b) => Ok(claim_job(id, b.station.as_str(), &b.printer, who.contest_filter)),
        Err(e) => Err(e),
    }
}

/// Takes in what a station reports of a job.
pub fn handle_station_status(
    req: &HttpRequest,
    global: &PrintConfig,
    contest: &PrintConfig,
    body: Body<StatusRequest>,
) -> (r: Result<Query, HttpError>)
    ensures
        if station_refused(*req, *global, *contest) {
            r matches Err(e) && station_admitted(*req, *global, *contest, Err(e))
        } else {
            match job_of(*req) {
                Some(id) => match body {
                    Body::Given(b) => if status::settable(b.status@) {
                        r matches Ok(q) && sql::draft_of(q) == jobs::status_draft(
                            id as i64,
                            b.status@,
                            b.pages,
                            b.error,
                            station_view(*req, *global),
                        )
                    } else {
                        r matches Err(e) && http::error_is(e, 400, "Invalid status"@)
                    },
                    _ => r matches Err(e) && body_refusal(body, e),
                },
                None => r matches Err(e) && http::error_is(e, 400, "Invalid "@ + "id"@),
            }
        },
{
    let who = match authenticate_station(req, global, contest) {
        Ok(a) => a,
        Err(e) => {
            return Err(e);
        },
    };
    let id: i64 = match req.path_i64("id") {
        Ok(v) => v,
        Err(e) => {
            return Err(e);
        },
    };
    let body = match parse_body(body) {
        Ok(b) => b,
        Err(e) => {
            return Err(e);
        },
    };
    match check_report(&body) {
        Ok(_) => Ok(
            set_status(id, body.status.as_str(), body.pages, &body.error, who.contest_filter),
        ),
        Err(e) => Err(e),
    }
}

} // verus!
