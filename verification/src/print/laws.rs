//! What printing promises: who may print what, how pages are counted, what a
//! station may do, and what the lists of the staff hold.

use vstd::prelude::*;

use crate::http;
use crate::http::{HttpError, HttpRequest};
use crate::letters;
use crate::print::auth;
use crate::print::auth::StationAuth;
use crate::print::config::PrintConfig;
use crate::print::handlers;
use crate::print::handlers::{JobChange, PrintPlan, PrintSubmission, SubmissionRow};
use crate::print::jobs;
use crate::print::jobs::{JobFilters, NewJob, ProblemLabelRow};
use crate::print::models;
use crate::print::models::{ArbitraryJobRequest, ClaimRequest, HeartbeatRequest, StatusRequest};
use crate::print::routes;
use crate::print::routes::Body;
use crate::print::stations;
use crate::print::status;
use crate::sql;
use crate::sql::{Draft, Query, SqlView};
use crate::statement;
use crate::text;

verus! {

// ---------------------------------------------------------------------------
// Pages
// ---------------------------------------------------------------------------

/// As many whole parts as are needed: fewer would not do.
pub proof fn parts_are_rounded_up(n: nat, d: nat)
    requires
        d > 0,
    ensures
        n <= models::ceil_div(n, d) * d,
        models::ceil_div(n, d) > 0 ==> (models::ceil_div(n, d) - 1) * d < n,
        n == 0 ==> models::ceil_div(n, d) == 0,
{
    let r = models::ceil_div(n, d) as int;
    let m = (n + d - 1) as int;
    vstd::arithmetic::div_mod::lemma_fundamental_div_mod(m, d as int);
    vstd::arithmetic::div_mod::lemma_div_pos_is_pos(m, d as int);
    vstd::arithmetic::div_mod::lemma_mod_bound(m, d as int);
    let rem = m % (d as int);
    assert(m == (d as int) * r + rem);
    assert((d as int) * r == r * d) by (nonlinear_arith);
    assert((r - 1) * d == r * d - d) by (nonlinear_arith);
    if n == 0 {
        assert(m < d);
        vstd::arithmetic::div_mod::lemma_small_mod(m as nat, d);
        assert(r * d == 0);
        assert(r == 0) by (nonlinear_arith)
            requires
                r * d == 0,
                d > 0,
        ;
    }
}

/// The width of the last line: none at the start and after a line feed, one more
/// with every other character.
pub proof fn a_line_grows_with_its_characters(source: Seq<char>, c: char)
    ensures
        models::last_width(Seq::<char>::empty()) == 0,
        models::last_width(source.push('\n')) == 0,
        c != '\n' ==> models::last_width(source.push(c)) == models::last_width(source) + 1,
{
    assert(source.push(c).drop_last() =~= source);
    assert(source.push(c).last() == c);
    assert(source.push('\n').last() == '\n');
}

/// How a text fills rows: an empty one takes a row, a line feed starts another,
/// and so does a character that no longer fits into the row.
pub proof fn a_text_fills_its_rows(source: Seq<char>, c: char, cols: nat)
    requires
        cols > 0,
    ensures
        models::total_rows(Seq::<char>::empty(), cols) == 1,
        models::total_rows(source.push('\n'), cols) == models::total_rows(source, cols) + 1,
        c != '\n' ==> {
            let width = models::last_width(source);
            let full = width > 0 && width % cols == 0;
            models::total_rows(source.push(c), cols) == models::total_rows(source, cols) + (if full {
                1int
            } else {
                0
            })
        },
{
    let more = source.push(c);
    let fed = source.push('\n');
    assert(more.drop_last() =~= source);
    assert(more.last() == c);
    assert(fed.drop_last() =~= source);
    assert(fed.last() == '\n');
    assert(models::last_width(fed) == 0);
    if c != '\n' {
        let width = models::last_width(source);
        assert(models::last_width(more) == width + 1);
        assert(models::closed_rows(more, cols) == models::closed_rows(source, cols));
        lemma_next_part(width, cols);
    }
}

proof fn lemma_next_part(width: nat, cols: nat)
    requires
        cols > 0,
    ensures
        models::rows_of_width(width + 1, cols) == models::rows_of_width(width, cols) + (if width
            > 0 && width % cols == 0 {
            1int
        } else {
            0
        }),
{
    let a = models::ceil_div(width, cols) as int;
    let b = models::ceil_div(width + 1, cols) as int;
    let d = cols as int;
    parts_are_rounded_up(width, cols);
    parts_are_rounded_up(width + 1, cols);
    let q = width as int / d;
    let m = width as int % d;
    vstd::arithmetic::div_mod::lemma_fundamental_div_mod(width as int, d);
    vstd::arithmetic::div_mod::lemma_mod_bound(width as int, d);
    assert(width == d * q + m);
    if m == 0 {
        assert(a == q) by (nonlinear_arith)
            requires
                width == d * q,
                width <= a * d,
                a > 0 ==> (a - 1) * d < width,
                a >= 0,
                q >= 0,
                d > 0,
        ;
        assert(b == q + 1) by (nonlinear_arith)
            requires
                width == d * q,
                width + 1 <= b * d,
                b > 0 ==> (b - 1) * d < width + 1,
                b >= 0,
                q >= 0,
                d > 0,
        ;
    } else {
        assert(a == q + 1) by (nonlinear_arith)
            requires
                width == d * q + m,
                0 < m < d,
                width <= a * d,
                a > 0 ==> (a - 1) * d < width,
                a >= 0,
                q >= 0,
                d > 0,
        ;
        assert(b == q + 1) by (nonlinear_arith)
            requires
                width == d * q + m,
                0 < m < d,
                width + 1 <= b * d,
                b > 0 ==> (b - 1) * d < width + 1,
                b >= 0,
                q >= 0,
                d > 0,
        ;
    }
    if width == 0 {
        assert(q == 0) by (nonlinear_arith)
            requires
                0 == d * q + m,
                0 <= m < d,
                d > 0,
        ;
    }
}

/// A text takes as many pages as its rows fill: each has 54 rows of 90 columns.
pub proof fn rows_fill_pages(source: Seq<char>)
    requires
        source.len() < i32::MAX,
    ensures
        ({
            let pages = handlers::pages_of(source) as int;
            let rows = models::total_rows(source, 90);
            (pages - 1) * 54 < rows <= pages * 54
        }),
{
    let rows = models::total_rows(source, 90);
    models::pages_are_bounded(source, 90, 54);
    parts_are_rounded_up(rows, 54);
    assert(models::page_count(source, 90, 54) == models::ceil_div(rows, 54));
}

// ---------------------------------------------------------------------------
// Names
// ---------------------------------------------------------------------------

/// What stands behind the last separator of a path: nothing of it is lost, and no
/// separator is left.
pub proof fn a_base_name_is_the_end_of_its_path(s: Seq<char>)
    ensures
        ({
            let base = handlers::basename(s);
            let n = s.len() - base.len();
            &&& 0 <= n
            &&& s.skip(n) == base
            &&& n > 0 ==> s[n - 1] == '/' || s[n - 1] == '\\'
            &&& forall|i: int|
                0 <= i < base.len() ==> (#[trigger] base[i]) != '/' && base[i] != '\\'
        }),
    decreases s.len(),
{
    let base = handlers::basename(s);
    if s.len() > 0 {
        if handlers::is_separator(s.last()) {
            assert(s.skip(s.len() as int) =~= base);
        } else {
            let front = s.drop_last();
            a_base_name_is_the_end_of_its_path(front);
            let less = handlers::basename(front);
            assert(base == less.push(s.last()));
            let n = s.len() - base.len();
            assert(front.skip(n) == less);
            assert(s.skip(n) =~= front.skip(n).push(s.last()));
            if n > 0 {
                assert(front[n - 1] == s[n - 1]);
            }
        }
    } else {
        assert(s.skip(0) =~= base);
    }
}

proof fn lemma_all_printable(s: Seq<char>)
    requires
        forall|i: int| 0 <= i < s.len() ==> !text::is_control(#[trigger] s[i]),
    ensures
        handlers::printable(s) == s,
    decreases s.len(),
{
    if s.len() > 0 {
        let front = s.drop_last();
        assert forall|i: int| 0 <= i < front.len() implies !text::is_control(#[trigger] front[i]) by {
            assert(front[i] == s[i]);
        }
        lemma_all_printable(front);
        assert(!text::is_control(s[s.len() - 1]));
        assert(s =~= front.push(s.last()));
    } else {
        assert(handlers::printable(s) =~= s);
    }
}

/// A plain name is printed as it is: one that is short enough, with no separator
/// and no control character, that starts and ends neither with a dot nor with
/// white space.
pub proof fn plain_names_stay(s: Seq<char>, default: Seq<char>)
    requires
        0 < s.len() <= 200,
        forall|i: int|
            0 <= i < s.len() ==> (#[trigger] s[i]) != '/' && s[i] != '\\' && !text::is_control(
                s[i],
            ),
        s[0] != '.' && !text::is_white(s[0]),
        s.last() != '.' && !text::is_white(s.last()),
    ensures
        handlers::safe_name(s, default) == s,
{
    a_base_name_is_the_end_of_its_path(s);
    let base = handlers::basename(s);
    let n = s.len() - base.len();
    if n > 0 {
        assert(s[n - 1] != '/' && s[n - 1] != '\\');
    }
    assert(s.skip(0) =~= s);
    assert(base == s);
    assert(text::trim_start_spec(s) == s);
    assert(text::trim_end_spec(s) == s);
    assert(text::trim_spec(s) == s);
    lemma_all_printable(s);
}

/// A name that leaves nothing to print is replaced.
pub proof fn empty_names_are_replaced(s: Seq<char>, default: Seq<char>)
    requires
        s.len() == 0 || s.last() == '/' || s.last() == '\\',
    ensures
        handlers::safe_name(s, default) == default,
{
    let none = handlers::basename(s);
    assert(none =~= Seq::<char>::empty());
    assert(text::trim_spec(none) =~= Seq::<char>::empty());
}

/// A problem goes by its own label where it has one, else by the letter of its
/// place.
pub proof fn problems_go_by_their_label_or_letter(row: ProblemLabelRow)
    ensures
        text::trim_spec(row.label@).len() > 0 ==> handlers::label_of(row) == row.label@,
        text::trim_spec(row.label@).len() == 0 && row.position >= 0 ==> handlers::label_of(row)
            == letters::letters_of(row.position as nat),
        text::trim_spec(row.label@).len() == 0 && row.position < 0 ==> handlers::label_of(row)
            == seq!['A'],
{
}

// ---------------------------------------------------------------------------
// Who may print
// ---------------------------------------------------------------------------

/// A new job waits for approval where the contest asks for it, and else is ready
/// to be claimed.
pub proof fn new_jobs_wait_for_approval()
    ensures
        handlers::initial_status(true) == "pending_approval"@,
        handlers::initial_status(false) == "pending"@,
{
}

/// A submission may be printed exactly where printing is enabled and the
/// submission is of this contest, by who made it and by the staff.
pub proof fn a_submission_is_printed_by_its_author_or_staff(
    who: PrintSubmission,
    staff: bool,
    config: PrintConfig,
    sub: Option<SubmissionRow>,
    r: Result<(), HttpError>,
)
    requires
        handlers::authorizes(who, staff, config, sub, r),
    ensures
        r is Ok <==> {
            &&& config.enabled
            &&& sub is Some
            &&& sub->0.contest_id == Some(who.contest_id)
            &&& sub->0.user_id == who.user_id || staff
        },
        !config.enabled ==> r is Err && r->Err_0.status == 403,
        config.enabled && sub is None ==> r is Err && r->Err_0.status == 404,
        config.enabled && sub is Some && sub->0.user_id != who.user_id && !staff ==> r is Err
            && r->Err_0.status == 403,
        config.enabled && sub is Some && (sub->0.user_id == who.user_id || staff)
            && sub->0.contest_id != Some(who.contest_id) ==> r is Err && r->Err_0.status == 404,
{
}

/// The staff are those who manage contests and those who may see all
/// submissions.
pub proof fn these_are_the_staff(req: HttpRequest)
    ensures
        handlers::staff(req) <==> req.auth is Some && (text::views(
            req.auth->0.permissions@,
        ).contains("contest:manage"@) || text::views(req.auth->0.permissions@).contains(
            "submission:view_all"@,
        )),
{
}

/// A submission is printed where every file fits: at most a million characters and
/// as many pages as the contest allows. Each file becomes one job, with its own
/// name and text, in the name of who made the submission.
pub proof fn every_file_becomes_a_job(
    who: PrintSubmission,
    config: PrintConfig,
    sub: SubmissionRow,
    label: Option<ProblemLabelRow>,
    r: Result<PrintPlan, HttpError>,
    i: int,
)
    requires
        handlers::plans(who, config, sub, label, r),
        0 <= i < sub.files@.len(),
    ensures
        r is Err && r->Err_0.status != 400 ==> exists|k: int|
            0 <= k < sub.files@.len() && ((#[trigger] sub.files@[k]).content@.len() > 1_000_000
                || handlers::pages_of(sub.files@[k].content@) > config.max_pages),
        r is Ok ==> {
            let plan = r->Ok_0;
            let job = plan.jobs@[i];
            let file = sub.files@[i];
            &&& file.content@.len() <= 1_000_000
            &&& handlers::pages_of(file.content@) <= config.max_pages
            &&& plan.jobs@.len() == sub.files@.len()
            &&& job.source == file.content
            &&& job.filename@ == handlers::safe_name(file.filename@, "submission.txt"@)
            &&& job.pages_est == handlers::pages_of(file.content@)
            &&& job.user_id == sub.user_id
            &&& job.username == sub.username
            &&& job.submission_id == Some(who.submission_id)
            &&& job.contest_id == Some(who.contest_id)
            &&& job.language == sub.language
            &&& config.require_approval ==> job.status@ == "pending_approval"@ && plan.status@
                == "pending_approval"@
            &&& !config.require_approval ==> job.status@ == "pending"@ && plan.status@
                == "pending"@
        },
{
    if r is Ok {
        let plan = r->Ok_0;
        assert(handlers::file_fits(sub.files@[i], config.max_pages));
        assert(handlers::submission_job(
            plan.jobs@[i],
            who,
            sub,
            handlers::shown_label(label),
            sub.files@[i],
            config.require_approval,
        ));
    } else {
        let e = r->Err_0;
        let k = choose|k: int|
            {
                &&& 0 <= k < sub.files@.len()
                &&& !handlers::file_fits(#[trigger] sub.files@[k], config.max_pages)
                &&& handlers::file_refusal(e, sub.files@[k], config.max_pages)
                &&& forall|j: int|
                    0 <= j < k ==> handlers::file_fits(#[trigger] sub.files@[j], config.max_pages)
            };
        assert(sub.files@[k].content@.len() > 1_000_000 || handlers::pages_of(
            sub.files@[k].content@,
        ) > config.max_pages);
    }
}

/// The pages of a plan are those of its jobs together.
pub proof fn one_more_job_adds_its_pages(jobs: Seq<NewJob>, job: NewJob)
    ensures
        handlers::sum_pages(Seq::<NewJob>::empty()) == 0,
        handlers::sum_pages(jobs.push(job)) == handlers::sum_pages(jobs) + job.pages_est,
{
    assert(jobs.push(job).drop_last() =~= jobs);
    assert(jobs.push(job).last() == job);
}

/// A document is taken where it has something to print and is not too large, and
/// printed where printing is enabled and it has no more pages than the contest
/// allows.
pub proof fn a_document_is_taken_where_it_fits(
    config: PrintConfig,
    source: Seq<char>,
    taken: Result<(), HttpError>,
    pages: Result<i32, HttpError>,
)
    requires
        handlers::takes_document(source, taken),
        handlers::counts_pages(config, source, pages),
    ensures
        taken is Ok <==> text::trim_spec(source).len() > 0 && source.len() <= 1_000_000,
        taken is Err && text::trim_spec(source).len() == 0 ==> taken->Err_0.status == 400,
        taken is Err && text::trim_spec(source).len() > 0 ==> taken->Err_0.status == 413,
        pages is Ok <==> config.enabled && handlers::pages_of(source) <= config.max_pages,
        pages is Ok ==> pages->Ok_0 == handlers::pages_of(source),
        pages is Err && !config.enabled ==> pages->Err_0.status == 403,
        pages is Err && config.enabled ==> pages->Err_0.status == 413,
{
}

// ---------------------------------------------------------------------------
// Stations
// ---------------------------------------------------------------------------

/// The states of a job are these, and a station may report the last three of its
/// work.
pub proof fn these_are_the_states(s: Seq<char>)
    ensures
        status::valid(s) <==> {
            ||| s == "pending_approval"@
            ||| s == "pending"@
            ||| s == "claimed"@
            ||| s == "printing"@
            ||| s == "done"@
            ||| s == "failed"@
            ||| s == "canceled"@
        },
        status::settable(s) <==> s == "printing"@ || s == "done"@ || s == "failed"@,
{
}

/// A station shows its token behind the name of the scheme. White space round it
/// does not count, and without a token, or under another scheme, there is none.
pub proof fn a_token_stands_behind_its_scheme(token: Seq<char>, header: Option<Seq<char>>)
    ensures
        auth::token_of(None) is None,
        text::trim_spec(token).len() > 0 ==> auth::token_of(Some("PrintStation "@ + token)) == Some(
            text::trim_spec(token),
        ),
        text::trim_spec(token).len() == 0 ==> auth::token_of(Some("PrintStation "@ + token)) is None,
        header is Some && !(exists|t: Seq<char>| header->0 == "PrintStation "@ + t)
            ==> auth::token_of(header) is None,
{
    let name = "PrintStation "@;
    let value = name + token;
    assert(value.skip(name.len() as int) =~= token);
    assert(value.take(name.len() as int) =~= name);
    assert(text::has_prefix(value, name));
    if header is Some && text::has_prefix(header->0, name) {
        let h = header->0;
        assert(h =~= name + h.skip(name.len() as int));
    }
}

/// A station is let in with a token of the site, to the jobs of all contests; or
/// with one of the contest that it names, to the jobs of that contest alone.
pub proof fn stations_are_let_in_by_their_token(
    token: Option<Seq<char>>,
    site: Seq<Seq<char>>,
    named: Option<i32>,
    contest: Seq<Seq<char>>,
    r: Result<StationAuth, HttpError>,
)
    requires
        auth::admits(token, site, named, contest, r),
    ensures
        r is Ok <==> token is Some && (site.contains(token->0) || (named is Some
            && contest.contains(token->0))),
        r is Ok && site.contains(token->0) ==> r->Ok_0.contest_filter is None,
        r is Ok && !site.contains(token->0) ==> r->Ok_0.contest_filter == named,
        token is None ==> r is Err && r->Err_0.status == 401,
        r is Err && token is Some ==> r->Err_0.status == 403,
{
}

/// A change that found its job is answered with success; else approving,
/// canceling and claiming meet a job that is in the wrong state, and the others
/// none at all.
pub proof fn a_change_that_missed_is_told(change: JobChange)
    ensures
        handlers::refusal_of(change).0 == (match change {
            JobChange::Approve => 409u16,
            JobChange::Cancel => 409u16,
            JobChange::Claim => 409u16,
            JobChange::Reprint => 404u16,
            JobChange::Pin => 404u16,
            JobChange::Report => 404u16,
        }),
        handlers::refusal_of(change).1 == (match change {
            JobChange::Approve => "Job is not awaiting approval"@,
            JobChange::Cancel => "Job cannot be canceled"@,
            JobChange::Claim => "Job already claimed or not available"@,
            _ => "Job not found"@,
        }),
{
}

// ---------------------------------------------------------------------------
// Lists of the staff
// ---------------------------------------------------------------------------

/// A page is asked for by its number, the first without one, and its size is kept
/// within bounds, twenty-five without one.
pub proof fn pages_are_asked_for_by_number(req: HttpRequest)
    ensures
        handlers::page_of(req) >= 1,
        1 <= handlers::per_page_of(req) <= 200,
        ({
            let page = http::int_at(req.query@, "page"@, i64::MIN as int, i64::MAX as int);
            let size = http::int_at(req.query@, "per_page"@, i64::MIN as int, i64::MAX as int);
            &&& page is None ==> handlers::page_of(req) == 1
            &&& page is Some && page->0 >= 1 ==> handlers::page_of(req) == page->0
            &&& size is None ==> handlers::per_page_of(req) == 25
            &&& size is Some && 1 <= size->0 <= 200 ==> handlers::per_page_of(req) == size->0
            &&& size is Some && size->0 > 200 ==> handlers::per_page_of(req) == 200
        }),
{
}

/// The draft has this condition: the column is compared with this value.
pub open spec fn has_condition(e: Draft, column: Seq<char>, v: SqlView) -> bool {
    exists|at: int, k: int| #[trigger] condition_at(e, column, v, at, k)
}

pub open spec fn condition_at(e: Draft, column: Seq<char>, v: SqlView, at: int, k: int) -> bool {
    &&& 0 <= k < e.args.len()
    &&& e.args[k] == v
    &&& 0 <= at
    &&& at + (column + sql::placeholder((k + 1) as nat)).len() <= e.sql.len()
    &&& e.sql.subrange(at, at + (column + sql::placeholder((k + 1) as nat)).len()) == column
        + sql::placeholder((k + 1) as nat)
}

proof fn lemma_condition_stays(d: Draft, e: Draft, column: Seq<char>, v: SqlView)
    requires
        has_condition(d, column, v),
        jobs::extends(d, e),
    ensures
        has_condition(e, column, v),
{
    let (at, k) = choose|at: int, k: int| #[trigger] condition_at(d, column, v, at, k);
    let needle = column + sql::placeholder((k + 1) as nat);
    assert(e.args.take(d.args.len() as int)[k] == d.args[k]);
    assert(e.sql.subrange(at, at + needle.len()) =~= e.sql.take(d.sql.len() as int).subrange(
        at,
        at + needle.len(),
    ));
    assert(condition_at(e, column, v, at, k));
}

proof fn lemma_joined(d: Draft, first: bool)
    ensures
        jobs::extends(d, jobs::joined(d, first)),
        jobs::joined(d, first).args == d.args,
{
    let e = jobs::joined(d, first);
    assert(e.sql.take(d.sql.len() as int) =~= d.sql);
    assert(e.args.take(d.args.len() as int) =~= d.args);
}

proof fn lemma_compared(d: Draft, first: bool, column: Seq<char>, v: SqlView)
    ensures
        ({
            let e = jobs::joined(d, first).text(column).value(v);
            &&& has_condition(e, column, v)
            &&& jobs::extends(d, e)
            &&& e.args == d.args.push(v)
        }),
{
    lemma_joined(d, first);
    let j = jobs::joined(d, first);
    let e = j.text(column).value(v);
    let k = d.args.len() as int;
    let needle = column + sql::placeholder((k + 1) as nat);
    assert(e.args[k] == v);
    assert(e.sql =~= j.sql + needle);
    let from = j.sql.len() as int;
    assert(e.sql.subrange(from, from + needle.len()) =~= needle);
    assert(condition_at(e, column, v, j.sql.len() as int, k));
    assert(e.sql.take(d.sql.len() as int) =~= j.sql.take(d.sql.len() as int));
    assert(e.args.take(d.args.len() as int) =~= d.args);
}

proof fn lemma_extends_chain(a: Draft, b: Draft, c: Draft)
    requires
        jobs::extends(a, b),
        jobs::extends(b, c),
    ensures
        jobs::extends(a, c),
{
    assert(c.sql.take(a.sql.len() as int) =~= c.sql.take(b.sql.len() as int).take(
        a.sql.len() as int,
    ));
    assert(c.args.take(a.args.len() as int) =~= c.args.take(b.args.len() as int).take(
        a.args.len() as int,
    ));
}

proof fn lemma_extends_itself(a: Draft)
    ensures
        jobs::extends(a, a),
{
    assert(a.sql.take(a.sql.len() as int) =~= a.sql);
    assert(a.args.take(a.args.len() as int) =~= a.args);
}

/// A filter with a value; empty text filters nothing.
pub open spec fn filters_by(filter: Option<String>) -> bool {
    filter is Some && filter->0@.len() > 0
}

proof fn lemma_condition_step(d: Draft, first: bool, column: Seq<char>, filter: Option<String>)
    ensures
        ({
            let e = jobs::text_condition(d, first, column, jobs::wanted(filter));
            &&& jobs::extends(d, e)
            &&& filters_by(filter) ==> has_condition(e, column, SqlView::Text(filter->0@))
                && e.args.len() == d.args.len() + 1
            &&& !filters_by(filter) ==> e == d
        }),
{
    lemma_extends_itself(d);
    if filters_by(filter) {
        lemma_compared(d, first, column, SqlView::Text(filter->0@));
    }
}

proof fn lemma_search_step(d: Draft, first: bool, search: Option<String>)
    ensures
        ({
            let e = jobs::search_condition(d, first, jobs::searched(search));
            let looks = search is Some && text::trim_spec(search->0@).len() > 0;
            &&& jobs::extends(d, e)
            &&& looks ==> {
                let term = SqlView::Text("%"@ + text::trim_spec(search->0@) + "%"@);
                &&& has_condition(e, "username ILIKE "@, term)
                &&& has_condition(e, "COALESCE(display_name, '') ILIKE "@, term)
                &&& has_condition(e, "filename ILIKE "@, term)
                &&& has_condition(e, "COALESCE(problem_label, '') ILIKE "@, term)
                &&& e.args.len() == d.args.len() + 1
            }
            &&& !looks ==> e == d
        }),
{
    lemma_extends_itself(d);
    if search is Some && text::trim_spec(search->0@).len() > 0 {
        let t = text::trim_spec(search->0@);
        let term = SqlView::Text("%"@ + t + "%"@);
        let ph = sql::placeholder(d.args.len() + 1);
        let held = d.hold(term);
        lemma_joined(held, first);
        let j = jobs::joined(held, first);
        let e = jobs::search_condition(d, first, jobs::searched(search));
        let k = d.args.len() as int;
        assert(e.args == j.args);
        assert(e.args[k] == term);
        lemma_search_words();
        let a = "(username ILIKE "@;
        let b = " OR COALESCE(display_name, '') ILIKE "@;
        let c = " OR filename ILIKE "@;
        let f = " OR COALESCE(problem_label, '') ILIKE "@;
        assert(e.sql =~= j.sql + a + ph + b + ph + c + ph + f + ph + ")"@);
        let w1 = "username ILIKE "@;
        let w2 = "COALESCE(display_name, '') ILIKE "@;
        let w3 = "filename ILIKE "@;
        let w4 = "COALESCE(problem_label, '') ILIKE "@;
        let n = j.sql.len() as int;
        let p = ph.len() as int;
        let at1 = n + 1;
        let at2 = n + a.len() + p + 4;
        let at3 = n + a.len() + p + b.len() + p + 4;
        let at4 = n + a.len() + p + b.len() + p + c.len() + p + 4;
        assert(e.sql.subrange(at1, at1 + (w1 + ph).len()) =~= a.skip(1) + ph);
        assert(condition_at(e, w1, term, at1, k));
        assert(e.sql.subrange(at2, at2 + (w2 + ph).len()) =~= b.skip(4) + ph);
        assert(condition_at(e, w2, term, at2, k));
        assert(e.sql.subrange(at3, at3 + (w3 + ph).len()) =~= c.skip(4) + ph);
        assert(condition_at(e, w3, term, at3, k));
        assert(e.sql.subrange(at4, at4 + (w4 + ph).len()) =~= f.skip(4) + ph);
        assert(condition_at(e, w4, term, at4, k));
        assert(e.sql.take(d.sql.len() as int) =~= j.sql.take(d.sql.len() as int));
        assert(j.sql.take(held.sql.len() as int) == held.sql);
        assert(e.args.take(d.args.len() as int) =~= d.args);
    }
}

proof fn lemma_search_words()
    ensures
        "(username ILIKE "@.skip(1) == "username ILIKE "@,
        " OR COALESCE(display_name, '') ILIKE "@.skip(4) == "COALESCE(display_name, '') ILIKE "@,
        " OR filename ILIKE "@.skip(4) == "filename ILIKE "@,
        " OR COALESCE(problem_label, '') ILIKE "@.skip(4) == "COALESCE(problem_label, '') ILIKE "@,
        "(username ILIKE "@.len() >= 1,
        " OR COALESCE(display_name, '') ILIKE "@.len() >= 4,
        " OR filename ILIKE "@.len() >= 4,
        " OR COALESCE(problem_label, '') ILIKE "@.len() >= 4,
{
    reveal_strlit("(username ILIKE ");
    reveal_strlit("username ILIKE ");
    reveal_strlit(" OR COALESCE(display_name, '') ILIKE ");
    reveal_strlit("COALESCE(display_name, '') ILIKE ");
    reveal_strlit(" OR filename ILIKE ");
    reveal_strlit("filename ILIKE ");
    reveal_strlit(" OR COALESCE(problem_label, '') ILIKE ");
    reveal_strlit("COALESCE(problem_label, '') ILIKE ");
    assert("(username ILIKE "@.skip(1) =~= "username ILIKE "@);
    assert(" OR COALESCE(display_name, '') ILIKE "@.skip(4) =~= "COALESCE(display_name, '') ILIKE "@);
    assert(" OR filename ILIKE "@.skip(4) =~= "filename ILIKE "@);
    assert(" OR COALESCE(problem_label, '') ILIKE "@.skip(4)
        =~= "COALESCE(problem_label, '') ILIKE "@);
}

/// Every filter that is given is applied, with its value: the status, the
/// contest, the station, the printer, and the search in the names, the file and
/// the problem. One value is bound for each, and without filters nothing is
/// added.
pub proof fn every_filter_is_applied(d: Draft, f: JobFilters)
    ensures
        ({
            let e = jobs::filtered(d, f);
            let looks = f.search is Some && text::trim_spec(f.search->0@).len() > 0;
            &&& jobs::extends(d, e)
            &&& filters_by(f.status) ==> has_condition(
                e,
                "status = "@,
                SqlView::Text(f.status->0@),
            )
            &&& f.contest_id is Some ==> has_condition(
                e,
                "contest_id = "@,
                SqlView::Int(f.contest_id->0 as int),
            )
            &&& filters_by(f.station) ==> has_condition(
                e,
                "claimed_by = "@,
                SqlView::Text(f.station->0@),
            )
            &&& filters_by(f.printer) ==> has_condition(
                e,
                "claimed_printer = "@,
                SqlView::Text(f.printer->0@),
            )
            &&& looks ==> {
                let term = SqlView::Text("%"@ + text::trim_spec(f.search->0@) + "%"@);
                &&& has_condition(e, "username ILIKE "@, term)
                &&& has_condition(e, "COALESCE(display_name, '') ILIKE "@, term)
                &&& has_condition(e, "filename ILIKE "@, term)
                &&& has_condition(e, "COALESCE(problem_label, '') ILIKE "@, term)
            }
            &&& e.args.len() == d.args.len() + (if filters_by(f.status) {
                1int
            } else {
                0
            }) + (if f.contest_id is Some {
                1int
            } else {
                0
            }) + (if filters_by(f.station) {
                1int
            } else {
                0
            }) + (if filters_by(f.printer) {
                1int
            } else {
                0
            }) + (if looks {
                1int
            } else {
                0
            })
            &&& !filters_by(f.status) && f.contest_id is None && !filters_by(f.station)
                && !filters_by(f.printer) && !looks ==> e == d
        }),
{
    let status = jobs::wanted(f.status);
    let station = jobs::wanted(f.station);
    let printer = jobs::wanted(f.printer);
    let d1 = jobs::text_condition(d, true, "status = "@, status);
    lemma_condition_step(d, true, "status = "@, f.status);
    let f1 = status is None;
    let d2 = match f.contest_id {
        Some(c) => jobs::joined(d1, f1).text("contest_id = "@).value(SqlView::Int(c as int)),
        None => d1,
    };
    lemma_extends_itself(d1);
    if f.contest_id is Some {
        lemma_compared(d1, f1, "contest_id = "@, SqlView::Int(f.contest_id->0 as int));
    }
    let f2 = f1 && f.contest_id is None;
    let d3 = jobs::text_condition(d2, f2, "claimed_by = "@, station);
    lemma_condition_step(d2, f2, "claimed_by = "@, f.station);
    let f3 = f2 && station is None;
    let d4 = jobs::text_condition(d3, f3, "claimed_printer = "@, printer);
    lemma_condition_step(d3, f3, "claimed_printer = "@, f.printer);
    let f4 = f3 && printer is None;
    let e = jobs::filtered(d, f);
    lemma_search_step(d4, f4, f.search);
    assert(e == jobs::search_condition(d4, f4, jobs::searched(f.search)));
    lemma_extends_chain(d3, d4, e);
    lemma_extends_chain(d2, d3, e);
    lemma_extends_chain(d1, d2, e);
    lemma_extends_chain(d, d1, e);
    if filters_by(f.status) {
        lemma_condition_stays(d1, e, "status = "@, SqlView::Text(f.status->0@));
    }
    if f.contest_id is Some {
        lemma_condition_stays(d2, e, "contest_id = "@, SqlView::Int(f.contest_id->0 as int));
    }
    if filters_by(f.station) {
        lemma_condition_stays(d3, e, "claimed_by = "@, SqlView::Text(f.station->0@));
    }
    if filters_by(f.printer) {
        lemma_condition_stays(d4, e, "claimed_printer = "@, SqlView::Text(f.printer->0@));
    }
}

// ---------------------------------------------------------------------------
// Answers
// ---------------------------------------------------------------------------

/// A document is printed for who is signed in, where it can be read, has something
/// to print and fits; and where it names a contest, by who may take part in it.
/// The job is in the sender's name, and holds the document as it is.
pub proof fn a_document_becomes_a_job(
    req: HttpRequest,
    body: Body<ArbitraryJobRequest>,
    access: Result<(), HttpError>,
    config: PrintConfig,
    label: Option<ProblemLabelRow>,
    r: Result<NewJob, HttpError>,
)
    requires
        routes::document_answer(req, body, access, config, label, r),
    ensures
        r is Ok <==> {
            &&& req.auth is Some
            &&& body is Given
            &&& text::trim_spec(body->Given_0.source@).len() > 0
            &&& body->Given_0.source@.len() <= 1_000_000
            &&& body->Given_0.contest_id is Some ==> access is Ok
            &&& config.enabled
            &&& handlers::pages_of(body->Given_0.source@) <= config.max_pages
        },
        req.auth is None ==> r is Err && r->Err_0.status == 401,
        req.auth is Some && !(body is Given) ==> r is Err && r->Err_0.status == 400,
        r is Ok ==> {
            let job = r->Ok_0;
            let doc = body->Given_0;
            &&& job.source == doc.source
            &&& job.contest_id == doc.contest_id
            &&& job.user_id == req.auth->0.user_id
            &&& job.username@ == req.auth->0.username@
            &&& job.submission_id is None
            &&& job.pages_est == handlers::pages_of(doc.source@)
            &&& job.filename@ == handlers::safe_name(doc.filename@, "print.txt"@)
            &&& config.require_approval ==> job.status@ == "pending_approval"@
            &&& !config.require_approval ==> job.status@ == "pending"@
            &&& doc.language is Some && text::trim_spec(doc.language->0@).len() > 0
                ==> job.language@ == text::trim_spec(doc.language->0@)
            &&& doc.language is None || text::trim_spec(doc.language->0@).len() == 0
                ==> job.language@ == "text"@
            &&& job.problem_label is Some <==> doc.contest_id is Some && doc.problem_id is Some
                && label is Some
        },
{
}

/// A request about a job names it by a number, and is refused without one.
pub proof fn a_job_is_named_by_its_number(
    req: HttpRequest,
    draft: spec_fn(i64) -> Draft,
    r: Result<sql::Query, HttpError>,
)
    requires
        routes::about_job(req, draft, r),
    ensures
        ({
            let named = http::int_at(req.params@, "id"@, i64::MIN as int, i64::MAX as int);
            &&& r is Ok <==> named is Some
            &&& named is Some ==> sql::draft_of(r->Ok_0) == draft(named->0 as i64)
            &&& named is None ==> r->Err_0.status == 400
        }),
{
}

/// A body that is missing or cannot be read is told, with the reason.
pub proof fn unreadable_bodies_are_told<T>(body: Body<T>, e: HttpError)
    requires
        routes::body_refusal(body, e),
    ensures
        !(body is Given),
        e.status == 400,
        body is Missing ==> http::error_is(e, 400, "Missing request body"@),
        body matches Body::Unreadable { why } ==> http::error_is(
            e,
            400,
            "Invalid request body: "@ + why@,
        ),
{
}

/// A station that shows no token, or one that neither the site nor the contest
/// that it names knows, is turned away. One with a token of the site sees the jobs
/// of all contests, another one those of its contest.
pub proof fn stations_see_their_contest(
    req: HttpRequest,
    global: PrintConfig,
    contest: PrintConfig,
    token: Option<Seq<char>>,
    named: Option<i32>,
)
    requires
        token == auth::token_of(http::text_at(req.headers@, "authorization"@)),
        named == routes::queried_contest(req),
    ensures
        !routes::station_refused(req, global, contest) <==> token is Some && (text::views(
            global.station_tokens@,
        ).contains(token->0) || (named is Some && text::views(
            contest.station_tokens@,
        ).contains(token->0))),
        token is Some && text::views(global.station_tokens@).contains(token->0)
            ==> routes::station_view(req, global) is None,
        token is Some && !text::views(global.station_tokens@).contains(token->0)
            ==> routes::station_view(req, global) == named,
        forall|r: Result<StationAuth, HttpError>| #[trigger]
            routes::station_admitted(req, global, contest, r) ==> (r is Err
                <==> routes::station_refused(req, global, contest)),
        forall|r: Result<StationAuth, HttpError>| #[trigger]
            routes::station_admitted(req, global, contest, r) && r is Ok ==> r->Ok_0.contest_filter
                == routes::station_view(req, global),
{
}

/// A contest is named by a number in the query, where there is one.
pub proof fn a_contest_is_named_by_its_number(req: HttpRequest)
    ensures
        ({
            let value = http::int_at(req.query@, "contest_id"@, i32::MIN as int, i32::MAX as int);
            &&& value is Some ==> routes::queried_contest(req) is Some && routes::queried_contest(
                req,
            )->0 == value->0
            &&& value is None ==> routes::queried_contest(req) is None
        }),
        http::int_at(req.query@, "limit"@, i64::MIN as int, i64::MAX as int) is None
            ==> handlers::limit_of(req) == 20,
        http::int_at(req.query@, "limit"@, i64::MIN as int, i64::MAX as int) matches Some(v)
            ==> handlers::limit_of(req) == v,
{
    text::bounds_are_kept(
        if req.query@.contains_key("contest_id"@) {
            req.query@["contest_id"@]@
        } else {
            Seq::<char>::empty()
        },
        i32::MIN as int,
        i32::MAX as int,
    );
}

/// The filters of a list are read from the query, each under its name; a search
/// under its long name or its short one. The latest come first without a wish.
pub proof fn filters_are_read_by_name(req: HttpRequest, f: JobFilters)
    requires
        handlers::filters_are(req, f),
    ensures
        text::opt_view(f.status) == http::text_at(req.query@, "status"@),
        text::opt_view(f.station) == http::text_at(req.query@, "station"@),
        text::opt_view(f.printer) == http::text_at(req.query@, "printer"@),
        http::text_at(req.query@, "search"@) is Some ==> text::opt_view(f.search) == http::text_at(
            req.query@,
            "search"@,
        ),
        http::text_at(req.query@, "search"@) is None ==> text::opt_view(f.search) == http::text_at(
            req.query@,
            "q"@,
        ),
        http::text_at(req.query@, "sort_by"@) matches Some(s) ==> f.sort_by@ == s,
        http::text_at(req.query@, "sort_by"@) is None ==> f.sort_by@ == "created_at"@,
        http::text_at(req.query@, "sort_order"@) matches Some(s) ==> f.sort_order@ == s,
        http::text_at(req.query@, "sort_order"@) is None ==> f.sort_order@ == "desc"@,
        f.contest_id is Some <==> http::int_at(
            req.query@,
            "contest_id"@,
            i32::MIN as int,
            i32::MAX as int,
        ) is Some,
        f.page >= 1,
        1 <= f.per_page <= 200,
{
}

// ---------------------------------------------------------------------------
// What is asked of the tables
// ---------------------------------------------------------------------------

/// Who prints a submission is who is signed in, and the contest and the submission are
/// those that the address names.
pub proof fn a_submission_is_named_by_the_address(
    req: &HttpRequest,
    r: Result<PrintSubmission, HttpError>,
)
    requires
        call_ensures(handlers::read_print_submission, (req,), r),
    ensures
        ({
            let contest = http::int_at(req.params@, "contest_id"@, i32::MIN as int, i32::MAX as int);
            let submission = http::int_at(
                req.params@,
                "submission_id"@,
                i32::MIN as int,
                i32::MAX as int,
            );
            &&& r is Ok <==> contest is Some && submission is Some && req.auth is Some
            &&& r is Ok ==> r->Ok_0.user_id == req.auth->0.user_id && r->Ok_0.contest_id
                == contest->0 && r->Ok_0.submission_id == submission->0
            &&& r is Err ==> r->Err_0.status == (if contest is None || submission is None {
                400u16
            } else {
                401u16
            })
        }),
{
}

/// A contestant is shown the own jobs, newest first; who is not signed in is shown none.
pub proof fn my_jobs_are_mine(req: &HttpRequest, r: Result<Query, HttpError>)
    requires
        call_ensures(routes::handle_my_jobs, (req,), r),
    ensures
        req.auth is None ==> r is Err && r->Err_0.status == 401,
        req.auth is Some ==> r is Ok && sql::draft_of(r->Ok_0) == statement::write(
            jobs::own_jobs(req.auth->0.user_id, routes::queried_contest(*req)),
            Draft::empty().text("SELECT "@).text(jobs::JOB_COLS@).text(" FROM print_job WHERE "@),
        ).text(" ORDER BY created_at DESC LIMIT 200"@),
{
}

/// What a station asks for is refused to whom it does not belong, and else asked of the
/// jobs that the station may see.
pub proof fn stations_are_shown_their_jobs(
    req: &HttpRequest,
    global: &PrintConfig,
    contest: &PrintConfig,
    r: Result<Query, HttpError>,
)
    requires
        call_ensures(routes::handle_station_jobs, (req, global, contest), r),
    ensures
        r is Ok <==> !routes::station_refused(*req, *global, *contest),
        r is Ok ==> sql::draft_of(r->Ok_0) == jobs::station_jobs_draft(
            routes::station_view(*req, *global),
            http::text_at(req.query@, "location"@),
            handlers::limit_of(*req),
        ),
{
}

/// A station claims the job that the address names, for itself and its printer, among
/// those that it may see.
pub proof fn stations_claim_the_named_job(
    req: &HttpRequest,
    global: &PrintConfig,
    contest: &PrintConfig,
    body: Body<ClaimRequest>,
    r: Result<Query, HttpError>,
)
    requires
        call_ensures(routes::handle_station_claim, (req, global, contest, body), r),
    ensures
        r is Ok <==> !routes::station_refused(*req, *global, *contest) && routes::job_of(*req) is Some
            && body is Given,
        r is Ok ==> sql::draft_of(r->Ok_0) == jobs::claim_draft(
            routes::job_of(*req)->0 as i64,
            body->Given_0.station@,
            body->Given_0.printer,
            routes::station_view(*req, *global),
        ),
{
}

/// A station reports on the job that the address names, with a state that it can set,
/// among those that it may see.
pub proof fn stations_report_on_the_named_job(
    req: &HttpRequest,
    global: &PrintConfig,
    contest: &PrintConfig,
    body: Body<StatusRequest>,
    r: Result<Query, HttpError>,
)
    requires
        call_ensures(routes::handle_station_status, (req, global, contest, body), r),
    ensures
        r is Ok <==> !routes::station_refused(*req, *global, *contest) && routes::job_of(*req) is Some
            && body is Given && status::settable(body->Given_0.status@),
        r is Ok ==> sql::draft_of(r->Ok_0) == jobs::status_draft(
            routes::job_of(*req)->0 as i64,
            body->Given_0.status@,
            body->Given_0.pages,
            body->Given_0.error,
            routes::station_view(*req, *global),
        ),
{
}

/// A station that is let in is written down with the printers that it tells.
pub proof fn stations_are_written_down(
    req: &HttpRequest,
    global: &PrintConfig,
    contest: &PrintConfig,
    body: Body<HeartbeatRequest>,
    r: Result<Query, HttpError>,
)
    requires
        call_ensures(routes::handle_station_heartbeat, (req, global, contest, body), r),
    ensures
        r is Ok <==> !routes::station_refused(*req, *global, *contest) && body is Given,
        r is Ok ==> ({
            let told = stations::json_list_of(text::views(body->Given_0.printers@));
            sql::draft_of(r->Ok_0) == stations::heartbeat_upsert(
                body->Given_0,
                if told is Some {
                    told->0
                } else {
                    "[]"@
                },
            ).draft()
        }),
{
}

/// A job is pinned to the printer that is named, or to none.
pub proof fn the_named_job_is_pinned(
    req: &HttpRequest,
    body: Body<Option<String>>,
    r: Result<Query, HttpError>,
)
    requires
        call_ensures(routes::handle_admin_pin, (req, body), r),
    ensures
        r is Ok <==> routes::job_of(*req) is Some && body is Given,
        r is Ok ==> sql::draft_of(r->Ok_0) == jobs::pin_draft(
            routes::job_of(*req)->0 as i64,
            body->Given_0,
        ),
        r is Err ==> r->Err_0.status == 400,
{
}

/// The list of the staff is counted and read by the same conditions, on the same values;
/// only the length of a page and where it starts come behind them.
pub proof fn a_list_is_counted_as_it_is_read(f: JobFilters)
    ensures
        ({
            let count = jobs::admin_count_draft(f);
            let page = jobs::admin_page_draft(f);
            let counted = jobs::filtered(
                Draft::empty().text("SELECT COUNT(*) AS count FROM print_job "@),
                f,
            );
            let listed = jobs::filtered(
                Draft::empty().text("SELECT "@).text(jobs::JOB_COLS@).text(" FROM print_job "@),
                f,
            );
            &&& count == counted
            &&& page.args.len() == count.args.len() + 2
            &&& page.args.take(count.args.len() as int) == count.args
            &&& page.sql.take(listed.sql.len() as int) == listed.sql
        }),
{
    let a = Draft::empty().text("SELECT COUNT(*) AS count FROM print_job "@);
    let b = Draft::empty().text("SELECT "@).text(jobs::JOB_COLS@).text(" FROM print_job "@);
    jobs::pages_and_counts_agree(f, a, b);
    let counted = jobs::filtered(a, f);
    let listed = jobs::filtered(b, f);
    assert(counted.args.skip(0) =~= counted.args);
    assert(listed.args.skip(0) =~= listed.args);
    let page = jobs::admin_page_draft(f);
    assert(page.args.take(counted.args.len() as int) =~= counted.args);
    assert(page.sql.take(listed.sql.len() as int) =~= listed.sql);
}

/// A printed source is that of the named job.
pub proof fn the_source_of_the_named_job_is_read(id: i64)
    ensures
        jobs::job_source_draft(id) == statement::write(
            jobs::this_job(id),
            Draft::empty().text(
                "SELECT id, source, language, filename, username, display_name FROM print_job WHERE "@,
            ),
        ),
{
}

/// A station counts as online for three quarters of a minute after its last report.
pub proof fn stations_are_online_for_a_while()
    ensures
        sql::says(
            stations::stations_draft().sql,
            "(NOW() - last_seen) < INTERVAL '45 seconds' AS online FROM print_station"@,
        ),
        stations::stations_draft().args.len() == 0,
{
    reveal_with_fuel(text::decimal_digits, 3);
    reveal_strlit("SELECT name, location, printers, version, queue_seen, EXTRACT(EPOCH FROM last_seen) AS last_seen, (NOW() - last_seen) < INTERVAL '");
    reveal_strlit(" seconds' AS online FROM print_station ORDER BY last_seen DESC");
    reveal_strlit("(NOW() - last_seen) < INTERVAL '45 seconds' AS online FROM print_station");
    let head = "SELECT name, location, printers, version, queue_seen, EXTRACT(EPOCH FROM last_seen) AS last_seen, (NOW() - last_seen) < INTERVAL '"@;
    let tail = " seconds' AS online FROM print_station ORDER BY last_seen DESC"@;
    let words = "(NOW() - last_seen) < INTERVAL '45 seconds' AS online FROM print_station"@;
    let all = stations::stations_draft().sql;
    assert(text::decimal_digits(45) =~= seq!['4', '5']);
    assert(all =~= head + seq!['4', '5'] + tail);
    let at: int = head.len() - 32;
    assert(all.subrange(at, at + words.len() as int) =~= words);
    assert(text::stands_at(all, words, at));
}

/// A change is made where exactly one job was changed.
pub proof fn a_change_is_made_to_one_job(
    change: JobChange,
    affected: u64,
    r: Result<(), HttpError>,
)
    requires
        call_ensures(handlers::change_answer, (change, affected), r),
    ensures
        r is Ok <==> affected == 1,
        r is Err ==> r->Err_0.status == handlers::refusal_of(change).0,
{
}

/// A report is taken where its state is one that a station can set.
pub proof fn only_known_states_are_reported(report: &StatusRequest, r: Result<(), HttpError>)
    requires
        call_ensures(handlers::check_report, (report,), r),
    ensures
        r is Ok <==> status::settable(report.status@),
        r is Err ==> r->Err_0.status == 400,
{
}

/// A submission is read by its id, and a label by its contest and problem.
pub proof fn submissions_and_labels_are_read_by_id(
    submission_id: i32,
    contest_id: i32,
    problem_id: i32,
    submission: Query,
    label: Query,
)
    requires
        call_ensures(jobs::fetch_submission, (submission_id,), submission),
        call_ensures(jobs::fetch_problem_label, (contest_id, problem_id), label),
    ensures
        sql::arg_views(submission.args@) =~= seq![SqlView::Int(submission_id as int)],
        text::has_suffix(submission.sql@, " WHERE s.id = "@ + sql::placeholder(1)),
        sql::arg_views(label.args@) =~= seq![
            SqlView::Int(contest_id as int),
            SqlView::Int(problem_id as int),
        ],
        label.sql@ == "SELECT label, position FROM contest_problem WHERE contest_id = "@
            + sql::placeholder(1) + " AND problem_id = "@ + sql::placeholder(2),
{
    let head = "SELECT s.files, s.language, s.user_id, u.username, s.contest_id, s.problem_id FROM submission s JOIN \"user\" u ON u.id = s.user_id WHERE s.id = "@;
    let end = " WHERE s.id = "@;
    reveal_strlit("SELECT s.files, s.language, s.user_id, u.username, s.contest_id, s.problem_id FROM submission s JOIN \"user\" u ON u.id = s.user_id WHERE s.id = ");
    reveal_strlit(" WHERE s.id = ");
    let all = submission.sql@;
    let tail = end + sql::placeholder(1);
    assert(all =~= head + sql::placeholder(1));
    assert(all.subrange(all.len() - tail.len(), all.len() as int) =~= tail);
    let a = "SELECT label, position FROM contest_problem WHERE contest_id = "@;
    assert(sql::draft_of(label).sql =~= a + sql::placeholder(1) + " AND problem_id = "@
        + sql::placeholder(2));
}

/// A submission is let through to the printer for its author and the staff, of a contest
/// that prints, and for nobody else.
pub proof fn authors_and_staff_are_let_through(
    who: PrintSubmission,
    staff: bool,
    config: &PrintConfig,
    sub: &Option<SubmissionRow>,
    r: Result<(), HttpError>,
)
    requires
        call_ensures(handlers::authorize_submission, (who, staff, config, sub), r),
    ensures
        r is Ok <==> config.enabled && *sub is Some && (*sub)->0.contest_id == Some(who.contest_id)
            && ((*sub)->0.user_id == who.user_id || staff),
{
    a_submission_is_printed_by_its_author_or_staff(who, staff, *config, *sub, r);
}

} // verus!
