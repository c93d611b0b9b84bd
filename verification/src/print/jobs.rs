//! The statements about print jobs.

use vstd::prelude::*;

use crate::print::status;
use crate::sql::{Draft, Query, QueryBuilder, SqlView};
use crate::text::{concat3, str_eq, to_ascii_lower, trim};
use crate::sql;
use crate::statement;
use crate::statement::{BinOp, Insert, Term, Update};
use crate::text;

verus! {

#[derive(Debug, Clone, PartialEq, Eq)]
pub struct NewJob {
    pub contest_id: Option<i32>,
    pub user_id: i32,
    pub username: String,
    pub display_name: Option<String>,
    pub problem_label: Option<String>,
    pub submission_id: Option<i32>,
    pub language: String,
    pub filename: String,
    pub source: String,
    pub pages_est: i32,
    pub status: String,
}

#[derive(Debug, Clone, PartialEq, Eq)]
pub struct JobFilters {
    pub status: Option<String>,
    pub contest_id: Option<i32>,
    pub station: Option<String>,
    pub printer: Option<String>,
    pub search: Option<String>,
    pub page: i64,
    pub per_page: i64,
    pub sort_by: String,
    pub sort_order: String,
}

#[derive(Debug, Clone, PartialEq, Eq)]
pub struct JobWithSource {
    pub id: i64,
    pub source: String,
    pub language: String,
    pub filename: String,
    pub username: String,
    pub display_name: Option<String>,
}

#[derive(Debug, Clone, PartialEq, Eq)]
pub struct ProblemLabelRow {
    pub label: String,
    pub position: i32,
}

// ---------------------------------------------------------------------------
// New jobs
// ---------------------------------------------------------------------------

/// A text that is bound.
pub open spec fn bound_text(v: Seq<char>) -> Term {
    Term::Arg(SqlView::Text(v))
}

/// A number that is bound.
pub open spec fn bound_int(v: int) -> Term {
    Term::Arg(SqlView::Int(v))
}

pub open spec fn insert_statement(job: NewJob) -> Insert {
    Insert {
        table: "print_job"@,
        cols: seq![
            ("contest_id"@, statement::optional(sql::int_of(job.contest_id))),
            ("user_id"@, bound_int(job.user_id as int)),
            ("username"@, bound_text(job.username@)),
            ("display_name"@, statement::optional(sql::text_of(job.display_name))),
            ("problem_label"@, statement::optional(sql::text_of(job.problem_label))),
            ("submission_id"@, statement::optional(sql::int_of(job.submission_id))),
            ("language"@, bound_text(job.language@)),
            ("filename"@, bound_text(job.filename@)),
            ("source"@, bound_text(job.source@)),
            ("pages_est"@, bound_int(job.pages_est as int)),
            ("status"@, bound_text(job.status@)),
        ],
    }
}

pub open spec fn insert_draft(job: NewJob) -> Draft {
    insert_statement(job).draft()
}

/// Writes the columns of a new job.
fn write_job_columns(q: &mut QueryBuilder, Ghost(job): Ghost<NewJob>)
    ensures
        final(q)@ == statement::write_names(insert_statement(job).cols, 11, old(q)@),
{
    q.text("contest_id");
    q.text(", ");
    q.text("user_id");
    q.text(", ");
    q.text("username");
    q.text(", ");
    q.text("display_name");
    q.text(", ");
    q.text("problem_label");
    q.text(", ");
    q.text("submission_id");
    q.text(", ");
    q.text("language");
    q.text(", ");
    q.text("filename");
    q.text(", ");
    q.text("source");
    q.text(", ");
    q.text("pages_est");
    q.text(", ");
    q.text("status");
    proof {
        reveal_with_fuel(statement::write_names, 12);
    }
}

/// The statement that adds a job.
pub fn insert_job(job: &NewJob) -> (r: Query)
    ensures
        sql::draft_of(r) == insert_draft(*job),
{
    let ghost cols = insert_statement(*job).cols;
    let mut q = QueryBuilder::new();
    q.text("INSERT INTO ");
    q.text("print_job");
    q.text(" (");
    write_job_columns(&mut q, Ghost(*job));
    q.text(") VALUES (");
    let ghost named = q@;
    q.maybe_int(job.contest_id);
    q.text(", ");
    q.number(job.user_id as i64);
    q.text(", ");
    q.string(job.username.as_str());
    q.text(", ");
    q.maybe_string(&job.display_name);
    q.text(", ");
    q.maybe_string(&job.problem_label);
    q.text(", ");
    q.maybe_int(job.submission_id);
    q.text(", ");
    q.string(job.language.as_str());
    q.text(", ");
    q.string(job.filename.as_str());
    q.text(", ");
    q.string(job.source.as_str());
    q.text(", ");
    q.number(job.pages_est as i64);
    q.text(", ");
    q.string(job.status.as_str());
    proof {
        reveal_with_fuel(statement::write_values, 12);
        assert(q@ == statement::write_values(cols, 11, named));
    }
    q.text(")");
    q.finish()
}

/// The statements that add these jobs, one for each. They are run together or
/// not at all.
pub fn insert_jobs(jobs: &Vec<NewJob>) -> (r: Vec<Query>)
    ensures
        r@.len() == jobs@.len(),
        forall|i: int|
            0 <= i < jobs@.len() ==> sql::draft_of(#[trigger] r@[i]) == insert_draft(jobs@[i]),
{
    let mut out: Vec<Query> = Vec::new();
    let mut i: usize = 0;
    while i < jobs.len()
        invariant
            i <= jobs@.len(),
            out@.len() == i,
            forall|k: int|
                0 <= k < i ==> sql::draft_of(#[trigger] out@[k]) == insert_draft(jobs@[k]),
        decreases jobs@.len() - i,
    {
        out.push(insert_job(&jobs[i]));
        i += 1;
    }
    out
}

// ---------------------------------------------------------------------------
// Lookups
// ---------------------------------------------------------------------------

/// The job with this id.
pub open spec fn this_job(id: i64) -> Term {
    statement::bin(BinOp::Equal, Term::Column("id"@), bound_int(id as int))
}

fn write_this_job(q: &mut QueryBuilder, id: i64)
    ensures
        final(q)@ == statement::write(this_job(id), old(q)@),
{
    q.text("id");
    q.text(" = ");
    q.number(id);
    proof {
        reveal_with_fuel(statement::write, 2);
    }
}

pub open spec fn job_source_draft(id: i64) -> Draft {
    statement::write(
        this_job(id),
        Draft::empty().text(
            "SELECT id, source, language, filename, username, display_name FROM print_job WHERE "@,
        ),
    )
}

pub fn fetch_job_source(id: i64) -> (r: Query)
    ensures
        sql::draft_of(r) == job_source_draft(id),
{
    let mut q = QueryBuilder::new();
    q.text(
        "SELECT id, source, language, filename, username, display_name FROM print_job WHERE ",
    );
    write_this_job(&mut q, id);
    q.finish()
}

pub fn fetch_submission(submission_id: i32) -> (r: Query)
    ensures
        sql::draft_of(r) == Draft::empty().text(
            "SELECT s.files, s.language, s.user_id, u.username, s.contest_id, s.problem_id FROM submission s JOIN \"user\" u ON u.id = s.user_id WHERE s.id = "@,
        ).value(SqlView::Int(submission_id as int)),
{
    let mut q = QueryBuilder::new();
    q.text(
        "SELECT s.files, s.language, s.user_id, u.username, s.contest_id, s.problem_id FROM submission s JOIN \"user\" u ON u.id = s.user_id WHERE s.id = ",
    );
    q.number(submission_id as i64);
    q.finish()
}

pub fn fetch_problem_label(contest_id: i32, problem_id: i32) -> (r: Query)
    ensures
        sql::draft_of(r) == Draft::empty().text(
            "SELECT label, position FROM contest_problem WHERE contest_id = "@,
        ).value(SqlView::Int(contest_id as int)).text(" AND problem_id = "@).value(
            SqlView::Int(problem_id as int),
        ),
{
    let mut q = QueryBuilder::new();
    q.text("SELECT label, position FROM contest_problem WHERE contest_id = ");
    q.number(contest_id as i64);
    q.text(" AND problem_id = ");
    q.number(problem_id as i64);
    q.finish()
}

/// The columns of a job. Times come as seconds since the epoch.
pub const JOB_COLS: &'static str = "id, contest_id, user_id, username, display_name, problem_label, submission_id, language, filename, pages_est, pages, location, target_printer, status, claimed_by, claimed_printer, error, EXTRACT(EPOCH FROM created_at) AS created_at, EXTRACT(EPOCH FROM claimed_at) AS claimed_at, EXTRACT(EPOCH FROM printed_at) AS printed_at";

/// The columns of a job for a station, with its source.
pub const STATION_JOB_COLS: &'static str = "id, contest_id, username, display_name, problem_label, language, filename, source, location, target_printer, EXTRACT(EPOCH FROM created_at) AS created_at";

/// A condition, and one on the contest where there is one.
pub open spec fn within_contest(condition: Term, contest_id: Option<i32>) -> Term {
    match contest_id {
        Some(c) => statement::bin(
            BinOp::And,
            condition,
            statement::bin(BinOp::Equal, Term::Column("contest_id"@), bound_int(c as int)),
        ),
        None => condition,
    }
}

/// A draft with a condition on the contest, where there is one.
pub open spec fn in_contest(d: Draft, contest_id: Option<i32>) -> Draft {
    match contest_id {
        Some(c) => d.text(" AND contest_id = "@).value(SqlView::Int(c as int)),
        None => d,
    }
}

fn add_contest(q: &mut QueryBuilder, contest_id: Option<i32>)
    ensures
        final(q)@ == in_contest(old(q)@, contest_id),
{
    match contest_id {
        Some(c) => {
            q.text(" AND contest_id = ");
            q.number(c as i64);
        },
        None => {},
    }
}

/// The condition on the contest, written behind another one.
proof fn lemma_in_contest(condition: Term, contest_id: Option<i32>, before: Draft)
    ensures
        in_contest(statement::write(condition, before), contest_id) == statement::write(
            within_contest(condition, contest_id),
            before,
        ),
{
    match contest_id {
        Some(c) => {
            reveal_with_fuel(statement::write, 3);
            reveal_strlit(" AND contest_id = ");
            reveal_strlit(" AND ");
            reveal_strlit("contest_id");
            reveal_strlit(" = ");
            let d = statement::write(condition, before);
            let joined = " AND "@ + "contest_id"@ + " = "@;
            assert(joined =~= " AND contest_id = "@);
            let parts = d.text(" AND "@).text("contest_id"@).text(" = "@);
            assert(parts.sql =~= d.text(" AND contest_id = "@).sql);
            assert(parts == d.text(" AND contest_id = "@));
        },
        None => {},
    }
}

/// The jobs of a contestant, in a contest or in all.
pub open spec fn own_jobs(user_id: i32, contest_id: Option<i32>) -> Term {
    within_contest(
        statement::bin(BinOp::Equal, Term::Column("user_id"@), bound_int(user_id as int)),
        contest_id,
    )
}

pub open spec fn my_jobs_draft(user_id: i32, contest_id: Option<i32>) -> Draft {
    statement::write(
        own_jobs(user_id, contest_id),
        Draft::empty().text("SELECT "@).text(JOB_COLS@).text(" FROM print_job WHERE "@),
    ).text(" ORDER BY created_at DESC LIMIT 200"@)
}

/// A contestant's own jobs, the latest first.
pub fn list_my_jobs(user_id: i32, contest_id: Option<i32>) -> (r: Query)
    ensures
        sql::draft_of(r) == my_jobs_draft(user_id, contest_id),
{
    let mut q = QueryBuilder::new();
    q.text("SELECT ");
    q.text(JOB_COLS);
    q.text(" FROM print_job WHERE ");
    let ghost before = q@;
    q.text("user_id");
    q.text(" = ");
    q.number(user_id as i64);
    let ghost own = statement::bin(
        BinOp::Equal,
        Term::Column("user_id"@),
        bound_int(user_id as int),
    );
    proof {
        reveal_with_fuel(statement::write, 2);
    }
    add_contest(&mut q, contest_id);
    proof {
        lemma_in_contest(own, contest_id, before);
    }
    q.text(" ORDER BY created_at DESC LIMIT 200");
    q.finish()
}

// ---------------------------------------------------------------------------
// Lists for the staff
// ---------------------------------------------------------------------------

/// The text that a filter asks for, where it asks for any.
pub open spec fn wanted(filter: Option<String>) -> Option<Seq<char>> {
    match filter {
        Some(s) => if s@.len() > 0 {
            Some(s@)
        } else {
            None
        },
        None => None,
    }
}

/// What a search looks for, where it looks for anything.
pub open spec fn searched(search: Option<String>) -> Option<Seq<char>> {
    match search {
        Some(s) => if text::trim_spec(s@).len() > 0 {
            Some(text::trim_spec(s@))
        } else {
            None
        },
        None => None,
    }
}

/// `WHERE` in front of the first condition, `AND` in front of the others.
pub open spec fn joined(d: Draft, first: bool) -> Draft {
    if first {
        d.text("WHERE "@)
    } else {
        d.text(" AND "@)
    }
}

pub open spec fn text_condition(
    d: Draft,
    first: bool,
    column: Seq<char>,
    value: Option<Seq<char>>,
) -> Draft {
    match value {
        Some(v) => joined(d, first).text(column).value(SqlView::Text(v)),
        None => d,
    }
}

pub open spec fn search_condition(d: Draft, first: bool, value: Option<Seq<char>>) -> Draft {
    match value {
        Some(term) => {
            let ph = sql::placeholder(d.args.len() + 1);
            joined(d.hold(SqlView::Text("%"@ + term + "%"@)), first).text("(username ILIKE "@).text(
                ph,
            ).text(" OR COALESCE(display_name, '') ILIKE "@).text(ph).text(
                " OR filename ILIKE "@,
            ).text(ph).text(" OR COALESCE(problem_label, '') ILIKE "@).text(ph).text(")"@)
        },
        None => d,
    }
}

/// The conditions of a filter, joined; none where it asks for nothing.
pub open spec fn filtered(d: Draft, f: JobFilters) -> Draft {
    let status = wanted(f.status);
    let station = wanted(f.station);
    let printer = wanted(f.printer);
    let d1 = text_condition(d, true, "status = "@, status);
    let f1 = status is None;
    let d2 = match f.contest_id {
        Some(c) => joined(d1, f1).text("contest_id = "@).value(SqlView::Int(c as int)),
        None => d1,
    };
    let f2 = f1 && f.contest_id is None;
    let d3 = text_condition(d2, f2, "claimed_by = "@, station);
    let f3 = f2 && station is None;
    let d4 = text_condition(d3, f3, "claimed_printer = "@, printer);
    let f4 = f3 && printer is None;
    search_condition(d4, f4, searched(f.search))
}

fn add_join(q: &mut QueryBuilder, first: bool)
    ensures
        final(q)@ == joined(old(q)@, first),
{
    if first {
        q.text("WHERE ");
    } else {
        q.text(" AND ");
    }
}

/// Adds a condition on a text column; tells whether there was one.
fn add_text_condition(
    q: &mut QueryBuilder,
    first: bool,
    column: &str,
    value: &Option<String>,
) -> (r: bool)
    ensures
        final(q)@ == text_condition(old(q)@, first, column@, wanted(*value)),
        r == (wanted(*value) is Some),
{
    match value {
        Some(s) => {
            if s.as_str().is_empty() {
                false
            } else {
                add_join(q, first);
                q.text(column);
                q.string(s.as_str());
                true
            }
        },
        None => false,
    }
}

fn add_filter(q: &mut QueryBuilder, f: &JobFilters)
    ensures
        final(q)@ == filtered(old(q)@, *f),
{
    let mut first = true;
    if add_text_condition(q, first, "status = ", &f.status) {
        first = false;
    }
    match f.contest_id {
        Some(c) => {
            add_join(q, first);
            q.text("contest_id = ");
            q.number(c as i64);
            first = false;
        },
        None => {},
    }
    if add_text_condition(q, first, "claimed_by = ", &f.station) {
        first = false;
    }
    if add_text_condition(q, first, "claimed_printer = ", &f.printer) {
        first = false;
    }
    match &f.search {
        Some(s) => {
            let term = trim(s.as_str());
            if !term.as_str().is_empty() {
                let pattern = concat3("%", term.as_str(), "%");
                let ph = q.hold_text(pattern.as_str());
                add_join(q, first);
                q.text("(username ILIKE ");
                q.text(ph.as_str());
                q.text(" OR COALESCE(display_name, '') ILIKE ");
                q.text(ph.as_str());
                q.text(" OR filename ILIKE ");
                q.text(ph.as_str());
                q.text(" OR COALESCE(problem_label, '') ILIKE ");
                q.text(ph.as_str());
                q.text(")");
            }
        },
        None => {},
    }
}

/// The column to sort by; only known ones are taken.
pub open spec fn sort_column_of(sort_by: Seq<char>) -> Seq<char> {
    if sort_by == "id"@ || sort_by == "status"@ || sort_by == "contest_id"@ || sort_by
        == "username"@ {
        sort_by
    } else {
        "created_at"@
    }
}

pub fn sort_column(sort_by: &str) -> (r: &'static str)
    ensures
        r@ == sort_column_of(sort_by@),
{
    if str_eq(sort_by, "id") {
        "id"
    } else if str_eq(sort_by, "status") {
        "status"
    } else if str_eq(sort_by, "contest_id") {
        "contest_id"
    } else if str_eq(sort_by, "username") {
        "username"
    } else {
        "created_at"
    }
}

pub open spec fn sort_direction_of(order: Seq<char>) -> Seq<char> {
    if text::ascii_lower_all(order) == "asc"@ {
        "ASC"@
    } else {
        "DESC"@
    }
}

pub fn sort_direction(order: &str) -> (r: &'static str)
    ensures
        r@ == sort_direction_of(order@),
{
    if str_eq(to_ascii_lower(order).as_str(), "asc") {
        "ASC"
    } else {
        "DESC"
    }
}

pub open spec fn clamp(v: int, low: int, high: int) -> int {
    if v < low {
        low
    } else if v > high {
        high
    } else {
        v
    }
}

fn clamp_i64(v: i64, low: i64, high: i64) -> (r: i64)
    requires
        low <= high,
    ensures
        r == clamp(v as int, low as int, high as int),
{
    if v < low {
        low
    } else if v > high {
        high
    } else {
        v
    }
}

/// How many rows stand before the page.
pub open spec fn offset_of(f: JobFilters) -> int {
    let page = if f.page < 1 {
        1
    } else {
        f.page as int
    };
    (page - 1) * clamp(f.per_page as int, 1, 200)
}

pub open spec fn admin_count_draft(f: JobFilters) -> Draft {
    filtered(Draft::empty().text("SELECT COUNT(*) AS count FROM print_job "@), f)
}

/// The query for the number of jobs that a filter lets through.
pub fn count_admin_jobs(f: &JobFilters) -> (r: Query)
    ensures
        sql::draft_of(r) == admin_count_draft(*f),
{
    let mut q = QueryBuilder::new();
    q.text("SELECT COUNT(*) AS count FROM print_job ");
    add_filter(&mut q, f);
    q.finish()
}

pub open spec fn admin_page_draft(f: JobFilters) -> Draft {
    let d = filtered(
        Draft::empty().text("SELECT "@).text(JOB_COLS@).text(" FROM print_job "@),
        f,
    );
    d.text(" ORDER BY "@).text(sort_column_of(f.sort_by@)).text(" "@).text(
        sort_direction_of(f.sort_order@),
    ).text(" LIMIT "@).value(SqlView::Int(clamp(f.per_page as int, 1, 200))).text(
        " OFFSET "@,
    ).value(SqlView::Int(offset_of(f)))
}

/// The query for one page of jobs.
pub fn list_admin_jobs(f: &JobFilters) -> (r: Query)
    requires
        offset_of(*f) <= i64::MAX,
    ensures
        sql::draft_of(r) == admin_page_draft(*f),
{
    let per_page: i64 = clamp_i64(f.per_page, 1, 200);
    let page: i64 = if f.page < 1 {
        1
    } else {
        f.page
    };
    proof {
        assert((page - 1) * per_page >= 0) by (nonlinear_arith)
            requires
                page >= 1,
                per_page >= 1,
        ;
    }
    let offset: i64 = (page - 1) * per_page;
    let mut q = QueryBuilder::new();
    q.text("SELECT ");
    q.text(JOB_COLS);
    q.text(" FROM print_job ");
    add_filter(&mut q, f);
    q.text(" ORDER BY ");
    q.text(sort_column(f.sort_by.as_str()));
    q.text(" ");
    q.text(sort_direction(f.sort_order.as_str()));
    q.text(" LIMIT ");
    q.number(per_page);
    q.text(" OFFSET ");
    q.number(offset);
    q.finish()
}

/// The page is counted with the very conditions that pick its rows.
pub proof fn pages_and_counts_agree(f: JobFilters, a: Draft, b: Draft)
    requires
        a.args.len() == b.args.len(),
    ensures
        filtered(a, f).args.skip(a.args.len() as int) == filtered(b, f).args.skip(
            b.args.len() as int,
        ),
        filtered(a, f).sql.skip(a.sql.len() as int) == filtered(b, f).sql.skip(
            b.sql.len() as int,
        ),
        filtered(a, f).args.len() == filtered(b, f).args.len(),
{
    lemma_filter_tail(a, b, f);
}

pub open spec fn extends(d: Draft, e: Draft) -> bool {
    &&& d.sql.len() <= e.sql.len()
    &&& d.args.len() <= e.args.len()
    &&& e.sql.take(d.sql.len() as int) == d.sql
    &&& e.args.take(d.args.len() as int) == d.args
}

/// Both drafts have grown by the same text and values.
pub open spec fn same_growth(a: Draft, a2: Draft, b: Draft, b2: Draft) -> bool {
    &&& extends(a, a2)
    &&& extends(b, b2)
    &&& a2.args.len() == b2.args.len()
    &&& a2.sql.skip(a.sql.len() as int) == b2.sql.skip(b.sql.len() as int)
    &&& a2.args.skip(a.args.len() as int) == b2.args.skip(b.args.len() as int)
}

proof fn lemma_grow_text(a: Draft, a2: Draft, b: Draft, b2: Draft, s: Seq<char>)
    requires
        same_growth(a, a2, b, b2),
    ensures
        same_growth(a, a2.text(s), b, b2.text(s)),
{
    let x = a2.text(s);
    let y = b2.text(s);
    assert(x.sql.take(a.sql.len() as int) =~= a2.sql.take(a.sql.len() as int));
    assert(y.sql.take(b.sql.len() as int) =~= b2.sql.take(b.sql.len() as int));
    assert(x.sql.skip(a.sql.len() as int) =~= a2.sql.skip(a.sql.len() as int) + s);
    assert(y.sql.skip(b.sql.len() as int) =~= b2.sql.skip(b.sql.len() as int) + s);
}

proof fn lemma_grow_hold(a: Draft, a2: Draft, b: Draft, b2: Draft, v: SqlView)
    requires
        same_growth(a, a2, b, b2),
    ensures
        same_growth(a, a2.hold(v), b, b2.hold(v)),
{
    let x = a2.hold(v);
    let y = b2.hold(v);
    assert(x.args.take(a.args.len() as int) =~= a2.args.take(a.args.len() as int));
    assert(y.args.take(b.args.len() as int) =~= b2.args.take(b.args.len() as int));
    assert(x.args.skip(a.args.len() as int) =~= a2.args.skip(a.args.len() as int).push(v));
    assert(y.args.skip(b.args.len() as int) =~= b2.args.skip(b.args.len() as int).push(v));
}

proof fn lemma_grow_value(a: Draft, a2: Draft, b: Draft, b2: Draft, v: SqlView)
    requires
        same_growth(a, a2, b, b2),
    ensures
        same_growth(a, a2.value(v), b, b2.value(v)),
{
    lemma_grow_hold(a, a2, b, b2, v);
    lemma_grow_text(a, a2.hold(v), b, b2.hold(v), sql::placeholder(a2.args.len() + 1));
}

proof fn lemma_grow_join(a: Draft, a2: Draft, b: Draft, b2: Draft, first: bool)
    requires
        same_growth(a, a2, b, b2),
    ensures
        same_growth(a, joined(a2, first), b, joined(b2, first)),
{
    lemma_grow_text(a, a2, b, b2, "WHERE "@);
    lemma_grow_text(a, a2, b, b2, " AND "@);
}

proof fn lemma_grow_condition(
    a: Draft,
    a2: Draft,
    b: Draft,
    b2: Draft,
    first: bool,
    column: Seq<char>,
    value: Option<Seq<char>>,
)
    requires
        same_growth(a, a2, b, b2),
    ensures
        same_growth(
            a,
            text_condition(a2, first, column, value),
            b,
            text_condition(b2, first, column, value),
        ),
{
    match value {
        Some(v) => {
            lemma_grow_join(a, a2, b, b2, first);
            let (a3, b3) = (joined(a2, first), joined(b2, first));
            lemma_grow_text(a, a3, b, b3, column);
            lemma_grow_value(a, a3.text(column), b, b3.text(column), SqlView::Text(v));
        },
        None => {},
    }
}

proof fn lemma_grow_search(
    a: Draft,
    a2: Draft,
    b: Draft,
    b2: Draft,
    first: bool,
    value: Option<Seq<char>>,
)
    requires
        same_growth(a, a2, b, b2),
    ensures
        same_growth(
            a,
            search_condition(a2, first, value),
            b,
            search_condition(b2, first, value),
        ),
{
    match value {
        Some(term) => {
            let ph = sql::placeholder(a2.args.len() + 1);
            let v = SqlView::Text("%"@ + term + "%"@);
            lemma_grow_hold(a, a2, b, b2, v);
            let (a3, b3) = (a2.hold(v), b2.hold(v));
            lemma_grow_join(a, a3, b, b3, first);
            let (a4, b4) = (joined(a3, first), joined(b3, first));
            lemma_grow_text(a, a4, b, b4, "(username ILIKE "@);
            let (a5, b5) = (a4.text("(username ILIKE "@), b4.text("(username ILIKE "@));
            lemma_grow_text(a, a5, b, b5, ph);
            let (a6, b6) = (a5.text(ph), b5.text(ph));
            let s6 = " OR COALESCE(display_name, '') ILIKE "@;
            lemma_grow_text(a, a6, b, b6, s6);
            let (a7, b7) = (a6.text(s6), b6.text(s6));
            lemma_grow_text(a, a7, b, b7, ph);
            let (a8, b8) = (a7.text(ph), b7.text(ph));
            let s8 = " OR filename ILIKE "@;
            lemma_grow_text(a, a8, b, b8, s8);
            let (a9, b9) = (a8.text(s8), b8.text(s8));
            lemma_grow_text(a, a9, b, b9, ph);
            let (a10, b10) = (a9.text(ph), b9.text(ph));
            let s10 = " OR COALESCE(problem_label, '') ILIKE "@;
            lemma_grow_text(a, a10, b, b10, s10);
            let (a11, b11) = (a10.text(s10), b10.text(s10));
            lemma_grow_text(a, a11, b, b11, ph);
            lemma_grow_text(a, a11.text(ph), b, b11.text(ph), ")"@);
        },
        None => {},
    }
}

proof fn lemma_filter_tail(a: Draft, b: Draft, f: JobFilters)
    requires
        a.args.len() == b.args.len(),
    ensures
        same_growth(a, filtered(a, f), b, filtered(b, f)),
{
    assert(a.sql.take(a.sql.len() as int) =~= a.sql);
    assert(b.sql.take(b.sql.len() as int) =~= b.sql);
    assert(a.args.take(a.args.len() as int) =~= a.args);
    assert(b.args.take(b.args.len() as int) =~= b.args);
    assert(a.sql.skip(a.sql.len() as int) =~= b.sql.skip(b.sql.len() as int));
    assert(a.args.skip(a.args.len() as int) =~= b.args.skip(b.args.len() as int));
    let status = wanted(f.status);
    let station = wanted(f.station);
    let printer = wanted(f.printer);
    lemma_grow_condition(a, a, b, b, true, "status = "@, status);
    let a1 = text_condition(a, true, "status = "@, status);
    let b1 = text_condition(b, true, "status = "@, status);
    let f1 = status is None;
    let (a2, b2) = match f.contest_id {
        Some(c) => {
            (
                joined(a1, f1).text("contest_id = "@).value(SqlView::Int(c as int)),
                joined(b1, f1).text("contest_id = "@).value(SqlView::Int(c as int)),
            )
        },
        None => (a1, b1),
    };
    match f.contest_id {
        Some(c) => {
            lemma_grow_join(a, a1, b, b1, f1);
            lemma_grow_text(a, joined(a1, f1), b, joined(b1, f1), "contest_id = "@);
            lemma_grow_value(
                a,
                joined(a1, f1).text("contest_id = "@),
                b,
                joined(b1, f1).text("contest_id = "@),
                SqlView::Int(c as int),
            );
        },
        None => {},
    }
    let f2 = f1 && f.contest_id is None;
    lemma_grow_condition(a, a2, b, b2, f2, "claimed_by = "@, station);
    let a3 = text_condition(a2, f2, "claimed_by = "@, station);
    let b3 = text_condition(b2, f2, "claimed_by = "@, station);
    let f3 = f2 && station is None;
    lemma_grow_condition(a, a3, b, b3, f3, "claimed_printer = "@, printer);
    let a4 = text_condition(a3, f3, "claimed_printer = "@, printer);
    let b4 = text_condition(b3, f3, "claimed_printer = "@, printer);
    let f4 = f3 && printer is None;
    lemma_grow_search(a, a4, b, b4, f4, searched(f.search));
}

// ---------------------------------------------------------------------------
// Stations
// ---------------------------------------------------------------------------

/// The jobs that a station may claim: the pending ones, of its contest, for its
/// location or for any.
pub open spec fn claimable_jobs(contest_filter: Option<i32>, location: Option<Seq<char>>) -> Term {
    let pending = within_contest(
        statement::bin(BinOp::Equal, Term::Column("status"@), bound_text(status::PENDING@)),
        contest_filter,
    );
    match location {
        Some(l) => if l.len() > 0 {
            statement::bin(
                BinOp::And,
                pending,
                Term::Group(
                    Box::new(
                        statement::bin(
                            BinOp::Or,
                            Term::IsNull(Box::new(Term::Column("location"@))),
                            statement::bin(
                                BinOp::Equal,
                                Term::Column("location"@),
                                bound_text(l),
                            ),
                        ),
                    ),
                ),
            )
        } else {
            pending
        },
        None => pending,
    }
}

pub open spec fn station_jobs_draft(
    contest_filter: Option<i32>,
    location: Option<Seq<char>>,
    limit: int,
) -> Draft {
    statement::write(
        claimable_jobs(contest_filter, location),
        Draft::empty().text("SELECT "@).text(STATION_JOB_COLS@).text(" FROM print_job WHERE "@),
    ).text(" ORDER BY created_at ASC LIMIT "@).value(SqlView::Int(clamp(limit, 1, 100)))
}

/// The jobs that a station may claim, the oldest first.
pub fn list_station_jobs(
    contest_filter: Option<i32>,
    location: &Option<String>,
    limit: i64,
) -> (r: Query)
    ensures
        sql::draft_of(r) == station_jobs_draft(
            contest_filter,
            text::opt_view(*location),
            limit as int,
        ),
{
    let mut q = QueryBuilder::new();
    q.text("SELECT ");
    q.text(STATION_JOB_COLS);
    q.text(" FROM print_job WHERE ");
    let ghost before = q@;
    q.text("status");
    q.text(" = ");
    q.string(status::PENDING);
    let ghost pending = statement::bin(
        BinOp::Equal,
        Term::Column("status"@),
        bound_text(status::PENDING@),
    );
    proof {
        reveal_with_fuel(statement::write, 2);
    }
    add_contest(&mut q, contest_filter);
    proof {
        lemma_in_contest(pending, contest_filter, before);
    }
    match location {
        Some(l) => {
            if !l.as_str().is_empty() {
                q.text(" AND ");
                q.text("(");
                q.text("location");
                q.text(" IS NULL");
                q.text(" OR ");
                q.text("location");
                q.text(" = ");
                q.string(l.as_str());
                q.text(")");
                proof {
                    reveal_with_fuel(statement::write, 5);
                }
            }
        },
        None => {},
    }
    q.text(" ORDER BY created_at ASC LIMIT ");
    q.number(clamp_i64(limit, 1, 100));
    q.finish()
}

/// The job with this id, where it has this status, or has another.
pub open spec fn this_job_if(id: i64, op: BinOp, status: Seq<char>) -> Term {
    statement::bin(
        BinOp::And,
        this_job(id),
        statement::bin(op, Term::Column("status"@), Term::Word(status)),
    )
}

pub open spec fn claim_update(
    id: i64,
    station: Seq<char>,
    printer: Option<String>,
    contest_filter: Option<i32>,
) -> Update {
    Update {
        table: "print_job"@,
        sets: seq![
            ("status"@, Term::Word("claimed"@)),
            ("claimed_by"@, bound_text(station)),
            ("claimed_printer"@, statement::optional(sql::text_of(printer))),
            ("claimed_at"@, Term::Now),
        ],
        guard: within_contest(this_job_if(id, BinOp::Equal, "pending"@), contest_filter),
    }
}

pub open spec fn claim_draft(
    id: i64,
    station: Seq<char>,
    printer: Option<String>,
    contest_filter: Option<i32>,
) -> Draft {
    claim_update(id, station, printer, contest_filter).draft()
}

fn write_word(q: &mut QueryBuilder, word: &str)
    ensures
        final(q)@ == statement::write(Term::Word(word@), old(q)@),
{
    q.text("'");
    q.text(word);
    q.text("'");
}

/// The statement that claims a job. Only a pending job can be claimed; one
/// changed row means that the claim was won.
pub fn claim_job(
    id: i64,
    station: &str,
    printer: &Option<String>,
    contest_filter: Option<i32>,
) -> (r: Query)
    ensures
        sql::draft_of(r) == claim_draft(id, station@, *printer, contest_filter),
{
    let ghost stmt = claim_update(id, station@, *printer, contest_filter);
    let mut q = QueryBuilder::new();
    q.text("UPDATE ");
    q.text("print_job");
    q.text(" SET ");
    let ghost begun = q@;
    q.text("status");
    q.text(" = ");
    write_word(&mut q, "claimed");
    q.text(", ");
    q.text("claimed_by");
    q.text(" = ");
    q.string(station);
    q.text(", ");
    q.text("claimed_printer");
    q.text(" = ");
    q.maybe_string(printer);
    q.text(", ");
    q.text("claimed_at");
    q.text(" = ");
    q.text("NOW()");
    proof {
        reveal_with_fuel(statement::write_sets, 5);
        assert(q@ == statement::write_sets(stmt.sets, 4, begun));
    }
    q.text(" WHERE ");
    let ghost before = q@;
    write_this_job(&mut q, id);
    q.text(" AND ");
    q.text("status");
    q.text(" = ");
    write_word(&mut q, "pending");
    proof {
        reveal_with_fuel(statement::write, 3);
    }
    add_contest(&mut q, contest_filter);
    proof {
        lemma_in_contest(
            this_job_if(id, BinOp::Equal, "pending"@),
            contest_filter,
            before,
        );
    }
    q.finish()
}

pub open spec fn status_update(
    id: i64,
    new_status: Seq<char>,
    pages: Option<i32>,
    error: Option<String>,
    contest_filter: Option<i32>,
) -> Update {
    let sets = seq![
        ("status"@, bound_text(new_status)),
        ("error"@, statement::optional(sql::text_of(error))),
    ];
    let counted = match pages {
        Some(n) => sets.push(("pages"@, bound_int(n as int))),
        None => sets,
    };
    Update {
        table: "print_job"@,
        sets: if new_status == status::DONE@ || new_status == status::FAILED@ {
            counted.push(("printed_at"@, Term::Now))
        } else {
            counted
        },
        guard: within_contest(this_job(id), contest_filter),
    }
}

pub open spec fn status_draft(
    id: i64,
    new_status: Seq<char>,
    pages: Option<i32>,
    error: Option<String>,
    contest_filter: Option<i32>,
) -> Draft {
    status_update(id, new_status, pages, error, contest_filter).draft()
}

/// The statement that takes in a station's report. A finished job gets its
/// time.
pub fn set_status(
    id: i64,
    new_status: &str,
    pages: Option<i32>,
    error: &Option<String>,
    contest_filter: Option<i32>,
) -> (r: Query)
    ensures
        sql::draft_of(r) == status_draft(id, new_status@, pages, *error, contest_filter),
{
    let ghost stmt = status_update(id, new_status@, pages, *error, contest_filter);
    let mut q = QueryBuilder::new();
    q.text("UPDATE ");
    q.text("print_job");
    q.text(" SET ");
    let ghost begun = q@;
    q.text("status");
    q.text(" = ");
    q.string(new_status);
    q.text(", ");
    q.text("error");
    q.text(" = ");
    q.maybe_string(error);
    match pages {
        Some(n) => {
            q.text(", ");
            q.text("pages");
            q.text(" = ");
            q.number(n as i64);
        },
        None => {},
    }
    if str_eq(new_status, status::DONE) || str_eq(new_status, status::FAILED) {
        q.text(", ");
        q.text("printed_at");
        q.text(" = ");
        q.text("NOW()");
    }
    proof {
        reveal_with_fuel(statement::write_sets, 5);
        assert(q@ == statement::write_sets(stmt.sets, stmt.sets.len() as int, begun));
    }
    q.text(" WHERE ");
    let ghost before = q@;
    write_this_job(&mut q, id);
    add_contest(&mut q, contest_filter);
    proof {
        lemma_in_contest(this_job(id), contest_filter, before);
    }
    q.finish()
}

// ---------------------------------------------------------------------------
// Staff
// ---------------------------------------------------------------------------

pub open spec fn approve_update(id: i64) -> Update {
    Update {
        table: "print_job"@,
        sets: seq![("status"@, Term::Word("pending"@))],
        guard: this_job_if(id, BinOp::Equal, "pending_approval"@),
    }
}

pub open spec fn approve_draft(id: i64) -> Draft {
    approve_update(id).draft()
}

/// Only a job that awaits approval is approved.
pub fn approve_job(id: i64) -> (r: Query)
    ensures
        sql::draft_of(r) == approve_draft(id),
{
    let mut q = QueryBuilder::new();
    q.text("UPDATE ");
    q.text("print_job");
    q.text(" SET ");
    q.text("status");
    q.text(" = ");
    write_word(&mut q, "pending");
    q.text(" WHERE ");
    write_this_job(&mut q, id);
    q.text(" AND ");
    q.text("status");
    q.text(" = ");
    write_word(&mut q, "pending_approval");
    proof {
        reveal_with_fuel(statement::write, 3);
    }
    q.finish()
}

pub open spec fn cancel_update(id: i64) -> Update {
    Update {
        table: "print_job"@,
        sets: seq![("status"@, Term::Word("canceled"@))],
        guard: this_job_if(id, BinOp::Differs, "done"@),
    }
}

pub open spec fn cancel_draft(id: i64) -> Draft {
    cancel_update(id).draft()
}

/// A job can be canceled unless it has been printed.
pub fn cancel_job(id: i64) -> (r: Query)
    ensures
        sql::draft_of(r) == cancel_draft(id),
{
    let mut q = QueryBuilder::new();
    q.text("UPDATE ");
    q.text("print_job");
    q.text(" SET ");
    q.text("status");
    q.text(" = ");
    write_word(&mut q, "canceled");
    q.text(" WHERE ");
    write_this_job(&mut q, id);
    q.text(" AND ");
    q.text("status");
    q.text(" <> ");
    write_word(&mut q, "done");
    proof {
        reveal_with_fuel(statement::write, 3);
    }
    q.finish()
}

pub open spec fn pin_update(id: i64, printer: Option<String>) -> Update {
    Update {
        table: "print_job"@,
        sets: seq![
            (
                "target_printer"@,
                match wanted(printer) {
                    Some(p) => bound_text(p),
                    None => Term::Null,
                },
            ),
            ("status"@, Term::Word("pending"@)),
            ("claimed_by"@, Term::Null),
            ("claimed_printer"@, Term::Null),
            ("error"@, Term::Null),
        ],
        guard: this_job(id),
    }
}

pub open spec fn pin_draft(id: i64, printer: Option<String>) -> Draft {
    pin_update(id, printer).draft()
}

fn write_cleared(q: &mut QueryBuilder, column: &str)
    ensures
        final(q)@ == statement::write(
            Term::Null,
            old(q)@.text(", "@).text(column@).text(" = "@),
        ),
{
    q.text(", ");
    q.text(column);
    q.text(" = ");
    q.text("NULL");
}

/// Sends a job to a printer, or to any, and puts it back into the queue.
pub fn pin_job(id: i64, printer: &Option<String>) -> (r: Query)
    ensures
        sql::draft_of(r) == pin_draft(id, *printer),
{
    let ghost stmt = pin_update(id, *printer);
    let mut q = QueryBuilder::new();
    q.text("UPDATE ");
    q.text("print_job");
    q.text(" SET ");
    let ghost begun = q@;
    q.text("target_printer");
    q.text(" = ");
    match printer {
        Some(p) => if p.as_str().is_empty() {
            q.text("NULL");
        } else {
            q.string(p.as_str());
        },
        None => {
            q.text("NULL");
        },
    }
    q.text(", ");
    q.text("status");
    q.text(" = ");
    write_word(&mut q, "pending");
    write_cleared(&mut q, "claimed_by");
    write_cleared(&mut q, "claimed_printer");
    write_cleared(&mut q, "error");
    proof {
        reveal_with_fuel(statement::write_sets, 6);
        assert(q@ == statement::write_sets(stmt.sets, 5, begun));
    }
    q.text(" WHERE ");
    write_this_job(&mut q, id);
    q.finish()
}

pub open spec fn reprint_update(id: i64) -> Update {
    Update {
        table: "print_job"@,
        sets: seq![
            ("status"@, Term::Word("pending"@)),
            ("claimed_by"@, Term::Null),
            ("claimed_printer"@, Term::Null),
            ("claimed_at"@, Term::Null),
            ("printed_at"@, Term::Null),
            ("error"@, Term::Null),
            ("pages"@, Term::Null),
        ],
        guard: this_job(id),
    }
}

pub open spec fn reprint_draft(id: i64) -> Draft {
    reprint_update(id).draft()
}

/// Puts a job back into the queue.
pub fn reprint_job(id: i64) -> (r: Query)
    ensures
        sql::draft_of(r) == reprint_draft(id),
{
    let ghost stmt = reprint_update(id);
    let mut q = QueryBuilder::new();
    q.text("UPDATE ");
    q.text("print_job");
    q.text(" SET ");
    let ghost begun = q@;
    q.text("status");
    q.text(" = ");
    write_word(&mut q, "pending");
    write_cleared(&mut q, "claimed_by");
    write_cleared(&mut q, "claimed_printer");
    write_cleared(&mut q, "claimed_at");
    write_cleared(&mut q, "printed_at");
    write_cleared(&mut q, "error");
    write_cleared(&mut q, "pages");
    proof {
        reveal_with_fuel(statement::write_sets, 8);
        assert(q@ == statement::write_sets(stmt.sets, 7, begun));
    }
    q.text(" WHERE ");
    write_this_job(&mut q, id);
    q.finish()
}

} // verus!
