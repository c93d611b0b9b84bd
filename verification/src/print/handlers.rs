//! What the print service does with a request.

use vstd::prelude::*;

use crate::checkers::types::SourceFile;
use crate::http::{HttpError, HttpRequest};
use crate::print::config::PrintConfig;
use crate::print::jobs::{JobFilters, NewJob, ProblemLabelRow};
use crate::print::models::{
    estimate_pages, problem_letter, ArbitraryJobRequest, StatusRequest, LINES_PER_PAGE,
    MAX_SOURCE_CHARS, WRAP_COLS,
};
use crate::print::status;
use crate::text::{chars_of, concat, decimal_i64, is_control_char, string_of_range, trim};
use crate::http;
use crate::letters;
use crate::print::models;
use crate::text;

verus! {

/// The longest name of a printed file.
pub const MAX_FILENAME_LEN: usize = 200;

// ---------------------------------------------------------------------------
// File names
// ---------------------------------------------------------------------------

pub open spec fn is_separator(c: char) -> bool {
    c == '/' || c == '\\'
}

/// What follows the last separator.
pub open spec fn basename(s: Seq<char>) -> Seq<char>
    decreases s.len(),
{
    if s.len() == 0 || is_separator(s.last()) {
        seq![]
    } else {
        basename(s.drop_last()).push(s.last())
    }
}

pub open spec fn without_leading_dots(s: Seq<char>) -> Seq<char>
    decreases s.len(),
{
    if s.len() > 0 && s[0] == '.' {
        without_leading_dots(s.drop_first())
    } else {
        s
    }
}

pub open spec fn without_trailing_dots(s: Seq<char>) -> Seq<char>
    decreases s.len(),
{
    if s.len() > 0 && s.last() == '.' {
        without_trailing_dots(s.drop_last())
    } else {
        s
    }
}

pub open spec fn printable(s: Seq<char>) -> Seq<char>
    decreases s.len(),
{
    if s.len() == 0 {
        seq![]
    } else if text::is_control(s.last()) {
        printable(s.drop_last())
    } else {
        printable(s.drop_last()).push(s.last())
    }
}

pub open spec fn first_chars(s: Seq<char>, n: int) -> Seq<char> {
    if s.len() > n {
        s.take(n)
    } else {
        s
    }
}

/// The name under which a file is printed: the last part of its path, without
/// surrounding white space and dots, without control characters, and not too
/// long; the default where nothing is left.
pub open spec fn safe_name(raw: Seq<char>, default: Seq<char>) -> Seq<char> {
    let base = without_trailing_dots(without_leading_dots(text::trim_spec(basename(raw))));
    let cleaned = first_chars(printable(base), MAX_FILENAME_LEN as int);
    if cleaned.len() == 0 {
        default
    } else {
        cleaned
    }
}

proof fn lemma_basename(s: Seq<char>, from: int)
    requires
        0 <= from <= s.len(),
        from > 0 ==> is_separator(s[from - 1]),
        forall|i: int| from <= i < s.len() ==> !is_separator(#[trigger] s[i]),
    ensures
        basename(s) == s.skip(from),
    decreases s.len(),
{
    if s.len() == from {
        assert(s.skip(from) =~= seq![]);
        if from > 0 {
            assert(s.last() == s[from - 1]);
        }
    } else {
        lemma_basename(s.drop_last(), from);
        assert(s.last() == s[s.len() - 1]);
        assert(s.skip(from) =~= s.drop_last().skip(from).push(s.last()));
    }
}

proof fn lemma_leading_dots(s: Seq<char>, from: int)
    requires
        0 <= from <= s.len(),
        forall|i: int| 0 <= i < from ==> #[trigger] s[i] == '.',
        from < s.len() ==> s[from] != '.',
    ensures
        without_leading_dots(s) == s.skip(from),
    decreases s.len(),
{
    if from > 0 {
        lemma_leading_dots(s.drop_first(), from - 1);
        assert(s.drop_first().skip(from - 1) =~= s.skip(from));
    } else {
        assert(s.skip(0) =~= s);
    }
}

proof fn lemma_trailing_dots(s: Seq<char>, to: int)
    requires
        0 <= to <= s.len(),
        forall|i: int| to <= i < s.len() ==> #[trigger] s[i] == '.',
        to > 0 ==> s[to - 1] != '.',
    ensures
        without_trailing_dots(s) == s.take(to),
    decreases s.len(),
{
    if to < s.len() {
        assert(s.last() == s[s.len() - 1]);
        lemma_trailing_dots(s.drop_last(), to);
        assert(s.drop_last().take(to) =~= s.take(to));
    } else {
        assert(s.take(to) =~= s);
        if to > 0 {
            assert(s.last() == s[to - 1]);
        }
    }
}

fn base_of(raw: &str) -> (r: String)
    ensures
        r@ == basename(raw@),
{
    let chars = chars_of(raw);
    let n: usize = chars.len();
    let mut from: usize = n;
    while from > 0 && chars[from - 1] != '/' && chars[from - 1] != '\\'
        invariant
            from <= n == chars@.len(),
            forall|i: int| from <= i < n ==> !is_separator(#[trigger] chars@[i]),
        decreases from,
    {
        from -= 1;
    }
    proof {
        lemma_basename(chars@, from as int);
        assert(chars@.subrange(from as int, n as int) =~= chars@.skip(from as int));
    }
    string_of_range(&chars, from, n)
}

fn without_dots(s: &str) -> (r: Vec<char>)
    ensures
        r@ == without_trailing_dots(without_leading_dots(s@)),
{
    let chars = chars_of(s);
    let n: usize = chars.len();
    let mut from: usize = 0;
    while from < n && chars[from] == '.'
        invariant
            from <= n == chars@.len(),
            forall|i: int| 0 <= i < from ==> #[trigger] chars@[i] == '.',
        decreases n - from,
    {
        from += 1;
    }
    let mut to: usize = n;
    while to > from && chars[to - 1] == '.'
        invariant
            from <= to <= n == chars@.len(),
            forall|i: int| to <= i < n ==> #[trigger] chars@[i] == '.',
        decreases to,
    {
        to -= 1;
    }
    let ghost mid = chars@.skip(from as int);
    proof {
        lemma_leading_dots(chars@, from as int);
        assert forall|i: int| to - from <= i < mid.len() implies #[trigger] mid[i] == '.' by {
            assert(mid[i] == chars@[i + from]);
        }
        if to > from {
            assert(mid[to - from - 1] == chars@[to - 1]);
        }
        lemma_trailing_dots(mid, to - from);
    }
    let mut out: Vec<char> = Vec::new();
    let mut i: usize = from;
    while i < to
        invariant
            from <= i <= to <= chars@.len(),
            out@ == chars@.subrange(from as int, i as int),
        decreases to - i,
    {
        out.push(chars[i]);
        assert(out@ =~= chars@.subrange(from as int, i as int + 1));
        i += 1;
    }
    assert(out@ =~= mid.take(to - from));
    out
}

pub fn sanitize_filename(raw: &str, default: &str) -> (r: String)
    ensures
        r@ == safe_name(raw@, default@),
{
    let trimmed = trim(base_of(raw).as_str());
    let base = without_dots(trimmed.as_str());
    let mut kept: Vec<char> = Vec::new();
    let mut i: usize = 0;
    assert(base@.take(0) =~= Seq::<char>::empty());
    while i < base.len()
        invariant
            i <= base@.len(),
            kept@ == printable(base@.take(i as int)),
        decreases base@.len() - i,
    {
        assert(base@.take(i as int + 1).drop_last() =~= base@.take(i as int));
        assert(base@.take(i as int + 1).last() == base@[i as int]);
        if !is_control_char(base[i]) {
            kept.push(base[i]);
        }
        i += 1;
    }
    assert(base@.take(i as int) =~= base@);
    let n: usize = if kept.len() > MAX_FILENAME_LEN {
        MAX_FILENAME_LEN
    } else {
        kept.len()
    };
    if n == 0 {
        return default.to_owned();
    }
    assert(kept@.subrange(0, n as int) =~= first_chars(printable(base@), MAX_FILENAME_LEN as int));
    string_of_range(&kept, 0, n)
}

/// Unless it is the default, a printed name holds neither separators nor
/// control characters, is not empty, and is not too long.
pub proof fn printed_names_are_safe(raw: Seq<char>, default: Seq<char>)
    ensures
        safe_name(raw, default) == default || {
            &&& 0 < safe_name(raw, default).len() <= MAX_FILENAME_LEN
            &&& forall|i: int|
                0 <= i < safe_name(raw, default).len() ==> !is_separator(
                    #[trigger] safe_name(raw, default)[i],
                ) && !text::is_control(safe_name(raw, default)[i])
        },
{
    let b = basename(raw);
    let t = text::trim_spec(b);
    let l = without_leading_dots(t);
    let d = without_trailing_dots(l);
    let p = printable(d);
    lemma_printable_part(d);
    let name = safe_name(raw, default);
    if name != default {
        assert forall|i: int| 0 <= i < name.len() implies !is_separator(#[trigger] name[i])
            && !text::is_control(name[i]) by {
            let c = p[i];
            assert(name[i] == c);
            lemma_trailing_part(l, c);
            lemma_leading_part(t, c);
            lemma_trim_end_part(text::trim_start_spec(b), c);
            lemma_trim_start_part(b, c);
            lemma_basename_clean(raw, c);
        }
    }
}

proof fn lemma_basename_clean(s: Seq<char>, c: char)
    requires
        basename(s).contains(c),
    ensures
        !is_separator(c),
    decreases s.len(),
{
    if s.len() > 0 && !is_separator(s.last()) && c != s.last() {
        let all = basename(s);
        let k = choose|k: int| 0 <= k < all.len() && all[k] == c;
        assert(basename(s.drop_last())[k] == c);
        lemma_basename_clean(s.drop_last(), c);
    }
}

proof fn lemma_first_part(s: Seq<char>, c: char)
    requires
        s.len() > 0,
        s.drop_first().contains(c),
    ensures
        s.contains(c),
{
    let t = s.drop_first();
    let k = choose|k: int| 0 <= k < t.len() && t[k] == c;
    assert(s[k + 1] == c);
}

proof fn lemma_last_part(s: Seq<char>, c: char)
    requires
        s.len() > 0,
        s.drop_last().contains(c),
    ensures
        s.contains(c),
{
    let t = s.drop_last();
    let k = choose|k: int| 0 <= k < t.len() && t[k] == c;
    assert(s[k] == c);
}

proof fn lemma_trim_start_part(s: Seq<char>, c: char)
    requires
        text::trim_start_spec(s).contains(c),
    ensures
        s.contains(c),
    decreases s.len(),
{
    if s.len() > 0 && text::is_white(s[0]) {
        lemma_trim_start_part(s.drop_first(), c);
        lemma_first_part(s, c);
    }
}

proof fn lemma_trim_end_part(s: Seq<char>, c: char)
    requires
        text::trim_end_spec(s).contains(c),
    ensures
        s.contains(c),
    decreases s.len(),
{
    if s.len() > 0 && text::is_white(s.last()) {
        lemma_trim_end_part(s.drop_last(), c);
        lemma_last_part(s, c);
    }
}

proof fn lemma_leading_part(s: Seq<char>, c: char)
    requires
        without_leading_dots(s).contains(c),
    ensures
        s.contains(c),
    decreases s.len(),
{
    if s.len() > 0 && s[0] == '.' {
        lemma_leading_part(s.drop_first(), c);
        lemma_first_part(s, c);
    }
}

proof fn lemma_trailing_part(s: Seq<char>, c: char)
    requires
        without_trailing_dots(s).contains(c),
    ensures
        s.contains(c),
    decreases s.len(),
{
    if s.len() > 0 && s.last() == '.' {
        lemma_trailing_part(s.drop_last(), c);
        lemma_last_part(s, c);
    }
}

proof fn lemma_printable_part(s: Seq<char>)
    ensures
        forall|i: int|
            0 <= i < printable(s).len() ==> !text::is_control(#[trigger] printable(s)[i])
                && s.contains(printable(s)[i]),
    decreases s.len(),
{
    if s.len() > 0 {
        let rest = s.drop_last();
        lemma_printable_part(rest);
        assert forall|i: int| 0 <= i < printable(s).len() implies !text::is_control(
            #[trigger] printable(s)[i],
        ) && s.contains(printable(s)[i]) by {
            if i < printable(rest).len() {
                assert(printable(s)[i] == printable(rest)[i]);
                let k = choose|k: int| 0 <= k < rest.len() && rest[k] == printable(rest)[i];
                assert(s[k] == printable(s)[i]);
            } else {
                assert(s[s.len() - 1] == s.last());
            }
        }
    }
}

// ---------------------------------------------------------------------------
// Printing
// ---------------------------------------------------------------------------

/// The state of a new job.
pub open spec fn initial_status(require_approval: bool) -> Seq<char> {
    if require_approval {
        status::PENDING_APPROVAL@
    } else {
        status::PENDING@
    }
}

pub fn new_job_status(require_approval: bool) -> (r: &'static str)
    ensures
        r@ == initial_status(require_approval),
{
    if require_approval {
        status::PENDING_APPROVAL
    } else {
        status::PENDING
    }
}

/// The label of a problem: its own, or its letter.
pub open spec fn label_of(row: ProblemLabelRow) -> Seq<char> {
    if text::trim_spec(row.label@).len() == 0 {
        letters::letters_of(
            if row.position < 0 {
                0
            } else {
                row.position as nat
            },
        )
    } else {
        row.label@
    }
}

/// The label that is printed, where the problem is known.
pub open spec fn shown_label(row: Option<ProblemLabelRow>) -> Option<Seq<char>> {
    match row {
        Some(p) => Some(label_of(p)),
        None => None,
    }
}

pub fn problem_label(row: &Option<ProblemLabelRow>) -> (r: Option<String>)
    ensures
        text::opt_view(r) == shown_label(*row),
{
    match row {
        Some(p) => if trim(p.label.as_str()).as_str().is_empty() {
            Some(problem_letter(p.position))
        } else {
            Some(p.label.clone())
        },
        None => None,
    }
}

/// A submission to print.
#[derive(Debug, Clone, PartialEq, Eq)]
pub struct SubmissionRow {
    pub files: Vec<SourceFile>,
    pub language: String,
    pub user_id: i32,
    pub username: String,
    pub contest_id: Option<i32>,
    pub problem_id: i32,
}

/// Who prints which submission.
#[derive(Debug, Clone, Copy, PartialEq, Eq, Structural)]
pub struct PrintSubmission {
    pub contest_id: i32,
    pub submission_id: i32,
    pub user_id: i32,
}

/// Reads a request to print a submission.
pub fn read_print_submission(req: &HttpRequest) -> (r: Result<PrintSubmission, HttpError>)
    ensures
        ({
            let contest = http::int_at(req.params@, "contest_id"@, i32::MIN as int, i32::MAX as int);
            let submission = http::int_at(
                req.params@,
                "submission_id"@,
                i32::MIN as int,
                i32::MAX as int,
            );
            match r {
                Ok(p) => {
                    &&& contest == Some(p.contest_id as int)
                    &&& submission == Some(p.submission_id as int)
                    &&& req.auth matches Some(a) && a.user_id == p.user_id
                },
                Err(e) => if contest is None {
                    http::error_is(e, 400, "Invalid "@ + "contest_id"@)
                } else if submission is None {
                    http::error_is(e, 400, "Invalid "@ + "submission_id"@)
                } else {
                    req.auth is None && http::error_is(e, 401, "Authentication required"@)
                },
            }
        }),
{
    let contest_id = match req.path_i32("contest_id") {
        Ok(v) => v,
        Err(e) => {
            return Err(e);
        },
    };
    let submission_id = match req.path_i32("submission_id") {
        Ok(v) => v,
        Err(e) => {
            return Err(e);
        },
    };
    match req.require_login() {
        Ok(user_id) => Ok(PrintSubmission { contest_id, submission_id, user_id }),
        Err(e) => Err(e),
    }
}

/// Whether the sender is staff.
pub open spec fn staff(req: HttpRequest) -> bool {
    req.permitted("contest:manage"@) || req.permitted("submission:view_all"@)
}

pub fn is_staff(req: &HttpRequest) -> (r: bool)
    ensures
        r == staff(*req),
{
    req.has_permission("contest:manage") || req.has_permission("submission:view_all")
}

/// Whether the submission may be printed: it has to be there, to be the
/// sender's own unless they are staff, and to belong to the contest.
pub open spec fn authorizes(
    who: PrintSubmission,
    staff: bool,
    config: PrintConfig,
    sub: Option<SubmissionRow>,
    r: Result<(), HttpError>,
) -> bool {
    if !config.enabled {
        r matches Err(e) && http::error_is(e, 403, "Printing is disabled for this contest"@)
    } else {
        match sub {
            None => r matches Err(e) && http::error_is(e, 404, "Submission not found"@),
            Some(s) => if s.user_id != who.user_id && !staff {
                r matches Err(e) && http::error_is(
                    e,
                    403,
                    "You can only print your own submissions"@,
                )
            } else if s.contest_id != Some(who.contest_id) {
                r matches Err(e) && http::error_is(e, 404, "Submission not found"@)
            } else {
                r is Ok
            },
        }
    }
}

pub fn authorize_submission(
    who: PrintSubmission,
    staff: bool,
    config: &PrintConfig,
    sub: &Option<SubmissionRow>,
) -> (r: Result<(), HttpError>)
    ensures
        authorizes(who, staff, *config, *sub, r),
{
    if !config.enabled {
        return Err(HttpError::new(403, "Printing is disabled for this contest"));
    }
    match sub {
        None => Err(HttpError::new(404, "Submission not found")),
        Some(s) => {
            if s.user_id != who.user_id && !staff {
                return Err(HttpError::new(403, "You can only print your own submissions"));
            }
            match s.contest_id {
                Some(c) => if c == who.contest_id {
                    Ok(())
                } else {
                    Err(HttpError::new(404, "Submission not found"))
                },
                None => Err(HttpError::new(404, "Submission not found")),
            }
        },
    }
}

/// The pages of a document, as they are counted.
pub open spec fn pages_of(source: Seq<char>) -> i32 {
    models::page_count(source, WRAP_COLS as nat, LINES_PER_PAGE as nat) as i32
}

/// Whether a file can be printed.
pub open spec fn file_fits(f: SourceFile, max_pages: i32) -> bool {
    f.content@.len() <= MAX_SOURCE_CHARS && pages_of(f.content@) <= max_pages
}

/// Why a file cannot be printed.
pub open spec fn file_refusal(e: HttpError, f: SourceFile, max_pages: i32) -> bool {
    if f.content@.len() > MAX_SOURCE_CHARS {
        http::error_is(e, 413, f.filename@ + " is too large to print"@)
    } else {
        http::error_is(
            e,
            413,
            f.filename@ + " is too long ("@ + text::decimal_int(pages_of(f.content@) as int)
                + " pages, limit "@ + text::decimal_int(max_pages as int) + ")"@,
        )
    }
}

/// The job that prints a file of a submission.
pub open spec fn submission_job(
    job: NewJob,
    who: PrintSubmission,
    sub: SubmissionRow,
    label: Option<Seq<char>>,
    f: SourceFile,
    require_approval: bool,
) -> bool {
    &&& job.contest_id == Some(who.contest_id)
    &&& job.user_id == sub.user_id
    &&& job.username == sub.username
    &&& job.display_name == Some(sub.username)
    &&& text::opt_view(job.problem_label) == label
    &&& job.submission_id == Some(who.submission_id)
    &&& job.language == sub.language
    &&& job.filename@ == safe_name(f.filename@, "submission.txt"@)
    &&& job.source == f.content
    &&& job.pages_est == pages_of(f.content@)
    &&& job.status@ == initial_status(require_approval)
}

/// The pages of all jobs together.
pub open spec fn sum_pages(jobs: Seq<NewJob>) -> int
    decreases jobs.len(),
{
    if jobs.len() == 0 {
        0
    } else {
        sum_pages(jobs.drop_last()) + jobs.last().pages_est
    }
}

/// The jobs of a submission, and what is answered.
#[derive(Debug, Clone, PartialEq, Eq)]
pub struct PrintPlan {
    pub jobs: Vec<NewJob>,
    pub pages: i128,
    pub status: String,
}

/// One job for each file; the first file that cannot be printed refuses them
/// all.
pub open spec fn plans(
    who: PrintSubmission,
    config: PrintConfig,
    sub: SubmissionRow,
    label: Option<ProblemLabelRow>,
    r: Result<PrintPlan, HttpError>,
) -> bool {
    match r {
        Ok(plan) => {
            &&& sub.files@.len() > 0
            &&& forall|i: int|
                0 <= i < sub.files@.len() ==> file_fits(
                    #[trigger] sub.files@[i],
                    config.max_pages,
                )
            &&& plan.jobs@.len() == sub.files@.len()
            &&& forall|i: int|
                0 <= i < plan.jobs@.len() ==> submission_job(
                    #[trigger] plan.jobs@[i],
                    who,
                    sub,
                    shown_label(label),
                    sub.files@[i],
                    config.require_approval,
                )
            &&& plan.pages == sum_pages(plan.jobs@)
            &&& plan.status@ == initial_status(config.require_approval)
        },
        Err(e) => if sub.files@.len() == 0 {
            http::error_is(e, 400, "Submission has no files to print"@)
        } else {
            exists|i: int|
                {
                    &&& 0 <= i < sub.files@.len()
                    &&& !file_fits(#[trigger] sub.files@[i], config.max_pages)
                    &&& file_refusal(e, sub.files@[i], config.max_pages)
                    &&& forall|k: int|
                        0 <= k < i ==> file_fits(#[trigger] sub.files@[k], config.max_pages)
                }
        },
    }
}

pub fn plan_submission(
    who: PrintSubmission,
    config: &PrintConfig,
    sub: &SubmissionRow,
    label: &Option<ProblemLabelRow>,
) -> (r: Result<PrintPlan, HttpError>)
    ensures
        plans(who, *config, *sub, *label, r),
{
    if sub.files.len() == 0 {
        return Err(HttpError::new(400, "Submission has no files to print"));
    }
    let mut jobs: Vec<NewJob> = Vec::new();
    let mut pages: i128 = 0;
    let mut i: usize = 0;
    while i < sub.files.len()
        invariant
            i <= sub.files@.len(),
            sub.files@.len() > 0,
            jobs@.len() == i,
            forall|k: int| 0 <= k < i ==> file_fits(#[trigger] sub.files@[k], config.max_pages),
            forall|k: int|
                0 <= k < i ==> submission_job(
                    #[trigger] jobs@[k],
                    who,
                    *sub,
                    shown_label(*label),
                    sub.files@[k],
                    config.require_approval,
                ),
            pages == sum_pages(jobs@),
            -0x8000_0000 * i <= pages <= 0x8000_0000 * i,
        decreases sub.files@.len() - i,
    {
        let f = &sub.files[i];
        let chars = chars_of(f.content.as_str());
        if chars.len() > MAX_SOURCE_CHARS {
            assert(!file_fits(sub.files@[i as int], config.max_pages));
            return Err(
                HttpError::new(
                    413,
                    concat(f.filename.as_str(), " is too large to print").as_str(),
                ),
            );
        }
        let count: i32 = estimate_pages(f.content.as_str());
        if count > config.max_pages {
            let mut message = concat(f.filename.as_str(), " is too long (");
            message.append(decimal_i64(count as i64).as_str());
            message.append(" pages, limit ");
            message.append(decimal_i64(config.max_pages as i64).as_str());
            message.append(")");
            assert(!file_fits(sub.files@[i as int], config.max_pages));
            return Err(HttpError::new(413, message.as_str()));
        }
        let ghost before = jobs@;
        jobs.push(
            NewJob {
                contest_id: Some(who.contest_id),
                user_id: sub.user_id,
                username: sub.username.clone(),
                display_name: Some(sub.username.clone()),
                problem_label: problem_label(label),
                submission_id: Some(who.submission_id),
                language: sub.language.clone(),
                filename: sanitize_filename(f.filename.as_str(), "submission.txt"),
                source: f.content.clone(),
                pages_est: count,
                status: new_job_status(config.require_approval).to_owned(),
            },
        );
        assert(jobs@.drop_last() =~= before);
        pages = pages + count as i128;
        i += 1;
    }
    Ok(PrintPlan { jobs, pages, status: new_job_status(config.require_approval).to_owned() })
}

/// An accepted submission is printed whole: every file, once and in order.
pub proof fn submissions_print_whole(
    who: PrintSubmission,
    config: PrintConfig,
    sub: SubmissionRow,
    label: Option<ProblemLabelRow>,
    plan: PrintPlan,
)
    requires
        plans(who, config, sub, label, Ok(plan)),
    ensures
        plan.jobs@.map_values(|j: NewJob| j.source) == sub.files@.map_values(
            |f: SourceFile| f.content,
        ),
{
    assert(plan.jobs@.map_values(|j: NewJob| j.source) =~= sub.files@.map_values(
        |f: SourceFile| f.content,
    ));
}

/// Whether a document can be taken: not empty, and not too large.
pub open spec fn takes_document(source: Seq<char>, r: Result<(), HttpError>) -> bool {
    if text::trim_spec(source).len() == 0 {
        r matches Err(e) && http::error_is(e, 400, "Nothing to print"@)
    } else if source.len() > MAX_SOURCE_CHARS {
        r matches Err(e) && http::error_is(e, 413, "Document is too large to print"@)
    } else {
        r is Ok
    }
}

pub fn check_document(source: &str) -> (r: Result<(), HttpError>)
    ensures
        takes_document(source@, r),
{
    if trim(source).as_str().is_empty() {
        return Err(HttpError::new(400, "Nothing to print"));
    }
    let chars = chars_of(source);
    if chars.len() > MAX_SOURCE_CHARS {
        return Err(HttpError::new(413, "Document is too large to print"));
    }
    Ok(())
}

/// Whether a document may be printed under these settings, and on how many
/// pages.
pub open spec fn counts_pages(
    config: PrintConfig,
    source: Seq<char>,
    r: Result<i32, HttpError>,
) -> bool {
    if !config.enabled {
        r matches Err(e) && http::error_is(e, 403, "Printing is disabled for this contest"@)
    } else if pages_of(source) > config.max_pages {
        r matches Err(e) && http::error_is(
            e,
            413,
            "Too long to print ("@ + text::decimal_int(pages_of(source) as int)
                + " pages, limit "@ + text::decimal_int(config.max_pages as int) + ")"@,
        )
    } else {
        r == Ok::<i32, HttpError>(pages_of(source))
    }
}

pub fn check_pages(config: &PrintConfig, source: &str) -> (r: Result<i32, HttpError>)
    ensures
        counts_pages(*config, source@, r),
{
    if !config.enabled {
        return Err(HttpError::new(403, "Printing is disabled for this contest"));
    }
    let pages: i32 = estimate_pages(source);
    if pages > config.max_pages {
        let mut message = concat("Too long to print (", decimal_i64(pages as i64).as_str());
        message.append(" pages, limit ");
        message.append(decimal_i64(config.max_pages as i64).as_str());
        message.append(")");
        return Err(HttpError::new(413, message.as_str()));
    }
    Ok(pages)
}

/// The language of a document; plain text where none is named.
pub open spec fn document_language(language: Option<String>) -> Seq<char> {
    match language {
        Some(l) => if text::trim_spec(l@).len() > 0 {
            text::trim_spec(l@)
        } else {
            "text"@
        },
        None => "text"@,
    }
}

/// The job that prints a document.
pub open spec fn document_job(
    job: NewJob,
    config: PrintConfig,
    user_id: i32,
    username: Seq<char>,
    body: ArbitraryJobRequest,
    label: Option<ProblemLabelRow>,
    pages: i32,
) -> bool {
    &&& job.contest_id == body.contest_id
    &&& job.user_id == user_id
    &&& job.username@ == username
    &&& text::opt_view(job.display_name) == Some(username)
    &&& text::opt_view(job.problem_label) == shown_label(label)
    &&& job.submission_id is None
    &&& job.language@ == document_language(body.language)
    &&& job.filename@ == safe_name(body.filename@, "print.txt"@)
    &&& job.source == body.source
    &&& job.pages_est == pages
    &&& job.status@ == initial_status(config.require_approval)
}

pub fn arbitrary_job(
    config: &PrintConfig,
    user_id: i32,
    username: &str,
    body: &ArbitraryJobRequest,
    label: &Option<ProblemLabelRow>,
    pages: i32,
) -> (job: NewJob)
    ensures
        document_job(job, *config, user_id, username@, *body, *label, pages),
{
    let language = match &body.language {
        Some(l) => {
            let t = trim(l.as_str());
            if t.as_str().is_empty() {
                "text".to_owned()
            } else {
                t
            }
        },
        None => "text".to_owned(),
    };
    NewJob {
        contest_id: body.contest_id,
        user_id,
        username: username.to_owned(),
        display_name: Some(username.to_owned()),
        problem_label: problem_label(label),
        submission_id: None,
        language,
        filename: sanitize_filename(body.filename.as_str(), "print.txt"),
        source: body.source.clone(),
        pages_est: pages,
        status: new_job_status(config.require_approval).to_owned(),
    }
}

// ---------------------------------------------------------------------------
// Lists
// ---------------------------------------------------------------------------

pub open spec fn page_of(req: HttpRequest) -> int {
    match http::int_at(req.query@, "page"@, i64::MIN as int, i64::MAX as int) {
        Some(v) => if v < 1 {
            1
        } else {
            v
        },
        None => 1,
    }
}

pub open spec fn per_page_of(req: HttpRequest) -> int {
    match http::int_at(req.query@, "per_page"@, i64::MIN as int, i64::MAX as int) {
        Some(v) => if v < 1 {
            1
        } else if v > 200 {
            200
        } else {
            v
        },
        None => 25,
    }
}

/// What the staff asks for. A search may be given under either of two names.
pub open spec fn filters_are(req: HttpRequest, r: JobFilters) -> bool {
    &&& r.page == page_of(req)
    &&& r.per_page == per_page_of(req)
    &&& text::opt_view(r.status) == http::text_at(req.query@, "status"@)
    &&& r.contest_id == (match http::int_at(
        req.query@,
        "contest_id"@,
        i32::MIN as int,
        i32::MAX as int,
    ) {
        Some(v) => Some(v as i32),
        None => None,
    })
    &&& text::opt_view(r.station) == http::text_at(req.query@, "station"@)
    &&& text::opt_view(r.printer) == http::text_at(req.query@, "printer"@)
    &&& text::opt_view(r.search) == (match http::text_at(req.query@, "search"@) {
        Some(s) => Some(s),
        None => http::text_at(req.query@, "q"@),
    })
    &&& r.sort_by@ == (match http::text_at(req.query@, "sort_by"@) {
        Some(s) => s,
        None => "created_at"@,
    })
    &&& r.sort_order@ == (match http::text_at(req.query@, "sort_order"@) {
        Some(s) => s,
        None => "desc"@,
    })
}

pub fn admin_filters(req: &HttpRequest) -> (r: JobFilters)
    ensures
        filters_are(*req, r),
{
    let page: i64 = match req.query_i64("page") {
        Some(v) => if v < 1 {
            1
        } else {
            v
        },
        None => 1,
    };
    let per_page: i64 = match req.query_i64("per_page") {
        Some(v) => if v < 1 {
            1
        } else if v > 200 {
            200
        } else {
            v
        },
        None => 25,
    };
    let search = match req.query_text("search") {
        Some(s) => Some(s),
        None => req.query_text("q"),
    };
    let sort_by = match req.query_text("sort_by") {
        Some(s) => s,
        None => "created_at".to_owned(),
    };
    let sort_order = match req.query_text("sort_order") {
        Some(s) => s,
        None => "desc".to_owned(),
    };
    JobFilters {
        status: req.query_text("status"),
        contest_id: req.query_i32("contest_id"),
        station: req.query_text("station"),
        printer: req.query_text("printer"),
        search,
        page,
        per_page,
        sort_by,
        sort_order,
    }
}

/// The number of pages that hold this many rows; one at least.
pub fn total_pages(total: i64, per_page: i64) -> (r: i64)
    requires
        1 <= per_page <= 200,
    ensures
        r >= 1,
        total <= 0 ==> r == 1,
        total > 0 ==> (r - 1) * per_page < total <= r * per_page,
{
    if total <= 0 {
        return 1;
    }
    let t: u64 = total as u64;
    let p: u64 = per_page as u64;
    let whole: u64 = t / p;
    let rest: u64 = t % p;
    proof {
        vstd::arithmetic::div_mod::lemma_fundamental_div_mod(t as int, p as int);
        assert(whole <= t) by (nonlinear_arith)
            requires
                whole == t / p,
                p >= 1,
        ;
        assert(p * whole == whole * p) by (nonlinear_arith);
        assert((whole + 1) * p == whole * p + p) by (nonlinear_arith);
        assert((whole - 1) * p == whole * p - p) by (nonlinear_arith);
        if rest > 0 && whole == i64::MAX {
            assert(whole * p >= whole) by (nonlinear_arith)
                requires
                    p >= 1,
            ;
        }
        if rest == 0 {
            assert(whole >= 1) by (nonlinear_arith)
                requires
                    t == whole * p,
                    t > 0,
            ;
        }
    }
    if rest == 0 {
        whole as i64
    } else {
        (whole + 1) as i64
    }
}

/// How many jobs a station asks for.
pub open spec fn limit_of(req: HttpRequest) -> int {
    match http::int_at(req.query@, "limit"@, i64::MIN as int, i64::MAX as int) {
        Some(v) => v,
        None => 20,
    }
}

pub fn station_limit(req: &HttpRequest) -> (r: i64)
    ensures
        r == limit_of(*req),
{
    match req.query_i64("limit") {
        Some(v) => v,
        None => 20,
    }
}

// ---------------------------------------------------------------------------
// Answers to changes
// ---------------------------------------------------------------------------

/// What is changed about a job.
#[derive(Debug, Clone, Copy, PartialEq, Eq, Structural)]
pub enum JobChange {
    Approve,
    Reprint,
    Cancel,
    Pin,
    Claim,
    Report,
}

/// What is answered where a change reached no job.
pub open spec fn refusal_of(change: JobChange) -> (u16, Seq<char>) {
    match change {
        JobChange::Approve => (409, "Job is not awaiting approval"@),
        JobChange::Reprint => (404, "Job not found"@),
        JobChange::Cancel => (409, "Job cannot be canceled"@),
        JobChange::Pin => (404, "Job not found"@),
        JobChange::Claim => (409, "Job already claimed or not available"@),
        JobChange::Report => (404, "Job not found"@),
    }
}

/// A change that reached exactly one job was made; any other is refused.
pub fn change_answer(change: JobChange, affected: u64) -> (r: Result<(), HttpError>)
    ensures
        match r {
            Ok(_) => affected == 1,
            Err(e) => affected != 1 && http::error_is(e, refusal_of(change).0, refusal_of(change).1),
        },
{
    if affected == 1 {
        return Ok(());
    }
    match change {
        JobChange::Approve => Err(HttpError::new(409, "Job is not awaiting approval")),
        JobChange::Reprint => Err(HttpError::new(404, "Job not found")),
        JobChange::Cancel => Err(HttpError::new(409, "Job cannot be canceled")),
        JobChange::Pin => Err(HttpError::new(404, "Job not found")),
        JobChange::Claim => Err(HttpError::new(409, "Job already claimed or not available")),
        JobChange::Report => Err(HttpError::new(404, "Job not found")),
    }
}

/// Whether a station may report this.
pub fn check_report(report: &StatusRequest) -> (r: Result<(), HttpError>)
    ensures
        match r {
            Ok(_) => status::settable(report.status@),
            Err(e) => !status::settable(report.status@) && http::error_is(e, 400, "Invalid status"@),
        },
{
    if status::is_settable(report.status.as_str()) {
        Ok(())
    } else {
        Err(HttpError::new(400, "Invalid status"))
    }
}

} // verus!
