//! The station's round: poll, claim, render, print, report.

use vstd::prelude::*;

use crate::client::api::{ClaimOutcome, Job, Report};
use crate::client::config::{Config, PrinterCfg};
use crate::client::pdf::DocMeta;
use crate::judging::copy_opt_text;
use crate::text::{chars_of, concat, concat3, decimal, decimal_i64, str_eq};
use crate::text;
use crate::print::status;

verus! {

// ---------------------------------------------------------------------------
// Jobs and printers
// ---------------------------------------------------------------------------

/// A job goes to the printer that it asks for, by name or by queue, or to any.
pub open spec fn suits(printer: PrinterCfg, job: Job) -> bool {
    match job.target_printer {
        None => true,
        Some(t) => t@.len() == 0 || t@ == printer.name@ || text::opt_view(printer.os_id) == Some(t@),
    }
}

pub fn printer_matches(printer: &PrinterCfg, job: &Job) -> (r: bool)
    ensures
        r == suits(*printer, *job),
{
    match &job.target_printer {
        None => true,
        Some(t) => {
            if t.as_str().is_empty() || str_eq(t.as_str(), printer.name.as_str()) {
                return true;
            }
            match &printer.os_id {
                Some(id) => str_eq(id.as_str(), t.as_str()),
                None => false,
            }
        },
    }
}

/// Whether a year of the Gregorian calendar has a day more.
pub open spec fn is_leap(year: int) -> bool {
    year % 4 == 0 && (year % 100 != 0 || year % 400 == 0)
}

/// The days of a month, counted from one.
pub open spec fn month_days(year: int, month: int) -> int {
    if month == 2 {
        if is_leap(year) {
            29
        } else {
            28
        }
    } else if month == 4 || month == 6 || month == 9 || month == 11 {
        30
    } else {
        31
    }
}

/// The days of a year before a month of it.
pub open spec fn days_before_month(year: int, month: int) -> int
    decreases month,
{
    if month <= 1 {
        0
    } else {
        days_before_month(year, month - 1) + month_days(year, month - 1)
    }
}

/// The days from the year one on before a year.
pub open spec fn days_before_year(year: int) -> int {
    365 * (year - 1) + (year - 1) / 4 - (year - 1) / 100 + (year - 1) / 400
}

/// A day, counted from the first one of 1970.
pub open spec fn day_number(year: int, month: int, day: int) -> int {
    days_before_year(year) - days_before_year(1970) + days_before_month(year, month) + day - 1
}

/// A clock that stands at `t` seconds after the start of 1970 shows this month,
/// day, hour and minute.
pub open spec fn shows(t: int, month: int, day: int, hour: int, minute: int) -> bool {
    &&& 1 <= month <= 12
    &&& exists|year: int|
        1 <= day <= month_days(year, month) && #[trigger] day_number(year, month, day) == t / 86_400
    &&& hour == (t % 86_400) / 3_600
    &&& minute == (t % 3_600) / 60
}

/// The time that is shown: the one asked for, or the start of 1970 where its
/// year is out of range.
pub open spec fn known(secs: i64) -> int {
    if -8_334_601_228_800 <= secs <= 8_210_266_876_799 {
        secs as int
    } else {
        0
    }
}

/// A local time: less than a day from `t`.
pub open spec fn near(t: int, there: int) -> bool {
    -86_400 < there - t < 86_400
}

/// What a clock of some zone shows at `t`.
pub open spec fn shown_near(t: int, r: (u32, u32, u32, u32)) -> bool {
    exists|there: int| #[trigger]
        near(t, there) && shows(there, r.0 as int, r.1 as int, r.2 as int, r.3 as int)
}

/// `DateTime::from_timestamp` and `with_timezone` of chrono, then `month` and
/// `day` of its `Datelike` and `hour` and `minute` of its `Timelike`: what a
/// clock of the machine's zone shows at a time. An offset from UTC is less than a
/// day, and a time beyond the years that chrono has becomes the start of 1970.
/// Which offset it is rests with the machine.
#[verifier::external_body]
fn local_time(secs: i64) -> (r: (u32, u32, u32, u32))
    ensures
        shown_near(known(secs), r),
{
    let dt = chrono::DateTime::from_timestamp(secs, 0)
        .map(|dt| dt.with_timezone(&chrono::Local))
        .unwrap_or_default();
    (
        chrono::Datelike::month(&dt),
        chrono::Datelike::day(&dt),
        chrono::Timelike::hour(&dt),
        chrono::Timelike::minute(&dt),
    )
}

/// A number below a hundred, in two digits.
pub open spec fn two_digits(n: nat) -> Seq<char> {
    seq![text::digit_char(n / 10), text::digit_char(n % 10)]
}

/// A month, day, hour and minute as they are printed, as in `03-09 17:05`.
pub open spec fn when_text(month: nat, day: nat, hour: nat, minute: nat) -> Seq<char> {
    two_digits(month) + seq!['-'] + two_digits(day) + seq![' '] + two_digits(hour) + seq![':']
        + two_digits(minute)
}

fn push_two_digits(out: &mut String, n: u32)
    requires
        n < 100,
    ensures
        final(out)@ == old(out)@ + two_digits(n as nat),
{
    let tens: u8 = (n / 10) as u8;
    let ones: u8 = (n % 10) as u8;
    out.push((48 + tens) as char);
    out.push((48 + ones) as char);
    assert(out@ =~= old(out)@ + two_digits(n as nat));
}

/// Writes a month, day, hour and minute, each in two digits.
pub fn moment_text(month: u32, day: u32, hour: u32, minute: u32) -> (r: String)
    requires
        month < 100,
        day < 100,
        hour < 100,
        minute < 100,
    ensures
        r@ == when_text(month as nat, day as nat, hour as nat, minute as nat),
{
    let mut out = String::new();
    push_two_digits(&mut out, month);
    out.push('-');
    push_two_digits(&mut out, day);
    out.push(' ');
    push_two_digits(&mut out, hour);
    out.push(':');
    push_two_digits(&mut out, minute);
    assert(out@ =~= when_text(month as nat, day as nat, hour as nat, minute as nat));
    out
}

pub open spec fn is_digit(c: char) -> bool {
    '0' <= c <= '9'
}

/// A text with a digit, or the mark that belongs there, in each of its eleven
/// places.
pub open spec fn has_moment_form(s: Seq<char>) -> bool {
    &&& s.len() == 11
    &&& s[2] == '-'
    &&& s[5] == ' '
    &&& s[8] == ':'
    &&& forall|i: int|
        0 <= i < 11 && i != 2 && i != 5 && i != 8 ==> is_digit(#[trigger] s[i])
}

/// The text of what a clock of some zone shows at `t`.
pub open spec fn told_near(t: int, s: Seq<char>) -> bool {
    exists|there: int, month: int, day: int, hour: int, minute: int|
        {
            &&& near(t, there)
            &&& #[trigger] shows(there, month, day, hour, minute)
            &&& s == when_text(month as nat, day as nat, hour as nat, minute as nat)
        }
}

/// Every time is told in eleven characters.
pub proof fn moments_have_one_form(t: int, s: Seq<char>)
    requires
        told_near(t, s),
    ensures
        has_moment_form(s),
{
}

/// A clock shows one month, day, hour and minute at a time.
pub proof fn a_clock_shows_one_moment(
    t: int,
    month: int,
    day: int,
    hour: int,
    minute: int,
    other: (int, int, int, int),
)
    requires
        shows(t, month, day, hour, minute),
        shows(t, other.0, other.1, other.2, other.3),
    ensures
        (month, day, hour, minute) == other,
{
    let y = choose|y: int|
        1 <= day <= month_days(y, month) && #[trigger] day_number(y, month, day) == t / 86_400;
    let z = choose|z: int|
        1 <= other.1 <= month_days(z, other.0) && #[trigger] day_number(z, other.0, other.1)
            == t / 86_400;
    lemma_day_in_year(y, month, day);
    lemma_day_in_year(z, other.0, other.1);
    if y < z {
        lemma_years_grow(y + 1, z);
    } else if z < y {
        lemma_years_grow(z + 1, y);
    } else if month < other.0 {
        lemma_months_grow(y, month, other.0);
    } else if other.0 < month {
        lemma_months_grow(y, other.0, month);
    }
}

proof fn lemma_months_grow(year: int, month: int, later: int)
    requires
        1 <= month < later,
    ensures
        days_before_month(year, month) + month_days(year, month) <= days_before_month(year, later),
    decreases later,
{
    if month < later - 1 {
        lemma_months_grow(year, month, later - 1);
    }
}

proof fn lemma_years_grow(year: int, later: int)
    requires
        year <= later,
    ensures
        days_before_year(year) <= days_before_year(later),
    decreases later - year,
{
    if year < later {
        lemma_years_grow(year, later - 1);
        lemma_year_length(later - 1);
    }
}

proof fn lemma_year_length(year: int)
    ensures
        days_before_year(year + 1) == days_before_year(year) + if is_leap(year) {
            366int
        } else {
            365
        },
{
}

proof fn lemma_day_in_year(year: int, month: int, day: int)
    requires
        1 <= month <= 12,
        1 <= day <= month_days(year, month),
    ensures
        days_before_year(year) <= day_number(year, month, day) + days_before_year(1970)
            < days_before_year(year + 1),
{
    reveal_with_fuel(days_before_month, 13);
    lemma_year_length(year);
}

/// When a job was made, in local time; empty where that is unknown. Which zone's
/// clock is read rests with the machine.
pub fn format_when(epoch: Option<i64>) -> (r: String)
    ensures
        epoch is None ==> r@.len() == 0,
        epoch matches Some(secs) ==> told_near(known(secs), r@) && has_moment_form(r@),
{
    match epoch {
        Some(secs) => {
            let (month, day, hour, minute) = local_time(secs);
            proof {
                let there = choose|there: int| #[trigger]
                    near(known(secs), there) && shows(
                        there,
                        month as int,
                        day as int,
                        hour as int,
                        minute as int,
                    );
                assert(shows(there, month as int, day as int, hour as int, minute as int));
            }
            let text = moment_text(month, day, hour, minute);
            proof {
                moments_have_one_form(known(secs), text@);
            }
            text
        },
        None => String::new(),
    }
}

/// Who a job is from: the display name, or else the user name.
pub open spec fn author(job: Job) -> Seq<char> {
    match job.display_name {
        Some(n) => if n@.len() > 0 {
            n@
        } else {
            job.username@
        },
        None => job.username@,
    }
}

/// What is printed around a job.
pub open spec fn meta_is(m: DocMeta, banner: Seq<char>, job: Job, when: Seq<char>) -> bool {
    &&& m.banner@ == banner
    &&& text::opt_view(m.problem_label) == text::opt_view(job.problem_label)
    &&& m.who@ == author(job)
    &&& m.filename@ == if job.filename@.len() == 0 {
        "print.txt"@
    } else {
        job.filename@
    }
    &&& m.when@ == when
    &&& m.job_id == job.id
}

pub fn job_meta(banner: &str, job: &Job, when: String) -> (r: DocMeta)
    ensures
        meta_is(r, banner@, *job, when@),
{
    let who = match &job.display_name {
        Some(n) => if n.as_str().is_empty() {
            job.username.as_str().to_owned()
        } else {
            n.as_str().to_owned()
        },
        None => job.username.as_str().to_owned(),
    };
    let filename = if job.filename.as_str().is_empty() {
        "print.txt".to_owned()
    } else {
        job.filename.as_str().to_owned()
    };
    DocMeta {
        banner: banner.to_owned(),
        problem_label: copy_opt_text(&job.problem_label),
        who,
        filename,
        when,
        job_id: job.id,
    }
}

pub open spec fn is_plain(c: char) -> bool {
    ('a' <= c && c <= 'z') || ('A' <= c && c <= 'Z') || ('0' <= c && c <= '9') || c == '.' || c
        == '-'
}

/// A name with only letters, digits, dots, dashes and underscores.
pub open spec fn plain_name(s: Seq<char>) -> Seq<char> {
    s.map_values(
        |c: char|
            if is_plain(c) {
                c
            } else {
                '_'
            },
    )
}

/// The name of the file that a job is rendered to.
pub fn temp_pdf_name(job: &Job) -> (r: String)
    ensures
        r@ == "broccoli-print-"@ + text::decimal_int(job.id as int) + "-"@ + plain_name(job.filename@)
            + ".pdf"@,
{
    let chars = chars_of(job.filename.as_str());
    let mut safe = String::new();
    let mut i: usize = 0;
    assert(safe@ =~= plain_name(chars@.take(0)));
    while i < chars.len()
        invariant
            i <= chars@.len(),
            safe@ == plain_name(chars@.take(i as int)),
        decreases chars@.len() - i,
    {
        let c: char = chars[i];
        let ghost before = safe@;
        if ('a' <= c && c <= 'z') || ('A' <= c && c <= 'Z') || ('0' <= c && c <= '9') || c == '.'
            || c == '-' {
            safe.push(c);
        } else {
            safe.push('_');
        }
        assert(chars@.take(i as int + 1) =~= chars@.take(i as int).push(c));
        assert(safe@ =~= plain_name(chars@.take(i as int + 1)));
        i += 1;
    }
    assert(chars@.take(i as int) =~= chars@);
    let number = decimal_i64(job.id);
    let start = concat3("broccoli-print-", number.as_str(), "-");
    concat3(start.as_str(), safe.as_str(), ".pdf")
}

// ---------------------------------------------------------------------------
// One job
// ---------------------------------------------------------------------------

pub open spec fn report_is(
    r: Report,
    status: Seq<char>,
    pages: Option<u32>,
    error: Option<Seq<char>>,
) -> bool {
    r.status@ == status && r.pages == pages && text::opt_view(r.error) == error
}

/// The first report on a job that is being printed.
pub fn starting_report() -> (r: Report)
    ensures
        report_is(r, "printing"@, None, None),
{
    Report { status: "printing".to_owned(), pages: None, error: None }
}

/// What is said of a document that is too long.
pub open spec fn too_long(pages: nat, max_pages: nat) -> Seq<char> {
    text::decimal_digits(pages) + " pages exceeds limit "@ + text::decimal_digits(max_pages)
}

/// After rendering: nothing to report where the document can be printed, else
/// the report that ends the job.
pub fn after_render(rendered: &Result<usize, String>, max_pages: u32) -> (r: Option<Report>)
    ensures
        match *rendered {
            Err(e) => r matches Some(rep) && report_is(
                rep,
                "failed"@,
                None,
                Some("render error: "@ + e@),
            ),
            Ok(pages) => if pages as u32 > max_pages {
                r matches Some(rep) && report_is(
                    rep,
                    "failed"@,
                    Some(pages as u32),
                    Some(too_long(pages as nat, max_pages as nat)),
                )
            } else {
                r is None
            },
        },
{
    match rendered {
        Err(e) => Some(
            Report {
                status: "failed".to_owned(),
                pages: None,
                error: Some(concat("render error: ", e.as_str())),
            },
        ),
        Ok(pages) => {
            let count: u32 = *pages as u32;
            if count > max_pages {
                let n = decimal(*pages as u64);
                let max = decimal(max_pages as u64);
                Some(
                    Report {
                        status: "failed".to_owned(),
                        pages: Some(count),
                        error: Some(concat3(n.as_str(), " pages exceeds limit ", max.as_str())),
                    },
                )
            } else {
                None
            }
        },
    }
}

/// The report on a document that could not be kept for printing.
pub fn unwritten_report() -> (r: Report)
    ensures
        report_is(r, "failed"@, None, Some("temp file error"@)),
{
    Report { status: "failed".to_owned(), pages: None, error: Some("temp file error".to_owned()) }
}

/// The report after printing.
pub fn after_print(pages: usize, printed: &Result<(), String>) -> (r: Report)
    ensures
        match *printed {
            Ok(_) => report_is(r, "done"@, Some(pages as u32), None),
            Err(e) => report_is(r, "failed"@, Some(pages as u32), Some(e@)),
        },
{
    match printed {
        Ok(_) => Report { status: "done".to_owned(), pages: Some(pages as u32), error: None },
        Err(e) => Report {
            status: "failed".to_owned(),
            pages: Some(pages as u32),
            error: Some(e.as_str().to_owned()),
        },
    }
}

/// Every report of a station is one that servers take.
pub proof fn reports_are_settable(
    r: Report,
    pages: Option<u32>,
    error: Option<Seq<char>>,
)
    requires
        report_is(r, "printing"@, pages, error) || report_is(r, "failed"@, pages, error)
            || report_is(r, "done"@, pages, error),
    ensures
        status::settable(r.status@),
{
}

// ---------------------------------------------------------------------------
// Claims
// ---------------------------------------------------------------------------

/// How a claim fared.
#[derive(Debug, Clone, Copy, PartialEq, Eq, Structural)]
pub enum ClaimEvent {
    Claimed,
    Taken,
    Failed,
}

/// How a claim fared, by what was read from its reply.
pub fn claim_event(read: &Result<ClaimOutcome, String>) -> (r: ClaimEvent)
    ensures
        r == match *read {
            Ok(ClaimOutcome::Claimed) => ClaimEvent::Claimed,
            Ok(ClaimOutcome::Taken) => ClaimEvent::Taken,
            Err(_) => ClaimEvent::Failed,
        },
{
    match read {
        Ok(ClaimOutcome::Claimed) => ClaimEvent::Claimed,
        Ok(ClaimOutcome::Taken) => ClaimEvent::Taken,
        Err(_) => ClaimEvent::Failed,
    }
}

/// One round of claims: each printer in turn tries the jobs in turn, until it
/// has one.
#[derive(Debug, Clone, PartialEq, Eq)]
pub struct ClaimRound {
    pub printer: usize,
    pub job: usize,
    pub handled: Vec<i64>,
    pub claims: Vec<(usize, usize)>,
}

/// A printer may try a job that suits it and that no one is known to have.
pub open spec fn may_try(
    printers: Seq<PrinterCfg>,
    jobs: Seq<Job>,
    handled: Seq<i64>,
    p: int,
    j: int,
) -> bool {
    !handled.contains(jobs[j].id) && suits(printers[p], jobs[j])
}

/// Nothing in the rows from `(p0, j0)` up to `(p, j)` may be tried.
pub open spec fn nothing_between(
    printers: Seq<PrinterCfg>,
    jobs: Seq<Job>,
    handled: Seq<i64>,
    from: (int, int),
    to: (int, int),
) -> bool {
    forall|p: int, j: int|
        0 <= p < printers.len() && 0 <= j < jobs.len() && (p > from.0 || (p == from.0 && j
            >= from.1)) && (p < to.0 || (p == to.0 && j < to.1)) ==> !#[trigger] may_try(
            printers,
            jobs,
            handled,
            p,
            j,
        )
}

impl ClaimRound {
    /// The claims so far: one for a printer at most, in order, of jobs that suit
    /// and differ.
    pub open spec fn wf(self, printers: Seq<PrinterCfg>, jobs: Seq<Job>) -> bool {
        &&& self.printer <= printers.len()
        &&& self.job <= jobs.len()
        &&& forall|i: int|
            0 <= i < self.claims@.len() ==> {
                let c = #[trigger] self.claims@[i];
                &&& c.0 < self.printer
                &&& c.1 < jobs.len()
                &&& suits(printers[c.0 as int], jobs[c.1 as int])
                &&& self.handled@.contains(jobs[c.1 as int].id)
            }
        &&& forall|i: int, k: int|
            0 <= i < k < self.claims@.len() ==> (#[trigger] self.claims@[i]).0 < (
            #[trigger] self.claims@[k]).0 && jobs[self.claims@[i].1 as int].id
                != jobs[self.claims@[k].1 as int].id
    }

    pub open spec fn at(self) -> (int, int) {
        (self.printer as int, self.job as int)
    }

    /// The state before the first claim.
    pub fn new() -> (r: Self)
        ensures
            r.at() == (0int, 0int),
            r.handled@.len() == 0,
            r.claims@.len() == 0,
            forall|printers: Seq<PrinterCfg>, jobs: Seq<Job>| #[trigger] r.wf(printers, jobs),
    {
        ClaimRound { printer: 0, job: 0, handled: Vec::new(), claims: Vec::new() }
    }

    fn is_handled(&self, id: i64) -> (r: bool)
        ensures
            r == self.handled@.contains(id),
    {
        let mut i: usize = 0;
        while i < self.handled.len()
            invariant
                i <= self.handled@.len(),
                forall|k: int| 0 <= k < i ==> self.handled@[k] != id,
            decreases self.handled@.len() - i,
        {
            if self.handled[i] == id {
                return true;
            }
            i += 1;
        }
        false
    }

    /// Goes to the next claim to make, passing over what may not be tried.
    pub fn next(&mut self, printers: &Vec<PrinterCfg>, jobs: &Vec<Job>) -> (r: Option<
        (usize, usize),
    >)
        requires
            old(self).wf(printers@, jobs@),
        ensures
            final(self).wf(printers@, jobs@),
            final(self).handled@ == old(self).handled@,
            final(self).claims@ == old(self).claims@,
            match r {
                Some(a) => {
                    &&& a.0 < printers@.len() && a.1 < jobs@.len()
                    &&& final(self).at() == (a.0 as int, a.1 as int)
                    &&& may_try(printers@, jobs@, old(self).handled@, a.0 as int, a.1 as int)
                    &&& nothing_between(
                        printers@,
                        jobs@,
                        old(self).handled@,
                        old(self).at(),
                        final(self).at(),
                    )
                },
                None => nothing_between(
                    printers@,
                    jobs@,
                    old(self).handled@,
                    old(self).at(),
                    (printers@.len() as int, 0int),
                ),
            },
    {
        let ghost from = self.at();
        let ghost handled = self.handled@;
        let ghost claims = self.claims@;
        while self.printer < printers.len()
            invariant
                self.wf(printers@, jobs@),
                self.handled@ == handled,
                self.claims@ == claims,
                handled == old(self).handled@,
                claims == old(self).claims@,
                from == old(self).at(),
                nothing_between(printers@, jobs@, handled, from, self.at()),
            decreases printers@.len() - self.printer, jobs@.len() - self.job,
        {
            if self.job >= jobs.len() {
                self.printer = self.printer + 1;
                self.job = 0;
            } else if !self.is_handled(jobs[self.job].id) && printer_matches(
                &printers[self.printer],
                &jobs[self.job],
            ) {
                return Some((self.printer, self.job));
            } else {
                assert(!may_try(printers@, jobs@, handled, self.printer as int, self.job as int));
                self.job = self.job + 1;
            }
        }
        None
    }

    /// Takes in how the claim at hand fared. A printer that has a job is done.
    pub fn on_claim(&mut self, printers: &Vec<PrinterCfg>, jobs: &Vec<Job>, event: ClaimEvent)
        requires
            old(self).wf(printers@, jobs@),
            old(self).printer < printers@.len(),
            old(self).job < jobs@.len(),
            may_try(printers@, jobs@, old(self).handled@, old(self).at().0, old(self).at().1),
        ensures
            final(self).wf(printers@, jobs@),
            match event {
                ClaimEvent::Claimed => {
                    &&& final(self).at() == (old(self).at().0 + 1, 0int)
                    &&& final(self).handled@ == old(self).handled@.push(
                        jobs@[old(self).job as int].id,
                    )
                    &&& final(self).claims@ == old(self).claims@.push(
                        (old(self).printer, old(self).job),
                    )
                },
                ClaimEvent::Taken => {
                    &&& final(self).at() == (old(self).at().0, old(self).at().1 + 1)
                    &&& final(self).handled@ == old(self).handled@.push(
                        jobs@[old(self).job as int].id,
                    )
                    &&& final(self).claims@ == old(self).claims@
                },
                ClaimEvent::Failed => {
                    &&& final(self).at() == (old(self).at().0, old(self).at().1 + 1)
                    &&& final(self).handled@ == old(self).handled@
                    &&& final(self).claims@ == old(self).claims@
                },
            },
    {
        let ghost h0 = self.handled@;
        let ghost c0 = self.claims@;
        let id: i64 = jobs[self.job].id;
        let last_printer: usize = printers.len();
        let last_job: usize = jobs.len();
        assert(self.printer < last_printer && self.job < last_job);
        match event {
            ClaimEvent::Claimed => {
                self.handled.push(id);
                self.claims.push((self.printer, self.job));
                self.printer = self.printer + 1;
                self.job = 0;
            },
            ClaimEvent::Taken => {
                self.handled.push(id);
                self.job = self.job + 1;
            },
            ClaimEvent::Failed => {
                self.job = self.job + 1;
            },
        }
        proof {
            if !(event is Failed) {
                assert(self.handled@.last() == id);
                assert(self.handled@.contains(id));
                assert forall|x: i64| h0.contains(x) implies #[trigger] self.handled@.contains(
                    x,
                ) by {
                    let k = choose|k: int| 0 <= k < h0.len() && h0[k] == x;
                    assert(self.handled@[k] == x);
                }
            }
            assert forall|i: int| 0 <= i < self.claims@.len() implies ({
                let c = #[trigger] self.claims@[i];
                &&& c.0 < self.printer
                &&& c.1 < jobs@.len()
                &&& suits(printers@[c.0 as int], jobs@[c.1 as int])
                &&& self.handled@.contains(jobs@[c.1 as int].id)
            }) by {
                if i < c0.len() {
                    assert(self.claims@[i] == c0[i]);
                }
            }
        }
    }
}

/// A round gives a printer one job at most.
pub proof fn one_job_per_printer(
    round: ClaimRound,
    printers: Seq<PrinterCfg>,
    jobs: Seq<Job>,
    i: int,
    k: int,
)
    requires
        round.wf(printers, jobs),
        0 <= i < round.claims@.len(),
        0 <= k < round.claims@.len(),
        round.claims@[i].0 == round.claims@[k].0,
    ensures
        i == k,
{
    if i < k {
        assert(round.claims@[i].0 < round.claims@[k].0);
    } else if k < i {
        assert(round.claims@[k].0 < round.claims@[i].0);
    }
}

/// A round gives no job to two printers, and a printer only jobs that suit it.
pub proof fn no_job_is_printed_twice(
    round: ClaimRound,
    printers: Seq<PrinterCfg>,
    jobs: Seq<Job>,
    i: int,
    k: int,
)
    requires
        round.wf(printers, jobs),
        0 <= i < k < round.claims@.len(),
    ensures
        jobs[round.claims@[i].1 as int].id != jobs[round.claims@[k].1 as int].id,
        suits(printers[round.claims@[i].0 as int], jobs[round.claims@[i].1 as int]),
{
    assert(round.claims@[i].0 < round.claims@[k].0);
}

// ---------------------------------------------------------------------------
// The loop
// ---------------------------------------------------------------------------

/// How many jobs to ask for: three for each printer, four at least.
pub fn fetch_limit(printers: usize) -> (r: u128)
    ensures
        r == if printers * 3 > 4 {
            printers * 3
        } else {
            4
        },
{
    let n: u128 = printers as u128 * 3;
    if n > 4 {
        n
    } else {
        4
    }
}

/// The milliseconds between two rounds: the interval with a jitter of a sixth
/// either way, which `nanos` decides, so that stations do not poll in lockstep.
pub open spec fn pause_of(secs: nat, nanos: nat) -> int {
    let base = if secs == 0 {
        1000
    } else {
        secs as int * 1000
    };
    let total = base + (nanos as int % (base / 3 + 1)) - base / 6;
    if total > 250 {
        total
    } else {
        250
    }
}

pub fn pause_ms(secs: u64, nanos: u32) -> (r: u128)
    ensures
        r == pause_of(secs as nat, nanos as nat),
{
    let base: u128 = if secs == 0 {
        1000
    } else {
        secs as u128 * 1000
    };
    let total: u128 = base + (nanos as u128 % (base / 3 + 1)) - base / 6;
    if total > 250 {
        total
    } else {
        250
    }
}

/// The pause never strays further than a sixth of the interval, rounded up, and
/// is never short.
pub proof fn pauses_stay_near_the_interval(secs: nat, nanos: nat)
    requires
        secs > 0,
    ensures
        5 * secs * 1000 <= 6 * pause_of(secs, nanos),
        6 * pause_of(secs, nanos) <= 7 * secs * 1000 + 6,
        pause_of(secs, nanos) >= 250,
{
}

/// The next stretch of a pause: what is left of it, two hundred milliseconds at
/// most, so that a station stops soon when it is told to.
pub fn next_nap(slept: u128, total: u128) -> (r: Option<u64>)
    ensures
        match r {
            Some(n) => slept < total && n == if total - slept < 200 {
                total - slept
            } else {
                200
            },
            None => slept >= total,
        },
{
    if slept >= total {
        return None;
    }
    let left: u128 = total - slept;
    if left < 200 {
        Some(left as u64)
    } else {
        Some(200)
    }
}

/// Whether a station can run: it needs a server and a printer.
pub fn check_config<F>(cfg: &Config<F>) -> (r: Result<(), String>)
    ensures
        match r {
            Ok(_) => cfg.servers@.len() > 0 && cfg.printers@.len() > 0,
            Err(e) => if cfg.servers@.len() == 0 {
                e@ == "no [[server]] configured \u{2014} run `print-client setup` first"@
            } else {
                cfg.printers@.len() == 0 && e@
                    == "no [[printer]] configured \u{2014} run `print-client setup` first"@
            },
        },
{
    if cfg.servers.len() == 0 {
        return Err("no [[server]] configured \u{2014} run `print-client setup` first".to_owned());
    }
    if cfg.printers.len() == 0 {
        return Err("no [[printer]] configured \u{2014} run `print-client setup` first".to_owned());
    }
    Ok(())
}

} // verus!
